//! The read-only filesystem surface: directory listings with their hidden
//! filter, file contents, and the raw-download head, together with the
//! exact JSON bodies they answer with.

use crate::errors::AppError;
use crate::jsonfmt::{push_escaped, push_literal, spec_json_escape};
use crate::sandbox::{is_abs_path, path_within, FsService};
use crate::text::{chars_to_string, push_dec_u64, spec_dec_u64, str_to_chars};
use vstd::prelude::*;
use vstd::seq_lib::group_seq_properties;
use vstd::string::StringExecFns;

verus! {

/// The query of a directory listing.
pub struct FsListQuery {
    /// The root-relative directory; empty or absent names the root.
    pub path: Option<String>,
    /// Whether names beginning with a dot are listed.
    pub show_hidden: Option<bool>,
}

/// One listed directory entry.
pub struct FsEntry {
    /// The entry's file name.
    pub name: String,
    /// `"dir"` for a directory, `"file"` for anything else.
    pub entry_type: String,
    /// The size in bytes.
    pub size: u64,
    /// The modification time in Unix seconds; zero when unavailable.
    pub mtime: u64,
}

/// The body answering a directory listing.
pub struct FsListResponse {
    pub ok: bool,
    pub path: String,
    pub entries: Vec<FsEntry>,
}

/// The query of a content or raw-download request.
pub struct FsContentQuery {
    pub path: String,
}

/// The body answering a content request.
pub struct FsContentResponse {
    pub ok: bool,
    pub path: String,
    pub content: String,
}

/// The effective parameters of a listing query: an absent path names the
/// root, and hidden entries stay out unless asked for.
pub fn list_params(q: FsListQuery) -> (r: (String, bool))
    ensures
        match q.path {
            Some(p) => r.0 == p,
            None => r.0@ == Seq::<char>::empty(),
        },
        r.1 == (q.show_hidden == Some(true)),
{
    let path = match q.path {
        Some(p) => p,
        None => String::new(),
    };
    let show_hidden = match q.show_hidden {
        Some(b) => b,
        None => false,
    };
    (path, show_hidden)
}

/// A name is hidden when it begins with a dot.
pub open spec fn is_hidden_name(name: Seq<char>) -> bool {
    name.len() > 0 && name[0] == '.'
}

/// An entry stays in a listing when hidden entries were asked for or its
/// name is not hidden.
pub open spec fn entry_visible(e: FsEntry, show_hidden: bool) -> bool {
    show_hidden || !is_hidden_name(e.name@)
}

/// Whether a name is listed under the given hidden-filter setting.
pub fn name_visible(name: &str, show_hidden: bool) -> (r: bool)
    ensures
        r == (show_hidden || !is_hidden_name(name@)),
{
    if show_hidden {
        return true;
    }
    let chars = str_to_chars(name);
    if chars.len() > 0 && chars[0] == '.' {
        false
    } else {
        true
    }
}

/// Build one listing entry from what the directory read observed: the
/// type text is `dir` exactly for a directory, and name, size and
/// modification time are carried through unchanged.
pub fn make_entry(name: String, is_dir: bool, size: u64, mtime: u64) -> (r: FsEntry)
    ensures
        r.name == name,
        is_dir ==> r.entry_type@ == "dir"@,
        !is_dir ==> r.entry_type@ == "file"@,
        r.size == size,
        r.mtime == mtime,
{
    let entry_type = if is_dir {
        String::from_str("dir")
    } else {
        String::from_str("file")
    };
    FsEntry { name, entry_type, size, mtime }
}

/// Keep exactly the entries the hidden filter admits, in order.
pub fn filter_entries(entries: Vec<FsEntry>, show_hidden: bool) -> (r: Vec<FsEntry>)
    ensures
        r@ == entries@.filter(|e: FsEntry| entry_visible(e, show_hidden)),
{
    broadcast use group_seq_properties;

    let ghost pred = |e: FsEntry| entry_visible(e, show_hidden);
    let mut out: Vec<FsEntry> = Vec::new();
    let mut i: usize = 0;
    proof {
        reveal(Seq::filter);
        assert(entries@.take(0int).filter(pred) =~= Seq::<FsEntry>::empty());
    }
    while i < entries.len()
        invariant
            i <= entries@.len(),
            out@ == entries@.take(i as int).filter(
                |e: FsEntry| entry_visible(e, show_hidden),
            ),
        decreases entries@.len() - i,
    {
        let keep = name_visible(entries[i].name.as_str(), show_hidden);
        if keep {
            let e = FsEntry {
                name: entries[i].name.clone(),
                entry_type: entries[i].entry_type.clone(),
                size: entries[i].size,
                mtime: entries[i].mtime,
            };
            assert(e == entries@[i as int]);
            out.push(e);
        }
        proof {
            reveal(Seq::filter);
            let pr = |e: FsEntry| entry_visible(e, show_hidden);
            assert(entries@.take(i + 1 as int).drop_last() =~= entries@.take(i as int));
            assert(entries@.take(i + 1 as int).last() == entries@[i as int]);
            assert(entries@.take(i + 1 as int).filter(pr) == if pr(entries@[i as int]) {
                entries@.take(i as int).filter(pr).push(entries@[i as int])
            } else {
                entries@.take(i as int).filter(pr)
            });
        }
        i += 1;
    }
    proof {
        assert(entries@.take(entries@.len() as int) =~= entries@);
    }
    out
}

/// The JSON of one listing entry:
/// `{"name":"...","entry_type":"...","size":N,"mtime":M}`.
pub open spec fn spec_entry_json(e: FsEntry) -> Seq<char> {
    "{\"name\":\""@ + spec_json_escape(e.name@) + "\",\"entry_type\":\""@ + spec_json_escape(
        e.entry_type@,
    ) + "\",\"size\":"@ + spec_dec_u64(e.size) + ",\"mtime\":"@ + spec_dec_u64(e.mtime) + "}"@
}

/// The entries of a listing, comma-separated, in order.
pub open spec fn spec_entries_json(es: Seq<FsEntry>) -> Seq<char>
    decreases es.len(),
{
    if es.len() == 0 {
        Seq::empty()
    } else if es.len() == 1 {
        spec_entry_json(es[0])
    } else {
        spec_entries_json(es.drop_last()) + ","@ + spec_entry_json(es.last())
    }
}

/// The body answering a directory listing:
/// `{"ok":true,"path":"...","entries":[...]}`.
pub open spec fn spec_list_json(path: Seq<char>, es: Seq<FsEntry>) -> Seq<char> {
    "{\"ok\":true,\"path\":\""@ + spec_json_escape(path) + "\",\"entries\":["@ + spec_entries_json(
        es,
    ) + "]}"@
}

/// Append the JSON of one listing entry.
fn push_entry_json(out: &mut Vec<char>, e: &FsEntry)
    ensures
        final(out)@ == old(out)@ + spec_entry_json(*e),
{
    push_literal(out, "{\"name\":\"");
    let name = str_to_chars(e.name.as_str());
    push_escaped(out, &name);
    push_literal(out, "\",\"entry_type\":\"");
    let et = str_to_chars(e.entry_type.as_str());
    push_escaped(out, &et);
    push_literal(out, "\",\"size\":");
    push_dec_u64(out, e.size);
    push_literal(out, ",\"mtime\":");
    push_dec_u64(out, e.mtime);
    push_literal(out, "}");
    assert(out@ =~= old(out)@ + spec_entry_json(*e));
}

/// Build the body of a directory listing.
pub fn list_response_json(path: &str, entries: &Vec<FsEntry>) -> (r: String)
    ensures
        r@ == spec_list_json(path@, entries@),
{
    let mut out: Vec<char> = Vec::new();
    push_literal(&mut out, "{\"ok\":true,\"path\":\"");
    let p = str_to_chars(path);
    push_escaped(&mut out, &p);
    push_literal(&mut out, "\",\"entries\":[");
    let ghost head: Seq<char> = out@;
    let mut i: usize = 0;
    while i < entries.len()
        invariant
            i <= entries@.len(),
            out@ == head + spec_entries_json(entries@.take(i as int)),
        decreases entries@.len() - i,
    {
        if i > 0 {
            push_literal(&mut out, ",");
        }
        push_entry_json(&mut out, &entries[i]);
        proof {
            let taken = entries@.take(i + 1 as int);
            assert(taken.drop_last() =~= entries@.take(i as int));
            assert(taken.last() == entries@[i as int]);
            if i == 0 {
                assert(spec_entries_json(taken) == spec_entry_json(entries@[0]));
                assert(out@ =~= head + spec_entries_json(taken));
            } else {
                assert(spec_entries_json(taken) == spec_entries_json(entries@.take(i as int))
                    + ","@ + spec_entry_json(entries@[i as int]));
                assert(out@ =~= head + spec_entries_json(taken));
            }
        }
        i += 1;
    }
    proof {
        assert(entries@.take(entries@.len() as int) =~= entries@);
    }
    push_literal(&mut out, "]}");
    proof {
        assert(out@ =~= spec_list_json(path@, entries@));
    }
    chars_to_string(&out)
}

/// The body answering a content request:
/// `{"ok":true,"path":"...","content":"..."}`.
pub open spec fn spec_content_json(path: Seq<char>, content: Seq<char>) -> Seq<char> {
    "{\"ok\":true,\"path\":\""@ + spec_json_escape(path) + "\",\"content\":\""@ + spec_json_escape(
        content,
    ) + "\"}"@
}

/// Build the body of a content request.
pub fn content_response_json(path: &str, content: &str) -> (r: String)
    ensures
        r@ == spec_content_json(path@, content@),
{
    let mut out: Vec<char> = Vec::new();
    push_literal(&mut out, "{\"ok\":true,\"path\":\"");
    let p = str_to_chars(path);
    push_escaped(&mut out, &p);
    push_literal(&mut out, "\",\"content\":\"");
    let c = str_to_chars(content);
    push_escaped(&mut out, &c);
    push_literal(&mut out, "\"}");
    chars_to_string(&out)
}

/// What a file's content type is guessed to be from its path's extension,
/// the default content type where nothing is known.
pub uninterp spec fn mime_of(path: Seq<char>) -> Seq<char>;

/// Relies on `mime_guess::from_path(..).first_or_octet_stream()`: the
/// guess reads only the path's extension, so the result is a function of
/// the path text alone; where no type is known it is the octet-stream
/// default.
#[verifier::external_body]
fn guess_mime(path: &str) -> (r: String)
    ensures
        r@ == mime_of(path@),
{
    mime_guess::from_path(path).first_or_octet_stream().as_ref().to_string()
}

/// Resolve a raw-download request: the canonical path of the file to
/// stream, inside the sandbox, and the content type its extension names.
pub fn raw_download_head(fs: &FsService, path: &str) -> (r: Result<(String, String), AppError>)
    requires
        fs.wf(),
    ensures
        r matches Ok((p, mime)) ==> is_abs_path(p@) && path_within(p@, fs.spec_root()) && mime@
            == mime_of(p@),
        r matches Err(e) ==> e is Io || (e matches AppError::BadRequest(m) && m@
            == "path escapes root"@),
{
    match fs.resolve_path(path) {
        Ok(resolved) => {
            let mime = guess_mime(resolved.as_str());
            Ok((resolved, mime))
        },
        Err(e) => Err(e),
    }
}

} // verus!
