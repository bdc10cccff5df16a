//! The path-sandbox resolver.
//!
//! Every user-supplied path is joined to the configured root, fully
//! canonicalized (symbolic links and `..` resolved by the operating
//! system), and only then checked to lie inside the root. Checking before
//! canonicalization would be unsound: `..` and symbolic links crafted
//! inside the root can point outside it. The containment check itself and
//! the root-relative rendering are pure character-level functions, verified
//! here; only the canonicalization syscall is trusted.

use crate::errors::AppError;
use crate::text::{chars_to_string, str_to_chars};
use vstd::prelude::*;
use vstd::string::StringExecFns;

verus! {

/// A path is absolute: non-empty and rooted at `/`.
pub open spec fn is_abs_path(p: Seq<char>) -> bool {
    p.len() >= 1 && p[0] == '/'
}

/// No empty component: the path never holds two separators in a row.
/// Canonical paths have this shape.
pub open spec fn no_double_slash(p: Seq<char>) -> bool {
    forall|i: int| 0 <= i < p.len() - 1 ==> !(#[trigger] p[i] == '/' && p[i + 1] == '/')
}

/// No trailing separator, except on the root directory itself.
/// Canonical paths have this shape.
pub open spec fn no_trailing_slash(p: Seq<char>) -> bool {
    p.len() > 1 ==> p[p.len() - 1] != '/'
}

/// `p` names `root` itself or a descendant of it, by whole components.
pub open spec fn path_within(p: Seq<char>, root: Seq<char>) -> bool {
    p == root || (root.len() == 1 && root[0] == '/' && is_abs_path(p)) || (p.len() > root.len()
        && p.take(root.len() as int) == root && p[root.len() as int] == '/')
}

/// The path of `p` relative to `root`: the empty string for the root
/// itself, the remainder after the separator for a descendant, nothing
/// for a path outside the root.
pub open spec fn spec_to_relative(p: Seq<char>, root: Seq<char>) -> Option<Seq<char>> {
    if p == root {
        Some(Seq::empty())
    } else if root.len() == 1 && root[0] == '/' && is_abs_path(p) {
        Some(p.skip(1))
    } else if p.len() > root.len() && p.take(root.len() as int) == root && p[root.len() as int]
        == '/' {
        Some(p.skip(root.len() as int + 1))
    } else {
        None
    }
}

/// Joining a relative path to a base, as paths are joined before
/// canonicalization: the base alone for an empty path, the relative path
/// alone when it is itself absolute, otherwise the concatenation with
/// exactly one separator between the two.
pub open spec fn spec_join(root: Seq<char>, rel: Seq<char>) -> Seq<char> {
    if rel.len() == 0 {
        root
    } else if is_abs_path(rel) {
        rel
    } else if root.len() >= 1 && root[root.len() - 1] == '/' {
        root + rel
    } else {
        root + seq!['/'] + rel
    }
}

/// Resolving is idempotent at the level of path texts: a canonically
/// shaped path inside the root has a root-relative rendering, and joining
/// that rendering back onto the root restores the very same path. Since a
/// canonical path canonicalizes to itself, resolving the rendering again
/// therefore passes the containment check and yields the same path.
pub proof fn lemma_resolve_roundtrip(p: Seq<char>, root: Seq<char>)
    requires
        is_abs_path(root),
        is_abs_path(p),
        no_double_slash(p),
        no_trailing_slash(p),
        path_within(p, root),
    ensures
        spec_to_relative(p, root) is Some,
        spec_join(root, spec_to_relative(p, root).unwrap()) == p,
{
    if p == root {
        assert(spec_join(root, Seq::empty()) == root);
    } else if root.len() == 1 && root[0] == '/' {
        let rel = p.skip(1);
        if p.len() == 1 {
            assert(p =~= root);
        }
        assert(p.len() > 1);
        assert(p[p.len() - 1] != '/');
        if p.len() >= 2 {
            assert(!(p[0] == '/' && p[1] == '/'));
            assert(rel[0] == p[1]);
        }
        assert(rel.len() >= 1 && rel[0] != '/');
        assert(!is_abs_path(rel));
        assert(root[root.len() - 1] == '/');
        assert(spec_join(root, rel) =~= p);
    } else {
        let rl = root.len() as int;
        assert(p.len() > root.len() && p.take(rl) == root && p[rl] == '/');
        let rel = p.skip(rl + 1);
        // The path does not end in the separator found at the root's
        // length, so at least one character follows it.
        assert(p[p.len() - 1] != '/');
        assert(p.len() > rl + 1);
        assert(!(p[rl] == '/' && p[rl + 1] == '/'));
        assert(rel[0] == p[rl + 1]);
        assert(!is_abs_path(rel));
        // The root itself cannot end in a separator: the character after
        // it in `p` is one, and `p` has no two in a row.
        assert(root[rl - 1] == p.take(rl)[rl - 1]);
        assert(p[rl - 1] == root[rl - 1]);
        assert(!(p[rl - 1] == '/' && p[rl] == '/'));
        assert(root[root.len() - 1] != '/');
        assert(spec_join(root, rel) =~= p.take(rl) + seq!['/'] + p.skip(rl + 1));
        assert(p.take(rl) + seq!['/'] + p.skip(rl + 1) =~= p);
    }
}

/// Relies on `std::path::Path::canonicalize`: on success the result is the
/// canonical, absolute form of the path, with `.`, `..` and symbolic links
/// resolved by the operating system; on failure the error's rendering is
/// handed back. The outcome depends on the state of the filesystem, so
/// nothing beyond absoluteness is assumed of it.
#[verifier::external_body]
pub(crate) fn canonicalize_str(path: &str) -> (r: Result<String, String>)
    ensures
        r matches Ok(p) ==> is_abs_path(p@),
{
    match std::path::Path::new(path).canonicalize() {
        Ok(p) => Ok(p.to_string_lossy().to_string()),
        Err(e) => Err(format!("{e}")),
    }
}

/// Two character vectors hold the same text.
fn chars_eq(a: &Vec<char>, b: &Vec<char>) -> (r: bool)
    ensures
        r == (a@ == b@),
{
    if a.len() != b.len() {
        assert(a@ != b@);
        return false;
    }
    let mut i: usize = 0;
    while i < a.len()
        invariant
            i <= a@.len(),
            a@.len() == b@.len(),
            forall|j: int| 0 <= j < i ==> a@[j] == b@[j],
        decreases a@.len() - i,
    {
        if a[i] != b[i] {
            return false;
        }
        i += 1;
    }
    assert(a@ =~= b@);
    true
}

/// `p` begins with the text of `root`.
fn chars_starts_with(p: &Vec<char>, root: &Vec<char>) -> (r: bool)
    ensures
        r == (p@.len() >= root@.len() && p@.take(root@.len() as int) == root@),
{
    if p.len() < root.len() {
        return false;
    }
    let mut i: usize = 0;
    while i < root.len()
        invariant
            i <= root@.len(),
            p@.len() >= root@.len(),
            forall|j: int| 0 <= j < i ==> p@[j] == root@[j],
        decreases root@.len() - i,
    {
        if p[i] != root[i] {
            assert(p@.take(root@.len() as int)[i as int] != root@[i as int]);
            return false;
        }
        i += 1;
    }
    assert(p@.take(root@.len() as int) =~= root@);
    true
}

/// The suffix of `p` from position `from` on.
fn chars_suffix(p: &Vec<char>, from: usize) -> (r: Vec<char>)
    requires
        from <= p@.len(),
    ensures
        r@ == p@.skip(from as int),
{
    let mut out: Vec<char> = Vec::new();
    let mut i: usize = from;
    while i < p.len()
        invariant
            from <= i <= p@.len(),
            out@ == p@.subrange(from as int, i as int),
        decreases p@.len() - i,
    {
        out.push(p[i]);
        proof {
            assert(p@.subrange(from as int, i + 1 as int) =~= p@.subrange(
                from as int,
                i as int,
            ).push(p@[i as int]));
        }
        i += 1;
    }
    proof {
        assert(p@.subrange(from as int, p@.len() as int) =~= p@.skip(from as int));
    }
    out
}

/// Decide containment of a canonical path in a canonical root.
fn path_within_chars(p: &Vec<char>, root: &Vec<char>) -> (r: bool)
    ensures
        r == path_within(p@, root@),
{
    if chars_eq(p, root) {
        return true;
    }
    if root.len() == 1 && root[0] == '/' && p.len() >= 1 && p[0] == '/' {
        return true;
    }
    if p.len() > root.len() && chars_starts_with(p, root) && p[root.len()] == '/' {
        return true;
    }
    false
}

/// The sandboxed filesystem resolver: an immutable canonical root, and the
/// two path operations every request consults.
pub struct FsService {
    root: String,
}

impl FsService {
    /// The configured root, as text.
    pub closed spec fn spec_root(&self) -> Seq<char> {
        self.root@
    }

    /// The root is an absolute path.
    pub closed spec fn wf(&self) -> bool {
        is_abs_path(self.root@)
    }

    /// Establish the sandbox root: canonicalize the configured directory
    /// once, at startup. Fails if the directory cannot be resolved.
    pub fn new(root: &str) -> (r: Result<FsService, AppError>)
        ensures
            r matches Ok(s) ==> s.wf(),
            r matches Err(e) ==> e is Io,
    {
        match canonicalize_str(root) {
            Ok(canonical) => Ok(FsService { root: canonical }),
            Err(m) => Err(AppError::Io(m)),
        }
    }

    /// The canonical root directory.
    pub fn root(&self) -> (r: String)
        ensures
            r@ == self.spec_root(),
    {
        self.root.clone()
    }

    /// Resolve a user-supplied relative path against the root, so that it
    /// cannot escape the sandbox.
    ///
    /// The path is joined to the root (an empty path names the root
    /// itself), canonicalized, and checked to lie within the root; the
    /// check runs on the canonical form only. On success the canonical,
    /// absolute path is returned and it lies within the root — for every
    /// input, including `..` chains and symbolic links pointing outside.
    /// A path that resolves outside the root is answered with
    /// `BadRequest`; a path that cannot be resolved (for instance one
    /// that does not exist) is answered with `Io`.
    pub fn resolve_path(&self, relative: &str) -> (r: Result<String, AppError>)
        requires
            self.wf(),
        ensures
            r matches Ok(p) ==> is_abs_path(p@) && path_within(p@, self.spec_root()),
            r matches Err(e) ==> e is Io || (e matches AppError::BadRequest(m) && m@
                == "path escapes root"@),
    {
        let root_chars = str_to_chars(self.root.as_str());
        let rel_chars = str_to_chars(relative);
        let mut joined: Vec<char> = Vec::new();
        if rel_chars.len() == 0 {
            joined = root_chars.clone();
        } else if rel_chars[0] == '/' {
            joined = rel_chars.clone();
        } else {
            joined = root_chars.clone();
            if joined[joined.len() - 1] != '/' {
                joined.push('/');
            }
            let ghost base: Seq<char> = joined@;
            let mut k: usize = 0;
            while k < rel_chars.len()
                invariant
                    k <= rel_chars@.len(),
                    joined@ =~= base + rel_chars@.take(k as int),
                decreases rel_chars@.len() - k,
            {
                joined.push(rel_chars[k]);
                proof {
                    assert(base + rel_chars@.take(k + 1 as int) =~= (base + rel_chars@.take(
                        k as int,
                    )).push(rel_chars@[k as int]));
                }
                k += 1;
            }
            proof {
                assert(rel_chars@.take(rel_chars@.len() as int) =~= rel_chars@);
                if root_chars@[root_chars@.len() - 1] == '/' {
                    assert(joined@ =~= root_chars@ + rel_chars@);
                } else {
                    assert(base =~= root_chars@ + seq!['/']);
                    assert(joined@ =~= root_chars@ + seq!['/'] + rel_chars@);
                }
            }
        }
        // What reaches canonicalization is exactly the join the
        // round-trip law speaks of.
        assert(joined@ == spec_join(self.spec_root(), relative@));
        let joined_str = chars_to_string(&joined);
        match canonicalize_str(joined_str.as_str()) {
            Ok(canonical) => {
                let canonical_chars = str_to_chars(canonical.as_str());
                if path_within_chars(&canonical_chars, &root_chars) {
                    Ok(canonical)
                } else {
                    Err(AppError::BadRequest(String::from_str("path escapes root")))
                }
            },
            Err(m) => Err(AppError::Io(m)),
        }
    }

    /// The path of an absolute path relative to the root, or nothing for
    /// a path outside the root. Purely textual: the input is expected in
    /// canonical form, as `resolve_path` returns it.
    pub fn to_relative(&self, absolute: &str) -> (r: Option<String>)
        ensures
            match r {
                Some(rel) => spec_to_relative(absolute@, self.spec_root()) == Some(rel@),
                None => spec_to_relative(absolute@, self.spec_root()) is None,
            },
    {
        let root_chars = str_to_chars(self.root.as_str());
        let p_chars = str_to_chars(absolute);
        if chars_eq(&p_chars, &root_chars) {
            let empty: Vec<char> = Vec::new();
            return Some(chars_to_string(&empty));
        }
        if root_chars.len() == 1 && root_chars[0] == '/' && p_chars.len() >= 1 && p_chars[0]
            == '/' {
            let rel = chars_suffix(&p_chars, 1);
            return Some(chars_to_string(&rel));
        }
        if p_chars.len() > root_chars.len() && chars_starts_with(&p_chars, &root_chars)
            && p_chars[root_chars.len()] == '/' {
            let rel = chars_suffix(&p_chars, root_chars.len() + 1);
            return Some(chars_to_string(&rel));
        }
        None
    }
}

} // verus!
