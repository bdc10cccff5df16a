//! The watch WebSocket: its request grammar, its subscription state, and
//! the exact texts of its replies.
//!
//! A client request is a JSON object with exactly the members `action`
//! (`"watch"` or `"unwatch"`) and `path`, in either order, with JSON string
//! escapes and optional whitespace between tokens. Anything else is an
//! invalid payload.

use crate::jsonfmt::{push_escaped, push_literal, spec_json_escape};
use crate::sandbox::{canonicalize_str, is_abs_path, path_within, spec_to_relative, FsService};
use crate::text::{chars_to_string, push_dec_u64, spec_dec_u64, str_to_chars};
use vstd::prelude::*;

verus! {

/// JSON insignificant whitespace.
pub open spec fn is_json_ws(c: char) -> bool {
    c == ' ' || c == '\t' || c == '\n' || c == '\r'
}

/// The first position at or after `i` holding something other than
/// whitespace (or the end of the text).
pub open spec fn spec_skip_ws(s: Seq<char>, i: int) -> int
    decreases s.len() - i,
{
    if 0 <= i < s.len() && is_json_ws(s[i]) {
        spec_skip_ws(s, i + 1)
    } else {
        i
    }
}

/// The character a backslash escape denotes, if the escape is one this
/// grammar accepts.
pub open spec fn spec_unescape(e: char) -> Option<char> {
    if e == '"' {
        Some('"')
    } else if e == '\\' {
        Some('\\')
    } else if e == '/' {
        Some('/')
    } else if e == 'b' {
        Some('\u{8}')
    } else if e == 'f' {
        Some('\u{C}')
    } else if e == 'n' {
        Some('\n')
    } else if e == 'r' {
        Some('\r')
    } else if e == 't' {
        Some('\t')
    } else {
        None
    }
}

/// Scan a JSON string body from `i` (just past the opening quote) to its
/// closing quote: the decoded text and the position after the quote. An
/// unterminated string or an unknown escape scans to nothing.
pub open spec fn spec_scan_string(s: Seq<char>, i: int) -> Option<(Seq<char>, int)>
    decreases s.len() - i,
{
    if i < 0 || i >= s.len() {
        None
    } else if s[i] == '"' {
        Some((Seq::empty(), i + 1))
    } else if s[i] == '\\' {
        if i + 1 >= s.len() {
            None
        } else {
            match spec_unescape(s[i + 1]) {
                Some(c) => match spec_scan_string(s, i + 2) {
                    Some((tail, end)) => Some((seq![c] + tail, end)),
                    None => None,
                },
                None => None,
            }
        }
    } else {
        match spec_scan_string(s, i + 1) {
            Some((tail, end)) => Some((seq![s[i]] + tail, end)),
            None => None,
        }
    }
}

/// A JSON string token at `i`: an opening quote, then its body.
pub open spec fn spec_parse_string_at(s: Seq<char>, i: int) -> Option<(Seq<char>, int)> {
    if 0 <= i < s.len() && s[i] == '"' {
        spec_scan_string(s, i + 1)
    } else {
        None
    }
}

/// One `"key" : "value"` member starting at `i`: both texts and the
/// position after the value.
pub open spec fn spec_parse_pair(s: Seq<char>, i: int) -> Option<((Seq<char>, Seq<char>), int)> {
    match spec_parse_string_at(s, i) {
        Some((key, j)) => {
            let j2 = spec_skip_ws(s, j);
            if j2 < s.len() && s[j2] == ':' {
                let j3 = spec_skip_ws(s, j2 + 1);
                match spec_parse_string_at(s, j3) {
                    Some((value, end)) => Some(((key, value), end)),
                    None => None,
                }
            } else {
                None
            }
        },
        None => None,
    }
}

/// Which action two members select: the `action` value decides watching
/// or unwatching, the `path` value is the argument.
pub open spec fn spec_action_of(action: Seq<char>, path: Seq<char>) -> Option<(bool, Seq<char>)> {
    if action == "watch"@ {
        Some((true, path))
    } else if action == "unwatch"@ {
        Some((false, path))
    } else {
        None
    }
}

/// Interpret the two members of a request object, in either order.
pub open spec fn spec_interpret(
    k1: Seq<char>,
    v1: Seq<char>,
    k2: Seq<char>,
    v2: Seq<char>,
) -> Option<(bool, Seq<char>)> {
    if k1 == "action"@ && k2 == "path"@ {
        spec_action_of(v1, v2)
    } else if k1 == "path"@ && k2 == "action"@ {
        spec_action_of(v2, v1)
    } else {
        None
    }
}

/// The whole request grammar: an object of exactly two string members,
/// `action` and `path`, and nothing but whitespace around the tokens.
/// `Some((true, p))` asks to watch `p`, `Some((false, p))` to unwatch it;
/// `None` is an invalid payload.
pub open spec fn spec_parse_request(s: Seq<char>) -> Option<(bool, Seq<char>)> {
    let i0 = spec_skip_ws(s, 0);
    if !(i0 < s.len() && s[i0] == '{') {
        None
    } else {
        let i1 = spec_skip_ws(s, i0 + 1);
        match spec_parse_pair(s, i1) {
            Some(((k1, v1), j1)) => {
                let j2 = spec_skip_ws(s, j1);
                if j2 < s.len() && s[j2] == ',' {
                    let j3 = spec_skip_ws(s, j2 + 1);
                    match spec_parse_pair(s, j3) {
                        Some(((k2, v2), j4)) => {
                            let j5 = spec_skip_ws(s, j4);
                            if j5 < s.len() && s[j5] == '}' {
                                if spec_skip_ws(s, j5 + 1) == s.len() {
                                    spec_interpret(k1, v1, k2, v2)
                                } else {
                                    None
                                }
                            } else {
                                None
                            }
                        },
                        None => None,
                    }
                } else {
                    None
                }
            },
            None => None,
        }
    }
}

/// A decoded client request.
pub enum WatchRequest {
    /// Watch the given client-relative path.
    Watch { path: String },
    /// Stop watching the given client-relative path.
    Unwatch { path: String },
    /// Not a request of the grammar.
    Invalid,
}

/// A scan outcome with the accumulated text put in front of it.
spec fn with_prefix(pre: Seq<char>, r: Option<(Seq<char>, int)>) -> Option<(Seq<char>, int)> {
    match r {
        Some((tail, end)) => Some((pre + tail, end)),
        None => None,
    }
}

fn is_ws_char(c: char) -> (r: bool)
    ensures
        r == is_json_ws(c),
{
    c == ' ' || c == '\t' || c == '\n' || c == '\r'
}

/// Skip insignificant whitespace.
fn skip_ws(v: &Vec<char>, i: usize) -> (r: usize)
    requires
        i <= v@.len(),
    ensures
        r == spec_skip_ws(v@, i as int),
        i <= r <= v@.len(),
{
    let mut j = i;
    while j < v.len() && is_ws_char(v[j])
        invariant
            i <= j <= v@.len(),
            spec_skip_ws(v@, i as int) == spec_skip_ws(v@, j as int),
        decreases v@.len() - j,
    {
        j += 1;
    }
    j
}

fn unescape_char(e: char) -> (r: Option<char>)
    ensures
        r == spec_unescape(e),
{
    if e == '"' {
        Some('"')
    } else if e == '\\' {
        Some('\\')
    } else if e == '/' {
        Some('/')
    } else if e == 'b' {
        Some('\u{8}')
    } else if e == 'f' {
        Some('\u{C}')
    } else if e == 'n' {
        Some('\n')
    } else if e == 'r' {
        Some('\r')
    } else if e == 't' {
        Some('\t')
    } else {
        None
    }
}

/// Scan a JSON string body, decoding escapes.
fn scan_string(v: &Vec<char>, start: usize) -> (r: Option<(Vec<char>, usize)>)
    requires
        start <= v@.len(),
    ensures
        match r {
            Some((content, end)) => spec_scan_string(v@, start as int) == Some(
                (content@, end as int),
            ) && start < end <= v@.len(),
            None => spec_scan_string(v@, start as int) is None,
        },
{
    let mut acc: Vec<char> = Vec::new();
    let mut i = start;
    loop
        invariant
            start <= i <= v@.len(),
            spec_scan_string(v@, start as int) == with_prefix(acc@, spec_scan_string(v@, i as int)),
        decreases v@.len() - i,
    {
        if i >= v.len() {
            return None;
        }
        let c = v[i];
        if c == '"' {
            proof {
                assert(spec_scan_string(v@, i as int) == Some((Seq::<char>::empty(), i + 1 as int)));
                assert(acc@ + Seq::<char>::empty() =~= acc@);
            }
            return Some((acc, i + 1));
        } else if c == '\\' {
            if i + 1 >= v.len() {
                return None;
            }
            match unescape_char(v[i + 1]) {
                Some(d) => {
                    proof {
                        let rest = spec_scan_string(v@, i + 2 as int);
                        if rest is Some {
                            let (tail, end) = rest->Some_0;
                            assert(acc@ + (seq![d] + tail) =~= acc@.push(d) + tail);
                        }
                    }
                    acc.push(d);
                    i = i + 2;
                },
                None => {
                    return None;
                },
            }
        } else {
            proof {
                let rest = spec_scan_string(v@, i + 1 as int);
                if rest is Some {
                    let (tail, end) = rest->Some_0;
                    assert(acc@ + (seq![c] + tail) =~= acc@.push(c) + tail);
                }
            }
            acc.push(c);
            i = i + 1;
        }
    }
}

/// Parse a string token: an opening quote and its body.
fn parse_string_at(v: &Vec<char>, i: usize) -> (r: Option<(Vec<char>, usize)>)
    requires
        i <= v@.len(),
    ensures
        match r {
            Some((content, end)) => spec_parse_string_at(v@, i as int) == Some(
                (content@, end as int),
            ) && i < end <= v@.len(),
            None => spec_parse_string_at(v@, i as int) is None,
        },
{
    if i < v.len() && v[i] == '"' {
        scan_string(v, i + 1)
    } else {
        None
    }
}

/// Parse one `"key" : "value"` member.
fn parse_pair(v: &Vec<char>, i: usize) -> (r: Option<((Vec<char>, Vec<char>), usize)>)
    requires
        i <= v@.len(),
    ensures
        match r {
            Some(((key, value), end)) => spec_parse_pair(v@, i as int) == Some(
                ((key@, value@), end as int),
            ) && i < end <= v@.len(),
            None => spec_parse_pair(v@, i as int) is None,
        },
{
    match parse_string_at(v, i) {
        Some((key, j)) => {
            let j2 = skip_ws(v, j);
            if j2 < v.len() && v[j2] == ':' {
                let j3 = skip_ws(v, j2 + 1);
                match parse_string_at(v, j3) {
                    Some((value, end)) => Some(((key, value), end)),
                    None => None,
                }
            } else {
                None
            }
        },
        None => None,
    }
}

/// Compare a decoded text against a literal.
fn chars_eq_str(a: &Vec<char>, lit: &str) -> (r: bool)
    ensures
        r == (a@ == lit@),
{
    let b = str_to_chars(lit);
    if a.len() != b.len() {
        return false;
    }
    let mut i: usize = 0;
    while i < a.len()
        invariant
            i <= a@.len(),
            a@.len() == b@.len(),
            b@ == lit@,
            forall|j: int| 0 <= j < i ==> a@[j] == b@[j],
        decreases a@.len() - i,
    {
        if a[i] != b[i] {
            return false;
        }
        i += 1;
    }
    assert(a@ =~= lit@);
    true
}

/// Decode one client request of the watch socket.
///
/// The result mirrors the grammar exactly: a watch or unwatch request
/// with its decoded path when the text is an object of exactly the two
/// string members `action` and `path`, and `Invalid` otherwise.
pub fn parse_watch_request(text: &str) -> (r: WatchRequest)
    ensures
        match r {
            WatchRequest::Watch { path } => spec_parse_request(text@) == Some((true, path@)),
            WatchRequest::Unwatch { path } => spec_parse_request(text@) == Some((false, path@)),
            WatchRequest::Invalid => spec_parse_request(text@) is None,
        },
{
    let v = str_to_chars(text);
    let i0 = skip_ws(&v, 0);
    if !(i0 < v.len() && v[i0] == '{') {
        return WatchRequest::Invalid;
    }
    let i1 = skip_ws(&v, i0 + 1);
    let p1 = match parse_pair(&v, i1) {
        Some(p) => p,
        None => {
            return WatchRequest::Invalid;
        },
    };
    let ((k1, v1), j1) = p1;
    let j2 = skip_ws(&v, j1);
    if !(j2 < v.len() && v[j2] == ',') {
        return WatchRequest::Invalid;
    }
    let j3 = skip_ws(&v, j2 + 1);
    let p2 = match parse_pair(&v, j3) {
        Some(p) => p,
        None => {
            return WatchRequest::Invalid;
        },
    };
    let ((k2, v2), j4) = p2;
    let j5 = skip_ws(&v, j4);
    if !(j5 < v.len() && v[j5] == '}') {
        return WatchRequest::Invalid;
    }
    let j6 = skip_ws(&v, j5 + 1);
    if j6 != v.len() {
        return WatchRequest::Invalid;
    }
    let (action, path) = if chars_eq_str(&k1, "action") && chars_eq_str(&k2, "path") {
        (v1, v2)
    } else if chars_eq_str(&k1, "path") && chars_eq_str(&k2, "action") {
        (v2, v1)
    } else {
        return WatchRequest::Invalid;
    };
    if chars_eq_str(&action, "watch") {
        WatchRequest::Watch { path: chars_to_string(&path) }
    } else if chars_eq_str(&action, "unwatch") {
        WatchRequest::Unwatch { path: chars_to_string(&path) }
    } else {
        WatchRequest::Invalid
    }
}

/// The reply acknowledging a watch: `{"event":"watching","path":"..."}`.
pub open spec fn spec_watching_json(path: Seq<char>) -> Seq<char> {
    "{\"event\":\"watching\",\"path\":\""@ + spec_json_escape(path) + "\"}"@
}

/// The reply acknowledging an unwatch: `{"event":"unwatched","path":"..."}`.
pub open spec fn spec_unwatched_json(path: Seq<char>) -> Seq<char> {
    "{\"event\":\"unwatched\",\"path\":\""@ + spec_json_escape(path) + "\"}"@
}

/// An error event: `{"event":"error","message":"..."}`.
pub open spec fn spec_error_event_json(message: Seq<char>) -> Seq<char> {
    "{\"event\":\"error\",\"message\":\""@ + spec_json_escape(message) + "\"}"@
}

/// A change notification:
/// `{"event":"change","path":"...","timestamp":N}`.
pub open spec fn spec_change_json(path: Seq<char>, timestamp: u64) -> Seq<char> {
    "{\"event\":\"change\",\"path\":\""@ + spec_json_escape(path) + "\",\"timestamp\":"@
        + spec_dec_u64(timestamp) + "}"@
}

/// Build the watch acknowledgement.
pub fn watching_json(path: &str) -> (r: String)
    ensures
        r@ == spec_watching_json(path@),
{
    let mut out: Vec<char> = Vec::new();
    push_literal(&mut out, "{\"event\":\"watching\",\"path\":\"");
    let p = str_to_chars(path);
    push_escaped(&mut out, &p);
    push_literal(&mut out, "\"}");
    chars_to_string(&out)
}

/// Build the unwatch acknowledgement.
pub fn unwatched_json(path: &str) -> (r: String)
    ensures
        r@ == spec_unwatched_json(path@),
{
    let mut out: Vec<char> = Vec::new();
    push_literal(&mut out, "{\"event\":\"unwatched\",\"path\":\"");
    let p = str_to_chars(path);
    push_escaped(&mut out, &p);
    push_literal(&mut out, "\"}");
    chars_to_string(&out)
}

/// Build an error event.
pub fn error_event_json(message: &str) -> (r: String)
    ensures
        r@ == spec_error_event_json(message@),
{
    let mut out: Vec<char> = Vec::new();
    push_literal(&mut out, "{\"event\":\"error\",\"message\":\"");
    let m = str_to_chars(message);
    push_escaped(&mut out, &m);
    push_literal(&mut out, "\"}");
    chars_to_string(&out)
}

/// Build a change notification.
pub fn change_json(path: &str, timestamp: u64) -> (r: String)
    ensures
        r@ == spec_change_json(path@, timestamp),
{
    let mut out: Vec<char> = Vec::new();
    push_literal(&mut out, "{\"event\":\"change\",\"path\":\"");
    let p = str_to_chars(path);
    push_escaped(&mut out, &p);
    push_literal(&mut out, "\",\"timestamp\":");
    push_dec_u64(&mut out, timestamp);
    push_literal(&mut out, "}");
    chars_to_string(&out)
}

/// One subscription of this connection: the canonical path registered
/// with the platform watcher, and the path text the client supplied.
pub struct WatchEntry {
    pub canonical: String,
    pub rel: String,
}

/// No two subscriptions share a canonical path.
pub open spec fn canon_unique(watched: Seq<WatchEntry>) -> bool {
    forall|i: int, j: int|
        0 <= i < j < watched.len() ==> (#[trigger] watched[i].canonical)@ != (
        #[trigger] watched[j].canonical)@
}

/// Some subscription maps this canonical path to this client text.
pub open spec fn pair_in(watched: Seq<WatchEntry>, canonical: Seq<char>, rel: Seq<char>) -> bool {
    exists|i: int|
        0 <= i < watched.len() && (#[trigger] watched[i].canonical)@ == canonical
            && watched[i].rel@ == rel
}

/// Some subscription holds this canonical path.
pub open spec fn has_canon(watched: Seq<WatchEntry>, canonical: Seq<char>) -> bool {
    exists|i: int| 0 <= i < watched.len() && (#[trigger] watched[i].canonical)@ == canonical
}

/// `after` holds exactly the pairs of `before` with every subscription of
/// `canonical` replaced by the single pair `(canonical, rel)`.
pub open spec fn spec_upsert(
    before: Seq<WatchEntry>,
    after: Seq<WatchEntry>,
    canonical: Seq<char>,
    rel: Seq<char>,
) -> bool {
    forall|c2: Seq<char>, r2: Seq<char>|
        #[trigger] pair_in(after, c2, r2) <==> ((c2 == canonical && r2 == rel) || (pair_in(
            before,
            c2,
            r2,
        ) && c2 != canonical))
}

/// `after` holds exactly the pairs of `before` whose canonical path is
/// not `canonical`.
pub open spec fn spec_removed(
    before: Seq<WatchEntry>,
    after: Seq<WatchEntry>,
    canonical: Seq<char>,
) -> bool {
    forall|c2: Seq<char>, r2: Seq<char>|
        #[trigger] pair_in(after, c2, r2) <==> (pair_in(before, c2, r2) && c2 != canonical)
}

/// What the connection must do next for one client request.
pub enum WatchStep {
    /// Send this reply; the subscriptions are unchanged.
    Reply { reply: String },
    /// Register `canonical` with the platform watcher in non-recursive
    /// mode, then commit the outcome.
    Register { canonical: String, rel: String },
    /// If `was_watched`, unregister `canonical` from the platform
    /// watcher; then send the reply.
    Unregister { canonical: String, was_watched: bool, reply: String },
    /// Nothing to send and nothing to do.
    Silent,
}

/// The per-connection subscription state of one watch socket.
pub struct WatchSession {
    watched: Vec<WatchEntry>,
}

impl WatchSession {
    /// The subscriptions currently held.
    pub closed spec fn spec_watched(&self) -> Seq<WatchEntry> {
        self.watched@
    }

    /// Canonical paths are unique.
    pub open spec fn inv(&self) -> bool {
        canon_unique(self.spec_watched())
    }

    /// A fresh connection watches nothing.
    pub fn new() -> (r: WatchSession)
        ensures
            r.inv(),
            r.spec_watched().len() == 0,
    {
        WatchSession { watched: Vec::new() }
    }

    /// Drop every subscription of this canonical path.
    fn remove_canonical(&mut self, canonical: &str)
        ensures
            spec_removed(old(self).spec_watched(), final(self).spec_watched(), canonical@),
            old(self).inv() ==> final(self).inv(),
    {
        let ghost orig: Seq<WatchEntry> = self.watched@;
        let mut kept: Vec<WatchEntry> = Vec::new();
        let mut i: usize = 0;
        while i < self.watched.len()
            invariant
                i <= orig.len(),
                self.watched@ == orig,
                forall|c2: Seq<char>, r2: Seq<char>|
                    #[trigger] pair_in(kept@, c2, r2) <==> (pair_in(
                        orig.take(i as int),
                        c2,
                        r2,
                    ) && c2 != canonical@),
                forall|k: int|
                    0 <= k < kept@.len() ==> exists|j: int|
                        0 <= j < i && #[trigger] kept@[k] == orig[j],
                canon_unique(orig) ==> canon_unique(kept@),
            decreases orig.len() - i,
        {
            let keep = !crate::text::str_eq(self.watched[i].canonical.as_str(), canonical);
            if keep {
                proof {
                    if canon_unique(orig) {
                        assert forall|k: int| 0 <= k < kept@.len() implies (
                        #[trigger] kept@[k].canonical)@ != orig[i as int].canonical@ by {
                            let j = choose|j: int| 0 <= j < i && kept@[k] == orig[j];
                            assert(orig[j].canonical@ != orig[i as int].canonical@);
                        }
                    }
                }
                let ghost kept_before: Seq<WatchEntry> = kept@;
                let e = WatchEntry {
                    canonical: self.watched[i].canonical.clone(),
                    rel: self.watched[i].rel.clone(),
                };
                assert(e == orig[i as int]);
                kept.push(e);
                proof {
                    assert(kept@ == kept_before.push(orig[i as int]));
                    assert forall|k: int| 0 <= k < kept@.len() implies exists|j: int|
                        0 <= j < i + 1 && #[trigger] kept@[k] == orig[j] by {
                        if k < kept@.len() - 1 {
                            let j = choose|j: int| 0 <= j < i && kept_before[k] == orig[j];
                            assert(kept@[k] == orig[j]);
                        } else {
                            assert(kept@[k] == orig[i as int]);
                        }
                    }
                    if canon_unique(orig) {
                        assert forall|a: int, b: int| 0 <= a < b < kept@.len() implies (
                        #[trigger] kept@[a].canonical)@ != (#[trigger] kept@[b].canonical)@ by {
                            if b == kept@.len() - 1 {
                                assert(kept@[a] == kept_before[a]);
                                assert(kept_before[a].canonical@ != orig[i as int].canonical@);
                            } else {
                                assert(kept@[a] == kept_before[a] && kept@[b] == kept_before[b]);
                            }
                        }
                    }
                    assert forall|c2: Seq<char>, r2: Seq<char>|
                        #[trigger] pair_in(kept@, c2, r2) <==> (pair_in(
                            orig.take(i + 1 as int),
                            c2,
                            r2,
                        ) && c2 != canonical@) by {
                        lemma_pair_in_take_step(orig, i as int, c2, r2);
                        lemma_pair_in_push(kept_before, orig[i as int], c2, r2);
                    }
                }
            } else {
                proof {
                    assert forall|c2: Seq<char>, r2: Seq<char>|
                        #[trigger] pair_in(kept@, c2, r2) <==> (pair_in(
                            orig.take(i + 1 as int),
                            c2,
                            r2,
                        ) && c2 != canonical@) by {
                        lemma_pair_in_take_step(orig, i as int, c2, r2);
                    }
                }
            }
            i += 1;
        }
        proof {
            assert(orig.take(orig.len() as int) =~= orig);
        }
        self.watched = kept;
    }

    /// Some subscription holds this canonical path.
    fn contains_canonical(&self, canonical: &str) -> (r: bool)
        ensures
            r == has_canon(self.spec_watched(), canonical@),
    {
        let mut i: usize = 0;
        while i < self.watched.len()
            invariant
                i <= self.spec_watched().len(),
                forall|k: int|
                    0 <= k < i ==> (#[trigger] self.spec_watched()[k].canonical)@ != canonical@,
            decreases self.spec_watched().len() - i,
        {
            if crate::text::str_eq(self.watched[i].canonical.as_str(), canonical) {
                return true;
            }
            i += 1;
        }
        false
    }

    /// Commit the outcome of a watch registration. On success the pair is
    /// recorded — re-watching an already-watched path replaces its single
    /// subscription — and the acknowledgement is the reply; on failure
    /// nothing is recorded and the reply reports the failure.
    pub fn commit_watch(&mut self, canonical: &str, rel: &str, registered: bool) -> (reply: String)
        requires
            old(self).inv(),
        ensures
            final(self).inv(),
            registered ==> spec_upsert(
                old(self).spec_watched(),
                final(self).spec_watched(),
                canonical@,
                rel@,
            ) && reply@ == spec_watching_json(rel@),
            !registered ==> final(self).spec_watched() == old(self).spec_watched() && reply@
                == spec_error_event_json("watch failed"@),
    {
        if !registered {
            return error_event_json("watch failed");
        }
        self.remove_canonical(canonical);
        let ghost mid: Seq<WatchEntry> = self.watched@;
        proof {
            assert forall|k: int| 0 <= k < mid.len() implies (#[trigger] mid[k].canonical)@
                != canonical@ by {
                if mid[k].canonical@ == canonical@ {
                    assert(pair_in(mid, canonical@, mid[k].rel@));
                }
            }
        }
        let entry = WatchEntry { canonical: canonical.to_owned(), rel: rel.to_owned() };
        self.watched.push(entry);
        proof {
            let all = self.watched@;
            assert(all[all.len() - 1].canonical@ == canonical@ && all[all.len() - 1].rel@ == rel@);
            assert forall|c2: Seq<char>, r2: Seq<char>| #[trigger]
                pair_in(all, c2, r2) <==> ((c2 == canonical@ && r2 == rel@) || (pair_in(
                old(self).spec_watched(),
                c2,
                r2,
            ) && c2 != canonical@)) by {
                lemma_pair_in_push(mid, all[all.len() - 1], c2, r2);
            }
            assert forall|a: int, b: int| 0 <= a < b < all.len() implies (
            #[trigger] all[a].canonical)@ != (#[trigger] all[b].canonical)@ by {
                if b == all.len() - 1 {
                    assert(all[a] == mid[a]);
                } else {
                    assert(all[a] == mid[a] && all[b] == mid[b]);
                }
            }
        }
        watching_json(rel)
    }

    /// Handle one textual client request: decode it against the grammar
    /// and decide the reply and the watcher action.
    ///
    /// An invalid payload is answered with an error event. A watch
    /// request is refused when the feature is disabled, when the path
    /// does not resolve into the sandbox, or when the platform watcher is
    /// not available; otherwise the caller is told to register the
    /// resolved canonical path, which lies within the root. An unwatch
    /// request that does not resolve is ignored silently; one that does
    /// drops the subscription, tells the caller whether to unregister,
    /// and is acknowledged either way.
    pub fn handle_message(
        &mut self,
        fs: &FsService,
        watch_enabled: bool,
        watcher_available: bool,
        text: &str,
    ) -> (step: WatchStep)
        requires
            old(self).inv(),
            fs.wf(),
        ensures
            final(self).inv(),
            spec_parse_request(text@) is None ==> final(self).spec_watched() == old(
                self,
            ).spec_watched() && (step matches WatchStep::Reply { reply } && reply@
                == spec_error_event_json("invalid payload"@)),
            spec_parse_request(text@) matches Some((kind, p)) ==> kind ==> match step {
                WatchStep::Reply { reply } => final(self).spec_watched() == old(
                    self,
                ).spec_watched() && (reply@ == spec_error_event_json("file watching disabled"@)
                    && !watch_enabled || reply@ == spec_error_event_json("invalid path"@)
                    && watch_enabled || reply@ == spec_error_event_json("watcher unavailable"@)
                    && watch_enabled && !watcher_available),
                WatchStep::Register { canonical, rel } => final(self).spec_watched() == old(
                    self,
                ).spec_watched() && watch_enabled && watcher_available && rel@ == p && is_abs_path(
                    canonical@,
                ) && path_within(canonical@, fs.spec_root()),
                WatchStep::Unregister { .. } => false,
                WatchStep::Silent => false,
            },
            spec_parse_request(text@) matches Some((kind, p)) ==> !kind ==> match step {
                WatchStep::Silent => final(self).spec_watched() == old(self).spec_watched(),
                WatchStep::Reply { reply } => final(self).spec_watched() == old(
                    self,
                ).spec_watched() && reply@ == spec_error_event_json("watcher unavailable"@)
                    && !watcher_available,
                WatchStep::Unregister { canonical, was_watched, reply } => watcher_available
                    && spec_removed(
                    old(self).spec_watched(),
                    final(self).spec_watched(),
                    canonical@,
                ) && was_watched == has_canon(old(self).spec_watched(), canonical@) && reply@
                    == spec_unwatched_json(p) && is_abs_path(canonical@) && path_within(
                    canonical@,
                    fs.spec_root(),
                ),
                WatchStep::Register { .. } => false,
            },
    {
        match parse_watch_request(text) {
            WatchRequest::Invalid => WatchStep::Reply {
                reply: error_event_json("invalid payload"),
            },
            WatchRequest::Watch { path } => {
                if !watch_enabled {
                    return WatchStep::Reply { reply: error_event_json("file watching disabled") };
                }
                match fs.resolve_path(path.as_str()) {
                    Ok(canonical) => {
                        if !watcher_available {
                            return WatchStep::Reply {
                                reply: error_event_json("watcher unavailable"),
                            };
                        }
                        WatchStep::Register { canonical, rel: path }
                    },
                    Err(_) => WatchStep::Reply { reply: error_event_json("invalid path") },
                }
            },
            WatchRequest::Unwatch { path } => {
                match fs.resolve_path(path.as_str()) {
                    Ok(canonical) => {
                        if !watcher_available {
                            return WatchStep::Reply {
                                reply: error_event_json("watcher unavailable"),
                            };
                        }
                        let was_watched = self.contains_canonical(canonical.as_str());
                        self.remove_canonical(canonical.as_str());
                        let reply = unwatched_json(path.as_str());
                        WatchStep::Unregister { canonical, was_watched, reply }
                    },
                    Err(_) => WatchStep::Silent,
                }
            },
        }
    }
}

/// The client text of the unique subscription of `canonical`.
pub open spec fn spec_rel_of(watched: Seq<WatchEntry>, canonical: Seq<char>) -> Seq<char> {
    choose|r: Seq<char>| pair_in(watched, canonical, r)
}

/// The client-visible path reported for a change event at `path`, given
/// the canonical form of `path` where one could be computed: the first
/// success of — the subscription text of the canonical form; the
/// canonical form relative to the root; the subscription text of the
/// path as delivered; the delivered path relative to the root. Nothing
/// when all four fail, and the event is then dropped.
pub open spec fn spec_event_rel(
    watched: Seq<WatchEntry>,
    root: Seq<char>,
    path: Seq<char>,
    canon: Option<Seq<char>>,
) -> Option<Seq<char>> {
    if canon is Some && has_canon(watched, canon->Some_0) {
        Some(spec_rel_of(watched, canon->Some_0))
    } else if canon is Some && spec_to_relative(canon->Some_0, root) is Some {
        spec_to_relative(canon->Some_0, root)
    } else if has_canon(watched, path) {
        Some(spec_rel_of(watched, path))
    } else {
        spec_to_relative(path, root)
    }
}

impl WatchSession {
    /// The subscription text of `canonical`, if subscribed.
    fn rel_for(&self, canonical: &str) -> (r: Option<String>)
        requires
            self.inv(),
        ensures
            match r {
                Some(rel) => has_canon(self.spec_watched(), canonical@) && spec_rel_of(
                    self.spec_watched(),
                    canonical@,
                ) == rel@,
                None => !has_canon(self.spec_watched(), canonical@),
            },
    {
        let mut i: usize = 0;
        while i < self.watched.len()
            invariant
                self.inv(),
                i <= self.spec_watched().len(),
                forall|k: int|
                    0 <= k < i ==> (#[trigger] self.spec_watched()[k].canonical)@ != canonical@,
            decreases self.spec_watched().len() - i,
        {
            if crate::text::str_eq(self.watched[i].canonical.as_str(), canonical) {
                let rel = self.watched[i].rel.clone();
                proof {
                    let w = self.spec_watched();
                    assert(pair_in(w, canonical@, rel@));
                    let rr = spec_rel_of(w, canonical@);
                    assert(pair_in(w, canonical@, rr));
                    let a = choose|a: int|
                        0 <= a < w.len() && (#[trigger] w[a].canonical)@ == canonical@ && w[a].rel@
                            == rel@;
                    let b = choose|b: int|
                        0 <= b < w.len() && (#[trigger] w[b].canonical)@ == canonical@ && w[b].rel@
                            == rr;
                    assert(a == b);
                }
                return Some(rel);
            }
            i += 1;
        }
        None
    }

    /// The client-visible path for one change event, given the canonical
    /// form of the event path where one could be computed: the four
    /// fallbacks of the forwarding order, purely on the texts.
    pub fn lookup_event_rel(
        &self,
        fs: &FsService,
        path: &str,
        canonical: Option<&String>,
    ) -> (r: Option<String>)
        requires
            self.inv(),
        ensures
            ({
                let canon_view = match canonical {
                    Some(c) => Some(c@),
                    None => None::<Seq<char>>,
                };
                match r {
                    Some(rel) => spec_event_rel(self.spec_watched(), fs.spec_root(), path@, canon_view)
                        == Some(rel@),
                    None => spec_event_rel(self.spec_watched(), fs.spec_root(), path@, canon_view)
                        is None,
                }
            }),
    {
        match canonical {
            Some(c) => {
                match self.rel_for(c.as_str()) {
                    Some(rel) => {
                        return Some(rel);
                    },
                    None => {},
                }
                match fs.to_relative(c.as_str()) {
                    Some(rel) => {
                        return Some(rel);
                    },
                    None => {},
                }
            },
            None => {},
        }
        match self.rel_for(path) {
            Some(rel) => {
                return Some(rel);
            },
            None => {},
        }
        fs.to_relative(path)
    }

    /// The client-visible path for one change event as delivered by the
    /// platform watcher: canonicalize the event path, then look it up.
    /// The canonicalization consults the filesystem, so this promises the
    /// fallback order for each outcome the filesystem can give.
    pub fn event_rel_path(&self, fs: &FsService, path: &str) -> (r: Option<String>)
        requires
            self.inv(),
        ensures
            match r {
                Some(rel) => (exists|c: Seq<char>|
                    spec_event_rel(self.spec_watched(), fs.spec_root(), path@, Some(c)) == Some(
                        rel@,
                    )) || spec_event_rel(
                    self.spec_watched(),
                    fs.spec_root(),
                    path@,
                    None,
                ) == Some(rel@),
                None => (exists|c: Seq<char>|
                    spec_event_rel(self.spec_watched(), fs.spec_root(), path@, Some(c)) is None)
                    || spec_event_rel(self.spec_watched(), fs.spec_root(), path@, None) is None,
            },
    {
        match canonicalize_str(path) {
            Ok(c) => {
                let r = self.lookup_event_rel(fs, path, Some(&c));
                proof {
                    let canon_view = Some(c@);
                    if r is Some {
                        assert(spec_event_rel(
                            self.spec_watched(),
                            fs.spec_root(),
                            path@,
                            canon_view,
                        ) == Some(r->Some_0@));
                    }
                }
                r
            },
            Err(_) => self.lookup_event_rel(fs, path, None),
        }
    }
}

/// Membership in a one-longer prefix is membership in the shorter prefix
/// or a match with the newly included subscription.
proof fn lemma_pair_in_take_step(s: Seq<WatchEntry>, i: int, c: Seq<char>, r: Seq<char>)
    requires
        0 <= i < s.len(),
    ensures
        pair_in(s.take(i + 1), c, r) <==> (pair_in(s.take(i), c, r) || (s[i].canonical@ == c
            && s[i].rel@ == r)),
{
    let next = s.take(i + 1);
    if pair_in(next, c, r) {
        let k = choose|k: int|
            0 <= k < next.len() && (#[trigger] next[k].canonical)@ == c && next[k].rel@ == r;
        if k < i {
            assert(s.take(i)[k].canonical@ == c && s.take(i)[k].rel@ == r);
        } else {
            assert(next[k] == s[i]);
        }
    }
    if pair_in(s.take(i), c, r) {
        let k = choose|k: int|
            0 <= k < s.take(i).len() && (#[trigger] s.take(i)[k].canonical)@ == c && s.take(
                i,
            )[k].rel@ == r;
        assert(next[k].canonical@ == c && next[k].rel@ == r);
    }
    if s[i].canonical@ == c && s[i].rel@ == r {
        assert(next[i].canonical@ == c && next[i].rel@ == r);
    }
}

/// Membership after a push is membership before it, or a match with the
/// pushed subscription.
proof fn lemma_pair_in_push(s: Seq<WatchEntry>, e: WatchEntry, c: Seq<char>, r: Seq<char>)
    ensures
        pair_in(s.push(e), c, r) <==> (pair_in(s, c, r) || (e.canonical@ == c && e.rel@
            == r)),
{
    let t = s.push(e);
    if pair_in(t, c, r) {
        let k = choose|k: int|
            0 <= k < t.len() && (#[trigger] t[k].canonical)@ == c && t[k].rel@ == r;
        if k < s.len() {
            assert(s[k].canonical@ == c && s[k].rel@ == r);
        } else {
            assert(t[k] == e);
        }
    }
    if pair_in(s, c, r) {
        let k = choose|k: int|
            0 <= k < s.len() && (#[trigger] s[k].canonical)@ == c && s[k].rel@ == r;
        assert(t[k].canonical@ == c && t[k].rel@ == r);
    }
    if e.canonical@ == c && e.rel@ == r {
        assert(t[s.len() as int].canonical@ == c && t[s.len() as int].rel@ == r);
    }
}

/// The watch-idempotence law: watching the same resolved path twice
/// leaves exactly one effective subscription — the second watch changes
/// the subscriptions not at all (while still being acknowledged, as
/// `commit_watch` promises a `watching` reply on every success) — and the
/// following unwatch cancels it entirely.
pub proof fn lemma_watch_idempotent(
    s0: Seq<WatchEntry>,
    s1: Seq<WatchEntry>,
    s2: Seq<WatchEntry>,
    s3: Seq<WatchEntry>,
    canonical: Seq<char>,
    rel: Seq<char>,
)
    requires
        spec_upsert(s0, s1, canonical, rel),
        spec_upsert(s1, s2, canonical, rel),
        spec_removed(s2, s3, canonical),
    ensures
        forall|c2: Seq<char>, r2: Seq<char>|
            #[trigger] pair_in(s2, c2, r2) <==> pair_in(s1, c2, r2),
        pair_in(s1, canonical, rel),
        forall|r2: Seq<char>| !pair_in(s3, canonical, r2),
{
    assert forall|c2: Seq<char>, r2: Seq<char>| #[trigger]
        pair_in(s2, c2, r2) <==> pair_in(s1, c2, r2) by {
        assert(pair_in(s2, c2, r2) <==> ((c2 == canonical && r2 == rel) || (pair_in(
            s1,
            c2,
            r2,
        ) && c2 != canonical)));
        assert(pair_in(s1, c2, r2) <==> ((c2 == canonical && r2 == rel) || (pair_in(
            s0,
            c2,
            r2,
        ) && c2 != canonical)));
    }
    assert(pair_in(s1, canonical, rel));
    assert forall|r2: Seq<char>| !pair_in(s3, canonical, r2) by {
        assert(pair_in(s3, canonical, r2) <==> (pair_in(s2, canonical, r2) && canonical
            != canonical));
    }
}

} // verus!
