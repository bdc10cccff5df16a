//! Password-gated authentication: the login decision against the
//! configured Argon2 hash, the session cookie texts, and the extraction of
//! the session token from a request's cookie header.

use crate::errors::AppError;
use crate::jsonfmt::push_literal;
use crate::text::{chars_to_string, push_dec_u64, spec_dec_u64, str_to_chars};
use argon2::{Argon2, PasswordHash, PasswordVerifier};
use vstd::prelude::*;
use vstd::string::{StringExecFns, StringSliceAdditionalSpecFns};

verus! {

/// The body of a login request.
pub struct LoginRequest {
    pub password: String,
}

/// The body answering a successful login.
pub struct LoginResponse {
    pub ok: bool,
}

/// The body answering an authentication-status query.
pub struct AuthStatusResponse {
    pub authenticated: bool,
}

/// The body answering a logout.
pub struct LogoutResponse {
    pub ok: bool,
}

/// The hash text is a well-formed PHC string. Names what
/// `PasswordHash::new` accepts; a pure function of the text.
pub uninterp spec fn phc_valid(hash: Seq<char>) -> bool;

/// The password verifies against the PHC hash under Argon2. Names what
/// `Argon2::verify_password` accepts; a pure function of the two inputs.
pub uninterp spec fn argon2_matches(password: Seq<u8>, hash: Seq<char>) -> bool;

/// How one password check ended.
pub enum PasswordCheck {
    /// The password verifies against the hash.
    Match,
    /// The hash parsed but the password does not verify against it.
    Mismatch,
    /// The hash text is not a PHC string.
    InvalidHash,
    /// Verification itself failed (for instance, parameters the
    /// implementation refuses).
    VerifyFailure,
}

/// Relies on `argon2`: `PasswordHash::new` parses the PHC text (a pure
/// function of the text, named `phc_valid`) and `Argon2::verify_password`
/// with default parameters checks the password against it (a pure function
/// of password and hash, named `argon2_matches`; its distinguished
/// password-invalid error marks a mismatch).
#[verifier::external_body]
fn check_password(password: &[u8], hash: &str) -> (r: PasswordCheck)
    ensures
        r is InvalidHash <==> !phc_valid(hash@),
        phc_valid(hash@) ==> ((r is Match) <==> argon2_matches(password@, hash@)),
        r is Mismatch ==> !argon2_matches(password@, hash@),
{
    let parsed = match PasswordHash::new(hash) {
        Ok(p) => p,
        Err(_) => {
            return PasswordCheck::InvalidHash;
        },
    };
    match Argon2::default().verify_password(password, &parsed) {
        Ok(()) => PasswordCheck::Match,
        Err(argon2::password_hash::Error::PasswordInvalid) => PasswordCheck::Mismatch,
        Err(_) => PasswordCheck::VerifyFailure,
    }
}

/// How one login attempt ends.
pub enum LoginOutcome {
    /// The password is right: create a session and set its cookie.
    Success,
    /// The password is wrong: unauthorized, and no cookie is set.
    WrongPassword,
    /// The configured hash is unusable.
    InvalidHash,
    /// Verification itself failed.
    VerifyFailure,
}

/// Decide one login attempt against the configured password hash.
///
/// Success comes exactly when the hash is a well-formed PHC string and
/// the presented password verifies against it; a well-formed hash with a
/// non-verifying password is a wrong password; a malformed hash can never
/// succeed.
pub fn login_decision(stored_hash: &str, password: &str) -> (r: LoginOutcome)
    ensures
        (r is InvalidHash) <==> !phc_valid(stored_hash@),
        phc_valid(stored_hash@) ==> ((r is Success) <==> argon2_matches(
            password.spec_bytes(),
            stored_hash@,
        )),
        r is WrongPassword ==> !argon2_matches(password.spec_bytes(), stored_hash@),
{
    match check_password(password.as_bytes(), stored_hash) {
        PasswordCheck::Match => LoginOutcome::Success,
        PasswordCheck::Mismatch => LoginOutcome::WrongPassword,
        PasswordCheck::InvalidHash => LoginOutcome::InvalidHash,
        PasswordCheck::VerifyFailure => LoginOutcome::VerifyFailure,
    }
}

/// The error a failed login answers with: a wrong password is
/// unauthorized; a malformed hash or a failed verification is an internal
/// error, with the message naming which.
pub fn login_failure_error(outcome: &LoginOutcome) -> (r: Option<AppError>)
    ensures
        outcome is Success <==> r is None,
        outcome is WrongPassword ==> r == Some(AppError::Unauthorized),
        outcome is InvalidHash ==> (r matches Some(e) && e matches AppError::Internal(m) && m@
            == "invalid password hash"@),
        outcome is VerifyFailure ==> (r matches Some(e) && e matches AppError::Internal(m) && m@
            == "password verification failed"@),
{
    match outcome {
        LoginOutcome::Success => None,
        LoginOutcome::WrongPassword => Some(AppError::Unauthorized),
        LoginOutcome::InvalidHash => Some(
            AppError::Internal(String::from_str("invalid password hash")),
        ),
        LoginOutcome::VerifyFailure => Some(
            AppError::Internal(String::from_str("password verification failed")),
        ),
    }
}

/// The cookie set on a successful login: the session token, rooted at the
/// whole site, HTTP-only, strict same-site, expiring with the session.
pub open spec fn spec_session_cookie(id: Seq<char>, ttl_secs: u64) -> Seq<char> {
    "session="@ + id + "; Path=/; HttpOnly; SameSite=Strict; Max-Age="@ + spec_dec_u64(ttl_secs)
}

/// Build the cookie set on a successful login.
pub fn session_cookie(id: &str, ttl_secs: u64) -> (r: String)
    ensures
        r@ == spec_session_cookie(id@, ttl_secs),
{
    let mut out: Vec<char> = Vec::new();
    push_literal(&mut out, "session=");
    push_literal(&mut out, id);
    push_literal(&mut out, "; Path=/; HttpOnly; SameSite=Strict; Max-Age=");
    push_dec_u64(&mut out, ttl_secs);
    chars_to_string(&out)
}

/// Build the cookie that clears the session on logout.
pub fn clear_session_cookie() -> (r: String)
    ensures
        r@ == "session=; Path=/; HttpOnly; SameSite=Strict; Max-Age=0"@,
{
    let mut out: Vec<char> = Vec::new();
    push_literal(&mut out, "session=; Path=/; HttpOnly; SameSite=Strict; Max-Age=0");
    chars_to_string(&out)
}

/// The body `{"ok":true}` of a successful login or logout.
pub fn ok_true_json() -> (r: String)
    ensures
        r@ == "{\"ok\":true}"@,
{
    let mut out: Vec<char> = Vec::new();
    push_literal(&mut out, "{\"ok\":true}");
    chars_to_string(&out)
}

/// The body answering an authentication-status query.
pub fn auth_status_json(authenticated: bool) -> (r: String)
    ensures
        authenticated ==> r@ == "{\"authenticated\":true}"@,
        !authenticated ==> r@ == "{\"authenticated\":false}"@,
{
    let mut out: Vec<char> = Vec::new();
    if authenticated {
        push_literal(&mut out, "{\"authenticated\":true}");
    } else {
        push_literal(&mut out, "{\"authenticated\":false}");
    }
    chars_to_string(&out)
}

/// Cookie-header whitespace: the blank and the horizontal tab.
pub open spec fn is_cookie_ws(c: char) -> bool {
    c == ' ' || c == '\t'
}

/// The text with its leading whitespace dropped.
pub open spec fn spec_trim_start(s: Seq<char>) -> Seq<char>
    decreases s.len(),
{
    if s.len() > 0 && is_cookie_ws(s[0]) {
        spec_trim_start(s.skip(1))
    } else {
        s
    }
}

/// The text with its trailing whitespace dropped.
pub open spec fn spec_trim_end(s: Seq<char>) -> Seq<char>
    decreases s.len(),
{
    if s.len() > 0 && is_cookie_ws(s.last()) {
        spec_trim_end(s.drop_last())
    } else {
        s
    }
}

/// The text with whitespace dropped on both sides.
pub open spec fn spec_trim(s: Seq<char>) -> Seq<char> {
    spec_trim_end(spec_trim_start(s))
}

/// The first position at or after `i` holding `c`, or the length.
pub open spec fn spec_find(s: Seq<char>, i: int, c: char) -> int
    decreases s.len() - i,
{
    if 0 <= i < s.len() {
        if s[i] == c {
            i
        } else {
            spec_find(s, i + 1, c)
        }
    } else {
        s.len() as int
    }
}

/// What one `;`-separated piece of a cookie header names: trimmed, split
/// at its single `=`, the value (trimmed) if the name (trimmed) reads
/// `session`. A piece without an `=`, with more than one, or naming
/// something else yields nothing.
pub open spec fn spec_segment_session(seg: Seq<char>) -> Option<Seq<char>> {
    let t = spec_trim(seg);
    let e = spec_find(t, 0, '=');
    if e == t.len() {
        None
    } else if spec_find(t, e + 1, '=') < t.len() {
        None
    } else if spec_trim(t.take(e)) == "session"@ {
        Some(spec_trim(t.skip(e + 1)))
    } else {
        None
    }
}

/// The session token a cookie header presents: the value of the first
/// `;`-separated piece naming `session`, or nothing.
pub open spec fn spec_cookie_session(s: Seq<char>) -> Option<Seq<char>>
    decreases s.len(),
{
    let k = spec_find(s, 0, ';');
    match spec_segment_session(s.take(k)) {
        Some(v) => Some(v),
        None => {
            if 0 <= k < s.len() {
                spec_cookie_session(s.skip(k + 1))
            } else {
                None
            }
        },
    }
}

/// Finding never leaves the text, and what lies before the hit is not
/// the needle.
proof fn lemma_find_bounds(s: Seq<char>, i: int, c: char)
    requires
        0 <= i <= s.len(),
    ensures
        i <= spec_find(s, i, c) <= s.len(),
        spec_find(s, i, c) < s.len() ==> s[spec_find(s, i, c)] == c,
        forall|j: int| i <= j < spec_find(s, i, c) ==> s[j] != c,
    decreases s.len() - i,
{
    if i < s.len() && s[i] != c {
        lemma_find_bounds(s, i + 1, c);
    }
}

/// The first position at or after `from` holding `c`, or the length.
fn find_char(v: &Vec<char>, from: usize, c: char) -> (r: usize)
    requires
        from <= v@.len(),
    ensures
        r == spec_find(v@, from as int, c),
        from <= r <= v@.len(),
        r < v@.len() ==> v@[r as int] == c,
{
    let mut j = from;
    while j < v.len() && v[j] != c
        invariant
            from <= j <= v@.len(),
            spec_find(v@, from as int, c) == spec_find(v@, j as int, c),
        decreases v@.len() - j,
    {
        j += 1;
    }
    j
}

/// Leading whitespace runs exactly to the first non-whitespace position.
proof fn lemma_trim_start_at(s: Seq<char>, lo: int)
    requires
        0 <= lo <= s.len(),
        forall|j: int| 0 <= j < lo ==> is_cookie_ws(s[j]),
        lo < s.len() ==> !is_cookie_ws(s[lo]),
    ensures
        spec_trim_start(s) == s.skip(lo),
    decreases lo,
{
    if lo == 0 {
        assert(s.skip(0) =~= s);
    } else {
        lemma_trim_start_at(s.skip(1), lo - 1);
        assert(s.skip(1).skip(lo - 1) =~= s.skip(lo));
    }
}

/// Trailing whitespace runs exactly back to the last non-whitespace
/// position.
proof fn lemma_trim_end_at(s: Seq<char>, hi: int)
    requires
        0 <= hi <= s.len(),
        forall|j: int| hi <= j < s.len() ==> is_cookie_ws(s[j]),
        hi > 0 ==> !is_cookie_ws(s[hi - 1]),
    ensures
        spec_trim_end(s) == s.take(hi),
    decreases s.len(),
{
    if hi == s.len() {
        if s.len() > 0 && is_cookie_ws(s.last()) {
            assert(false);
        }
        assert(s.take(hi) =~= s);
    } else {
        lemma_trim_end_at(s.drop_last(), hi);
        assert(s.drop_last().take(hi) =~= s.take(hi));
    }
}

/// Trim cookie whitespace from both sides.
fn trim_chars(v: &Vec<char>) -> (r: Vec<char>)
    ensures
        r@ == spec_trim(v@),
{
    let mut lo: usize = 0;
    while lo < v.len() && (v[lo] == ' ' || v[lo] == '\t')
        invariant
            lo <= v@.len(),
            forall|j: int| 0 <= j < lo ==> is_cookie_ws(v@[j]),
        decreases v@.len() - lo,
    {
        lo += 1;
    }
    let mut hi: usize = v.len();
    while hi > lo && (v[hi - 1] == ' ' || v[hi - 1] == '\t')
        invariant
            lo <= hi <= v@.len(),
            forall|j: int| 0 <= j < lo ==> is_cookie_ws(v@[j]),
            forall|j: int| hi <= j < v@.len() ==> is_cookie_ws(v@[j]),
        decreases hi,
    {
        hi -= 1;
    }
    let mut out: Vec<char> = Vec::new();
    let mut i = lo;
    while i < hi
        invariant
            lo <= i <= hi <= v@.len(),
            out@ == v@.subrange(lo as int, i as int),
        decreases hi - i,
    {
        out.push(v[i]);
        proof {
            assert(v@.subrange(lo as int, i + 1 as int) =~= v@.subrange(lo as int, i as int).push(
                v@[i as int],
            ));
        }
        i += 1;
    }
    proof {
        lemma_trim_start_at(v@, lo as int);
        let mid = v@.skip(lo as int);
        assert forall|j: int| hi as int - lo as int <= j < mid.len() implies is_cookie_ws(
            mid[j],
        ) by {
            assert(mid[j] == v@[lo + j]);
        }
        if hi > lo {
            assert(mid[hi as int - lo as int - 1] == v@[hi as int - 1]);
        }
        lemma_trim_end_at(mid, hi as int - lo as int);
        assert(mid.take(hi as int - lo as int) =~= v@.subrange(lo as int, hi as int));
    }
    out
}

/// Evaluate one `;`-separated piece of a cookie header.
fn segment_session(seg: &Vec<char>) -> (r: Option<Vec<char>>)
    ensures
        match r {
            Some(value) => spec_segment_session(seg@) == Some(value@),
            None => spec_segment_session(seg@) is None,
        },
{
    let t = trim_chars(seg);
    let e = find_char(&t, 0, '=');
    if e == t.len() {
        return None;
    }
    let e2 = find_char(&t, e + 1, '=');
    if e2 < t.len() {
        return None;
    }
    let mut name: Vec<char> = Vec::new();
    let mut i: usize = 0;
    while i < e
        invariant
            i <= e <= t@.len(),
            name@ == t@.take(e as int).take(i as int),
        decreases e - i,
    {
        name.push(t[i]);
        proof {
            assert(t@.take(e as int).take(i + 1 as int) =~= t@.take(e as int).take(i as int).push(
                t@[i as int],
            ));
        }
        i += 1;
    }
    proof {
        assert(t@.take(e as int).take(e as int) =~= t@.take(e as int));
    }
    let name_t = trim_chars(&name);
    let is_session = crate::text::str_eq(chars_to_string(&name_t).as_str(), "session");
    if !is_session {
        return None;
    }
    let mut value: Vec<char> = Vec::new();
    let mut j = e + 1;
    while j < t.len()
        invariant
            e + 1 <= j <= t@.len(),
            value@ == t@.subrange(e + 1 as int, j as int),
        decreases t@.len() - j,
    {
        value.push(t[j]);
        proof {
            assert(t@.subrange(e + 1 as int, j + 1 as int) =~= t@.subrange(
                e + 1 as int,
                j as int,
            ).push(t@[j as int]));
        }
        j += 1;
    }
    proof {
        assert(t@.subrange(e + 1 as int, t@.len() as int) =~= t@.skip(e + 1 as int));
    }
    Some(trim_chars(&value))
}

/// The session token presented by a request's cookie header, if any: the
/// value of the first `;`-separated cookie named `session` whose piece
/// holds exactly one `=`, with names and values trimmed.
pub fn session_id_from_cookie_header(header: &str) -> (r: Option<String>)
    ensures
        match r {
            Some(id) => spec_cookie_session(header@) == Some(id@),
            None => spec_cookie_session(header@) is None,
        },
{
    let v = str_to_chars(header);
    proof {
        assert(v@.skip(0) =~= v@);
    }
    let mut pos: usize = 0;
    loop
        invariant
            pos <= v@.len(),
            v@ == header@,
            spec_cookie_session(v@) == spec_cookie_session(v@.skip(pos as int)),
        decreases v@.len() - pos,
    {
        let k = find_char(&v, pos, ';');
        let mut seg: Vec<char> = Vec::new();
        let mut i = pos;
        while i < k
            invariant
                pos <= i <= k <= v@.len(),
                seg@ == v@.subrange(pos as int, i as int),
            decreases k - i,
        {
            seg.push(v[i]);
            proof {
                assert(v@.subrange(pos as int, i + 1 as int) =~= v@.subrange(
                    pos as int,
                    i as int,
                ).push(v@[i as int]));
            }
            i += 1;
        }
        proof {
            let rest = v@.skip(pos as int);
            lemma_find_skip(v@, pos as int, ';');
            assert(rest.take(spec_find(rest, 0, ';')) =~= v@.subrange(pos as int, k as int));
        }
        match segment_session(&seg) {
            Some(value) => {
                proof {
                    let rest = v@.skip(pos as int);
                    let k0 = spec_find(rest, 0, ';');
                    assert(rest.take(k0) == seg@);
                    assert(spec_segment_session(rest.take(k0)) == Some(value@));
                    assert(spec_cookie_session(rest) == Some(value@));
                }
                return Some(chars_to_string(&value));
            },
            None => {},
        }
        if k == v.len() {
            proof {
                let rest = v@.skip(pos as int);
                let k0 = spec_find(rest, 0, ';');
                assert(k0 == rest.len());
                assert(rest.take(k0) == seg@);
                assert(spec_segment_session(rest.take(k0)) is None);
                assert(spec_cookie_session(rest) is None);
            }
            return None;
        }
        proof {
            let rest = v@.skip(pos as int);
            let k0 = spec_find(rest, 0, ';');
            assert(rest.take(k0) == seg@);
            assert(spec_segment_session(rest.take(k0)) is None);
            assert(0 <= k0 < rest.len());
            assert(rest.skip(k0 + 1) =~= v@.skip(k as int + 1));
            assert(spec_cookie_session(rest) == spec_cookie_session(v@.skip(k as int + 1)));
        }
        pos = k + 1;
    }
}

/// Finding in a suffix mirrors finding from the cut point.
proof fn lemma_find_skip(s: Seq<char>, pos: int, c: char)
    requires
        0 <= pos <= s.len(),
    ensures
        spec_find(s.skip(pos), 0, c) == spec_find(s, pos, c) - pos,
{
    lemma_find_bounds(s, pos, c);
    let k = spec_find(s, pos, c);
    let rest = s.skip(pos);
    assert forall|j: int| 0 <= j < k - pos implies rest[j] != c by {
        assert(rest[j] == s[pos + j]);
    }
    if k < s.len() {
        assert(rest[k - pos] == c);
        lemma_find_hit(rest, 0, k - pos, c);
    } else {
        lemma_find_miss(rest, 0, c);
    }
}

/// If everything before `h` misses and `h` hits, the find lands on `h`.
proof fn lemma_find_hit(s: Seq<char>, i: int, h: int, c: char)
    requires
        0 <= i <= h < s.len(),
        s[h] == c,
        forall|j: int| i <= j < h ==> s[j] != c,
    ensures
        spec_find(s, i, c) == h,
    decreases h - i,
{
    if i < h {
        lemma_find_hit(s, i + 1, h, c);
    }
}

/// If everything from `i` on misses, the find lands on the length.
proof fn lemma_find_miss(s: Seq<char>, i: int, c: char)
    requires
        0 <= i <= s.len(),
        forall|j: int| i <= j < s.len() ==> s[j] != c,
    ensures
        spec_find(s, i, c) == s.len(),
    decreases s.len() - i,
{
    if i < s.len() {
        lemma_find_miss(s, i + 1, c);
    }
}

} // verus!
