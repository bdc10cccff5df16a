//! The in-memory session store: a map from session-id text to an expiry
//! time, swept on each validation so that an expired token never validates.
//!
//! Time is a plain count of seconds supplied by the caller, so the store's
//! behaviour is verified for every clock value.

use crate::text::{chars_to_string, hex_chars, is_hex_char, lemma_hex_chars_are_hex, str_eq};
use vstd::prelude::*;

verus! {

/// One live session: the token text and the second at which it expires.
pub struct SessionEntry {
    pub id: String,
    pub expires_at: u64,
}

/// No two entries carry the same token.
pub open spec fn ids_unique(entries: Seq<SessionEntry>) -> bool {
    forall|i: int, j: int|
        0 <= i < j < entries.len() ==> (#[trigger] entries[i].id)@ != (#[trigger] entries[j].id)@
}

/// Some entry carries exactly this token and this expiry.
pub open spec fn entry_in(entries: Seq<SessionEntry>, id: Seq<char>, expires_at: u64) -> bool {
    exists|i: int|
        0 <= i < entries.len() && (#[trigger] entries[i].id)@ == id && entries[i].expires_at
            == expires_at
}

/// Some entry carries this token and has not yet expired at `now`.
pub open spec fn has_live(entries: Seq<SessionEntry>, id: Seq<char>, now: u64) -> bool {
    exists|i: int|
        0 <= i < entries.len() && (#[trigger] entries[i].id)@ == id && entries[i].expires_at > now
}

/// `a * b`, clamped to the largest representable value.
pub open spec fn sat_mul(a: u64, b: u64) -> u64 {
    if a * b > u64::MAX {
        u64::MAX
    } else {
        (a * b) as u64
    }
}

/// The session store: entries with unique tokens, and the lifetime granted
/// to a fresh session, in seconds.
pub struct SessionStore {
    entries: Vec<SessionEntry>,
    ttl_secs: u64,
}

/// Relies on `uuid::Uuid::new_v4`: a fresh random UUID is sixteen bytes.
/// The value is random, so nothing is assumed beyond the length.
#[verifier::external_body]
fn fresh_token_bytes() -> (r: Vec<u8>)
    ensures
        r@.len() == 16,
{
    uuid::Uuid::new_v4().as_bytes().to_vec()
}

impl SessionStore {
    /// The entries currently held.
    pub closed spec fn spec_entries(&self) -> Seq<SessionEntry> {
        self.entries@
    }

    /// The lifetime granted to a fresh session, in seconds.
    pub closed spec fn spec_ttl_secs(&self) -> u64 {
        self.ttl_secs
    }

    /// Tokens are unique.
    pub open spec fn wf(&self) -> bool {
        ids_unique(self.spec_entries())
    }

    /// An empty store granting `ttl_minutes` of life to each session, with
    /// the conversion to seconds saturating rather than overflowing.
    pub fn new(ttl_minutes: u64) -> (r: SessionStore)
        ensures
            r.wf(),
            r.spec_entries().len() == 0,
            r.spec_ttl_secs() == sat_mul(ttl_minutes, 60),
    {
        let ttl_secs: u64 = if ttl_minutes > u64::MAX / 60 {
            u64::MAX
        } else {
            ttl_minutes * 60
        };
        assert(ttl_secs == sat_mul(ttl_minutes, 60)) by {
            if ttl_minutes > u64::MAX / 60 {
                assert(ttl_minutes * 60 > u64::MAX) by (nonlinear_arith)
                    requires
                        ttl_minutes > u64::MAX / 60,
                ;
            }
        }
        SessionStore { entries: Vec::new(), ttl_secs }
    }

    /// Keep exactly the entries that `keep_id` (token differs from `id`)
    /// or `keep_live` (expiry after `now`) admits; used by removal and by
    /// the expiry sweep. Tokens stay unique and keep their expiry.
    fn retain_entries(&mut self, by_id: bool, id: &str, now: u64)
        ensures
            forall|id2: Seq<char>, exp: u64|
                #[trigger] entry_in(final(self).spec_entries(), id2, exp) <==> (entry_in(
                    old(self).spec_entries(),
                    id2,
                    exp,
                ) && (if by_id {
                    id2 != id@
                } else {
                    exp > now
                })),
            old(self).wf() ==> final(self).wf(),
            final(self).spec_ttl_secs() == old(self).spec_ttl_secs(),
    {
        let ghost orig: Seq<SessionEntry> = self.entries@;
        let mut kept: Vec<SessionEntry> = Vec::new();
        let mut i: usize = 0;
        while i < self.entries.len()
            invariant
                i <= orig.len(),
                self.entries@ == orig,
                forall|id2: Seq<char>, exp: u64|
                    #[trigger] entry_in(kept@, id2, exp) <==> (entry_in(
                        orig.take(i as int),
                        id2,
                        exp,
                    ) && (if by_id {
                        id2 != id@
                    } else {
                        exp > now
                    })),
                forall|k: int|
                    0 <= k < kept@.len() ==> exists|j: int|
                        0 <= j < i && #[trigger] kept@[k] == orig[j],
                ids_unique(orig) ==> ids_unique(kept@),
            decreases orig.len() - i,
        {
            let keep = if by_id {
                !str_eq(self.entries[i].id.as_str(), id)
            } else {
                self.entries[i].expires_at > now
            };
            if keep {
                proof {
                    if ids_unique(orig) {
                        assert forall|k: int| 0 <= k < kept@.len() implies (#[trigger] kept@[k].id)@
                            != orig[i as int].id@ by {
                            let j = choose|j: int| 0 <= j < i && kept@[k] == orig[j];
                            assert(orig[j].id@ != orig[i as int].id@);
                        }
                    }
                }
                let ghost kept_before: Seq<SessionEntry> = kept@;
                let e = SessionEntry {
                    id: self.entries[i].id.clone(),
                    expires_at: self.entries[i].expires_at,
                };
                assert(e == orig[i as int]);
                kept.push(e);
                proof {
                    assert(kept@ == kept_before.push(orig[i as int]));
                    assert forall|k: int| 0 <= k < kept@.len() implies exists|j: int|
                        0 <= j < i + 1 && #[trigger] kept@[k] == orig[j] by {
                        if k < kept@.len() - 1 {
                            let j = choose|j: int| 0 <= j < i && kept_before[k] == orig[j];
                            assert(kept@[k] == orig[j]);
                        } else {
                            assert(kept@[k] == orig[i as int]);
                        }
                    }
                    if ids_unique(orig) {
                        assert forall|a: int, b: int| 0 <= a < b < kept@.len() implies (
                        #[trigger] kept@[a].id)@ != (#[trigger] kept@[b].id)@ by {
                            if b == kept@.len() - 1 {
                                assert(kept@[a] == kept_before[a]);
                                assert(kept_before[a].id@ != orig[i as int].id@);
                            } else {
                                assert(kept@[a] == kept_before[a] && kept@[b] == kept_before[b]);
                            }
                        }
                    }
                    assert forall|id2: Seq<char>, exp: u64|
                        #[trigger] entry_in(kept@, id2, exp) <==> (entry_in(
                            orig.take(i + 1 as int),
                            id2,
                            exp,
                        ) && (if by_id {
                            id2 != id@
                        } else {
                            exp > now
                        })) by {
                        lemma_entry_in_take_step(orig, i as int, id2, exp);
                        lemma_entry_in_push(kept_before, orig[i as int], id2, exp);
                    }
                }
            } else {
                proof {
                    assert forall|id2: Seq<char>, exp: u64|
                        #[trigger] entry_in(kept@, id2, exp) <==> (entry_in(
                            orig.take(i + 1 as int),
                            id2,
                            exp,
                        ) && (if by_id {
                            id2 != id@
                        } else {
                            exp > now
                        })) by {
                        lemma_entry_in_take_step(orig, i as int, id2, exp);
                    }
                }
            }
            i += 1;
        }
        proof {
            assert(orig.take(orig.len() as int) =~= orig);
        }
        self.entries = kept;
    }

    /// Some entry carries this token.
    fn contains_id(&self, id: &str) -> (r: bool)
        ensures
            r == exists|k: int|
                0 <= k < self.spec_entries().len() && (#[trigger] self.spec_entries()[k].id)@
                    == id@,
    {
        let mut i: usize = 0;
        while i < self.entries.len()
            invariant
                i <= self.spec_entries().len(),
                forall|k: int| 0 <= k < i ==> (#[trigger] self.spec_entries()[k].id)@ != id@,
            decreases self.spec_entries().len() - i,
        {
            if str_eq(self.entries[i].id.as_str(), id) {
                return true;
            }
            i += 1;
        }
        false
    }

    /// Create a fresh session at time `now`: a random 128-bit token
    /// rendered as 32 lowercase hexadecimal characters, stored with expiry
    /// `now` plus the configured lifetime (saturating). Any stale entry
    /// under the same token is replaced; every other session is untouched.
    pub fn create_session(&mut self, now: u64) -> (r: String)
        requires
            old(self).wf(),
        ensures
            final(self).wf(),
            r@.len() == 32,
            forall|i: int| 0 <= i < r@.len() ==> is_hex_char(#[trigger] r@[i]),
            entry_in(
                final(self).spec_entries(),
                r@,
                now.saturating_add(old(self).spec_ttl_secs()),
            ),
            forall|id2: Seq<char>, exp: u64|
                id2 != r@ ==> (#[trigger] entry_in(final(self).spec_entries(), id2, exp)
                    <==> entry_in(old(self).spec_entries(), id2, exp)),
            final(self).spec_ttl_secs() == old(self).spec_ttl_secs(),
    {
        let token = fresh_token_bytes();
        let id_chars = hex_chars(token.as_slice());
        proof {
            lemma_hex_chars_are_hex(token@);
        }
        let id = chars_to_string(&id_chars);
        let expires_at = now.saturating_add(self.ttl_secs);
        self.retain_entries(true, id.as_str(), 0);
        let ghost mid: Seq<SessionEntry> = self.entries@;
        proof {
            assert forall|k: int| 0 <= k < mid.len() implies (#[trigger] mid[k].id)@ != id@ by {
                if mid[k].id@ == id@ {
                    assert(entry_in(mid, id@, mid[k].expires_at));
                }
            }
        }
        let entry = SessionEntry { id: id.clone(), expires_at };
        self.entries.push(entry);
        proof {
            let all = self.entries@;
            assert(all == mid.push(SessionEntry { id: id, expires_at }));
            assert(all[all.len() - 1].id@ == id@ && all[all.len() - 1].expires_at == expires_at);
            assert(entry_in(all, id@, expires_at));
            assert forall|id2: Seq<char>, exp: u64| id2 != id@ implies (#[trigger] entry_in(
                all,
                id2,
                exp,
            ) <==> entry_in(old(self).spec_entries(), id2, exp)) by {
                lemma_entry_in_push(mid, all[all.len() - 1], id2, exp);
            }
            assert(ids_unique(all)) by {
                assert forall|a: int, b: int| 0 <= a < b < all.len() implies (#[trigger] all[a].id)@
                    != (#[trigger] all[b].id)@ by {
                    if b == all.len() - 1 {
                        assert(all[a] == mid[a]);
                    } else {
                        assert(all[a] == mid[a] && all[b] == mid[b]);
                    }
                }
            }
        }
        id
    }

    /// Validate a presented token at time `now`: sweep every expired
    /// session out, then report whether the token is still present. True
    /// comes back exactly when a session with this token was held with an
    /// expiry strictly after `now`.
    pub fn validate(&mut self, id: &str, now: u64) -> (r: bool)
        requires
            old(self).wf(),
        ensures
            r == has_live(old(self).spec_entries(), id@, now),
            final(self).wf(),
            forall|id2: Seq<char>, exp: u64|
                #[trigger] entry_in(final(self).spec_entries(), id2, exp) <==> (entry_in(
                    old(self).spec_entries(),
                    id2,
                    exp,
                ) && exp > now),
            final(self).spec_ttl_secs() == old(self).spec_ttl_secs(),
    {
        self.retain_entries(false, "", now);
        let r = self.contains_id(id);
        proof {
            let pruned = self.entries@;
            let before = old(self).spec_entries();
            if r {
                let k = choose|k: int|
                    0 <= k < pruned.len() && (#[trigger] pruned[k].id)@ == id@;
                assert(entry_in(pruned, id@, pruned[k].expires_at));
                assert(entry_in(before, id@, pruned[k].expires_at) && pruned[k].expires_at > now);
                let j = choose|j: int|
                    0 <= j < before.len() && (#[trigger] before[j].id)@ == id@ && before[j].expires_at
                        == pruned[k].expires_at;
                assert(has_live(before, id@, now));
            }
            if has_live(before, id@, now) {
                let j = choose|j: int|
                    0 <= j < before.len() && (#[trigger] before[j].id)@ == id@
                        && before[j].expires_at > now;
                assert(entry_in(before, id@, before[j].expires_at));
                assert(entry_in(pruned, id@, before[j].expires_at));
                let k = choose|k: int|
                    0 <= k < pruned.len() && (#[trigger] pruned[k].id)@ == id@ && pruned[k].expires_at
                        == before[j].expires_at;
                assert(r);
            }
        }
        r
    }

    /// Remove the session with this token, if present; every other
    /// session is untouched.
    pub fn remove(&mut self, id: &str)
        requires
            old(self).wf(),
        ensures
            final(self).wf(),
            forall|id2: Seq<char>, exp: u64|
                #[trigger] entry_in(final(self).spec_entries(), id2, exp) <==> (entry_in(
                    old(self).spec_entries(),
                    id2,
                    exp,
                ) && id2 != id@),
            final(self).spec_ttl_secs() == old(self).spec_ttl_secs(),
    {
        self.retain_entries(true, id, 0);
    }
}

/// Membership after a push is membership before it, or equality with the
/// pushed entry.
proof fn lemma_entry_in_push(s: Seq<SessionEntry>, e: SessionEntry, id: Seq<char>, exp: u64)
    ensures
        entry_in(s.push(e), id, exp) <==> (entry_in(s, id, exp) || (e.id@ == id && e.expires_at
            == exp)),
{
    let t = s.push(e);
    if entry_in(t, id, exp) {
        let k = choose|k: int|
            0 <= k < t.len() && (#[trigger] t[k].id)@ == id && t[k].expires_at == exp;
        if k < s.len() {
            assert(s[k].id@ == id && s[k].expires_at == exp);
        } else {
            assert(t[k] == e);
        }
    }
    if entry_in(s, id, exp) {
        let k = choose|k: int|
            0 <= k < s.len() && (#[trigger] s[k].id)@ == id && s[k].expires_at == exp;
        assert(t[k].id@ == id && t[k].expires_at == exp);
    }
    if e.id@ == id && e.expires_at == exp {
        assert(t[s.len() as int].id@ == id && t[s.len() as int].expires_at == exp);
    }
}

/// The session-lifetime law: for a token stored at creation time `t0`
/// with lifetime `ttl` (so expiring at their saturating sum), and tokens
/// unique in the store, validation at time `now` finds the token live
/// exactly when `now` is strictly before the expiry — so it succeeds for
/// every call strictly before `t0 + ttl` and fails for every call at or
/// strictly after it.
pub proof fn lemma_session_ttl(
    entries: Seq<SessionEntry>,
    id: Seq<char>,
    t0: u64,
    ttl: u64,
    now: u64,
)
    requires
        ids_unique(entries),
        entry_in(entries, id, t0.saturating_add(ttl)),
    ensures
        has_live(entries, id, now) <==> now < t0.saturating_add(ttl),
{
    let exp = t0.saturating_add(ttl);
    let j = choose|j: int|
        0 <= j < entries.len() && (#[trigger] entries[j].id)@ == id && entries[j].expires_at
            == exp;
    if has_live(entries, id, now) {
        let k = choose|k: int|
            0 <= k < entries.len() && (#[trigger] entries[k].id)@ == id && entries[k].expires_at
                > now;
        assert(k == j);
    }
    if now < exp {
        assert(entries[j].expires_at > now);
    }
}

/// Membership in a one-longer prefix is membership in the shorter prefix
/// or equality with the newly included entry.
proof fn lemma_entry_in_take_step(s: Seq<SessionEntry>, i: int, id: Seq<char>, exp: u64)
    requires
        0 <= i < s.len(),
    ensures
        entry_in(s.take(i + 1), id, exp) <==> (entry_in(s.take(i), id, exp) || (s[i].id@ == id
            && s[i].expires_at == exp)),
{
    let next = s.take(i + 1);
    if entry_in(next, id, exp) {
        let k = choose|k: int|
            0 <= k < next.len() && (#[trigger] next[k].id)@ == id && next[k].expires_at == exp;
        if k < i {
            assert(s.take(i)[k].id@ == id && s.take(i)[k].expires_at == exp);
        } else {
            assert(next[k] == s[i]);
        }
    }
    if entry_in(s.take(i), id, exp) {
        let k = choose|k: int|
            0 <= k < s.take(i).len() && (#[trigger] s.take(i)[k].id)@ == id && s.take(
                i,
            )[k].expires_at == exp;
        assert(next[k].id@ == id && next[k].expires_at == exp);
    }
    if s[i].id@ == id && s[i].expires_at == exp {
        assert(next[i].id@ == id && next[i].expires_at == exp);
    }
}

} // verus!
