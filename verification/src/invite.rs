//! The invite redemption engine: bounded-lifetime, bounded-use invite codes
//! redeemed into server memberships. The uses counter only grows, never passes
//! its cap, and the check-and-increment is one verified operation together
//! with the membership grant, so no interleaving of callers can redeem a code
//! more often than its cap allows.

use vstd::prelude::*;
use crate::ChatError;
use crate::ambient::random_below;
use crate::gate::AccessGate;
use crate::requests::CreateInviteRequest;
use crate::strutil::{push_char, str_eq};
use vstd::string::StrSliceExecFns;

verus! {

/// An invite code's record. `uses` only ever increases; when `max_uses` is
/// set, `uses` never exceeds it.
pub struct Invite {
    pub code: String,
    pub server_id: u128,
    pub inviter_id: u128,
    pub max_uses: Option<u64>,
    pub uses: u64,
    pub expires_at: Option<u64>,
    pub created_at: u64,
}

#[verifier::ext_equal]
pub ghost struct InviteView {
    pub code: Seq<char>,
    pub server_id: u128,
    pub inviter_id: u128,
    pub max_uses: Option<u64>,
    pub uses: u64,
    pub expires_at: Option<u64>,
    pub created_at: u64,
}

impl View for Invite {
    type V = InviteView;

    open spec fn view(&self) -> InviteView {
        (InviteView {
            code: self.code@,
            server_id: self.server_id,
            inviter_id: self.inviter_id,
            max_uses: self.max_uses,
            uses: self.uses,
            expires_at: self.expires_at,
            created_at: self.created_at,
        })
    }
}

impl Clone for Invite {
    fn clone(&self) -> (res: Self)
        ensures
            res@ == self@,
    {
        Invite {
            code: self.code.clone(),
            server_id: self.server_id,
            inviter_id: self.inviter_id,
            max_uses: self.max_uses,
            uses: self.uses,
            expires_at: self.expires_at,
            created_at: self.created_at,
        }
    }
}

impl DeepView for Invite {
    type V = InviteView;

    open spec fn deep_view(&self) -> InviteView {
        self.view()
    }
}

/// A code character: ASCII letter or digit.
pub open spec fn is_alnum(c: char) -> bool {
    ('A' <= c && c <= 'Z') || ('a' <= c && c <= 'z') || ('0' <= c && c <= '9')
}

/// An invite is past its expiry time; an invite without one never expires.
pub open spec fn is_expired(inv: InviteView, now: u64) -> bool {
    match inv.expires_at {
        Some(e) => now > e,
        None => false,
    }
}

/// An invite's use cap is reached; an invite without one never exhausts.
pub open spec fn is_exhausted(inv: InviteView) -> bool {
    match inv.max_uses {
        Some(m) => inv.uses >= m,
        None => false,
    }
}

/// A redemption attempt at time `now` succeeds exactly when the invite is
/// neither expired nor exhausted. Expired and Exhausted are absorbing: a
/// failed attempt changes nothing, so no later attempt can succeed either
/// unless time went backward.
pub open spec fn redeem_allowed(inv: InviteView, now: u64) -> bool {
    !is_expired(inv, now) && !is_exhausted(inv)
}

/// The uses counter after one successful redemption: one more, saturating at
/// the machine maximum so the counter never wraps and only increases.
pub open spec fn inc_uses(u: u64) -> u64 {
    if u < u64::MAX {
        (u + 1) as u64
    } else {
        u
    }
}

/// The invite after one redemption attempt at time `now`: the counter grows
/// exactly on success; a failed attempt is a no-op.
pub open spec fn after_redeem(inv: InviteView, now: u64) -> InviteView {
    if redeem_allowed(inv, now) {
        (InviteView { uses: inc_uses(inv.uses), ..inv })
    } else {
        inv
    }
}

/// The invite after a sequence of redemption attempts at the given times.
pub open spec fn run_attempts(inv: InviteView, times: Seq<u64>) -> InviteView
    decreases times.len(),
{
    if times.len() == 0 {
        inv
    } else {
        run_attempts(after_redeem(inv, times[0]), times.skip(1))
    }
}

/// How many of the attempts succeed.
pub open spec fn successes(inv: InviteView, times: Seq<u64>) -> nat
    decreases times.len(),
{
    if times.len() == 0 {
        0
    } else {
        (if redeem_allowed(inv, times[0]) {
            1nat
        } else {
            0nat
        }) + successes(after_redeem(inv, times[0]), times.skip(1))
    }
}

/// The bounded-use guarantee: for an invite with cap `n`, any number of
/// redemption attempts, concurrent or sequential and in any interleaving of
/// the atomic conditional writes, yields at most `n - uses` further successes;
/// and when at least that many attempts arrive before the expiry time, exactly
/// `n - uses` of them succeed and every other attempt fails.
pub proof fn lemma_invite_bound(inv: InviteView, times: Seq<u64>, n: u64)
    requires
        inv.max_uses == Some(n),
        inv.uses <= n,
    ensures
        successes(inv, times) <= n - inv.uses,
        run_attempts(inv, times).uses == inv.uses + successes(inv, times),
        (forall|i: int| 0 <= i < times.len() ==> !is_expired(inv, #[trigger] times[i]))
            && times.len() >= n - inv.uses ==> successes(inv, times) == n - inv.uses,
    decreases times.len(),
{
    if times.len() > 0 {
        let inv1 = after_redeem(inv, times[0]);
        let rest = times.skip(1);
        assert(inv1.max_uses == Some(n));
        assert(inv1.expires_at == inv.expires_at);
        if redeem_allowed(inv, times[0]) {
            assert(inv.uses < n);
            assert(inv1.uses == inv.uses + 1);
        }
        lemma_invite_bound(inv1, rest, n);
        assert forall|i: int|
            0 <= i < rest.len() implies #[trigger] rest[i] == times[i + 1] by {}
        if (forall|i: int| 0 <= i < times.len() ==> !is_expired(inv, #[trigger] times[i]))
            && times.len() >= n - inv.uses {
            if n - inv.uses > 0 {
                assert(!is_expired(inv, times[0]));
                assert(redeem_allowed(inv, times[0]));
                assert forall|i: int| 0 <= i < rest.len() implies !is_expired(
                    inv1,
                    #[trigger] rest[i],
                ) by {
                    assert(rest[i] == times[i + 1]);
                    assert(!is_expired(inv, times[i + 1]));
                }
            } else {
                assert(is_exhausted(inv));
                assert(successes(inv, times) == successes(inv1, rest));
            }
        }
    }
}

/// Registry of issued invites, keyed by their unique codes.
pub struct InviteRegistry {
    pub invites: Vec<Invite>,
}

impl View for InviteRegistry {
    type V = Seq<InviteView>;

    open spec fn view(&self) -> Seq<InviteView> {
        self.invites.deep_view()
    }
}

/// Whether an invite with the given code exists.
pub open spec fn has_code(s: Seq<InviteView>, code: Seq<char>) -> bool {
    exists|i: int| 0 <= i < s.len() && (#[trigger] s[i]).code == code
}

/// First index of the invite with the given code; meaningful only when the
/// code is present.
pub open spec fn code_index(s: Seq<InviteView>, code: Seq<char>) -> int
    decreases s.len(),
{
    if s.len() == 0 {
        0
    } else if s[0].code == code {
        0
    } else {
        1 + code_index(s.skip(1), code)
    }
}

/// Well-formedness of the registry: codes are unique, eight characters long
/// and alphanumeric, and no counter passes its cap.
pub open spec fn registry_wf(s: Seq<InviteView>) -> bool {
    &&& forall|i: int, j: int|
        0 <= i < j < s.len() ==> (#[trigger] s[i]).code != (#[trigger] s[j]).code
    &&& forall|i: int|
        0 <= i < s.len() ==> ((#[trigger] s[i]).code.len() == 8 && (forall|w: int|
            0 <= w < s[i].code.len() ==> is_alnum(#[trigger] s[i].code[w])))
    &&& forall|i: int|
        0 <= i < s.len() ==> ((#[trigger] s[i]).max_uses matches Some(m) ==> s[i].uses <= m)
}

/// The character a code index names: the twenty-six uppercase letters, the
/// twenty-six lowercase letters and the ten digits, in that order.
fn code_char(idx: usize) -> (c: char)
    requires
        idx < 62,
    ensures
        is_alnum(c),
        idx < 26 ==> c as u32 == 65 + idx,
        26 <= idx < 52 ==> c as u32 == 97 + (idx - 26),
        52 <= idx ==> c as u32 == 48 + (idx - 52),
{
    if idx < 26 {
        ((65 + idx) as u8) as char
    } else if idx < 52 {
        ((97 + (idx - 26)) as u8) as char
    } else {
        ((48 + (idx - 52)) as u8) as char
    }
}

/// Draws a fresh eight-character alphanumeric code from the machine's
/// entropy. Nothing ties the result to earlier draws: two draws may collide.
fn generate_code() -> (r: String)
    ensures
        r@.len() == 8,
        forall|w: int| 0 <= w < r@.len() ==> is_alnum(#[trigger] r@[w]),
{
    let mut s = String::new();
    let mut k: usize = 0;
    while k < 8
        invariant
            k <= 8,
            s@.len() == k,
            forall|w: int| 0 <= w < s@.len() ==> is_alnum(#[trigger] s@[w]),
        decreases 8 - k,
    {
        let idx = random_below(62);
        let c = code_char(idx);
        push_char(&mut s, c);
        k = k + 1;
    }
    s
}

impl InviteRegistry {
    /// An empty registry.
    pub fn new() -> (r: InviteRegistry)
        ensures
            r@ == Seq::<InviteView>::empty(),
            registry_wf(r@),
    {
        let r = InviteRegistry { invites: Vec::new() };
        proof {
            assert(r@ =~= Seq::<InviteView>::empty());
        }
        r
    }

    /// Index of the invite with the given code, if present.
    fn find_code(&self, code: &str) -> (r: Option<usize>)
        ensures
            match r {
                Some(i) => i < self@.len() && self@[i as int].code == code@ && code_index(
                    self@,
                    code@,
                ) == i as int && has_code(self@, code@),
                None => !has_code(self@, code@),
            },
    {
        let mut i: usize = 0;
        while i < self.invites.len()
            invariant
                i <= self.invites@.len(),
                self.invites@.len() == self@.len(),
                forall|j: int| 0 <= j < i ==> (#[trigger] self@[j]).code != code@,
            decreases self.invites@.len() - i,
        {
            if str_eq(self.invites[i].code.as_str(), code) {
                proof {
                    assert(self@[i as int].code == code@);
                    lemma_code_index_first(self@, code@, i as int);
                }
                return Some(i);
            }
            proof {
                assert(self@[i as int].code == self.invites@[i as int]@.code);
            }
            i = i + 1;
        }
        proof {
            assert(!has_code(self@, code@)) by {
                if has_code(self@, code@) {
                    let k = choose|k: int|
                        0 <= k < self@.len() && (#[trigger] self@[k]).code == code@;
                }
            }
        }
        None
    }

    /// Issues an invite for a server: an eight-character alphanumeric code,
    /// globally unique among issued codes, with an optional use cap and an
    /// optional lifetime in hours from `now`. On the cryptographically
    /// unlikely code collision the draw is retried rather than failed; only
    /// when every retry collides does the call fail `Conflict`, with the
    /// registry unchanged.
    pub fn create(
        &mut self,
        server_id: u128,
        inviter_id: u128,
        req: CreateInviteRequest,
        now: u64,
    ) -> (r: Result<String, ChatError>)
        requires
            registry_wf(old(self)@),
        ensures
            registry_wf(final(self)@),
            ({
                let expires = match req.expires_in {
                    Some(h) => Some(sat_add(now as int, h * 3600000)),
                    None => None::<u64>,
                };
                match r {
                    Ok(code) => !has_code(old(self)@, code@) && code@.len() == 8 && final(self)@
                        == old(self)@.push(
                        (InviteView {
                            code: code@,
                            server_id,
                            inviter_id,
                            max_uses: req.max_uses,
                            uses: 0,
                            expires_at: expires,
                            created_at: now,
                        }),
                    ),
                    Err(e) => e == ChatError::Conflict && final(self)@ == old(self)@ && old(
                        self,
                    )@.len() > 0,
                }
            }),
    {
        let expires_at: Option<u64> = match req.expires_in {
            Some(h) => Some(saturating_add(now, (h as u64) * 3600000)),
            None => None,
        };
        let mut attempt: usize = 0;
        while attempt < 16
            invariant
                self@ == old(self)@,
                registry_wf(self@),
                attempt > 0 ==> self@.len() > 0,
                expires_at == (match req.expires_in {
                    Some(h) => Some(sat_add(now as int, h * 3600000)),
                    None => None::<u64>,
                }),
            decreases 16 - attempt,
        {
            let code = generate_code();
            if self.find_code(code.as_str()).is_none() {
                let ghost pre = self@;
                let ghost codev = code@;
                let ghost prevec = self.invites@;
                self.invites.push(
                    Invite {
                        code,
                        server_id,
                        inviter_id,
                        max_uses: req.max_uses,
                        uses: 0,
                        expires_at,
                        created_at: now,
                    },
                );
                proof {
                    assert forall|w: int| 0 <= w < pre.len() implies self@[w] == pre[w] by {
                        assert(self.invites@[w] == prevec[w]);
                        assert(prevec[w].deep_view() == pre[w]);
                    }
                    assert(self@[pre.len() as int] == self.invites@[pre.len() as int]@);
                    assert(self@ =~= pre.push(
                        (InviteView {
                            code: codev,
                            server_id,
                            inviter_id,
                            max_uses: req.max_uses,
                            uses: 0,
                            expires_at: (match req.expires_in {
                                Some(h) => Some(sat_add(now as int, h * 3600000)),
                                None => None::<u64>,
                            }),
                            created_at: now,
                        }),
                    ));
                    assert(registry_wf(self@)) by {
                        assert forall|i: int, j: int|
                            0 <= i < j < self@.len() implies (#[trigger] self@[i]).code
                            != (#[trigger] self@[j]).code by {
                            if j == self@.len() - 1 {
                                assert(self@[i] == pre[i]);
                                if pre[i].code == codev {
                                    assert(has_code(pre, codev));
                                }
                            } else {
                                assert(self@[i] == pre[i]);
                                assert(self@[j] == pre[j]);
                            }
                        }
                        assert forall|i: int| 0 <= i < self@.len() implies ((#[trigger] self@[
                        i]).code.len() == 8 && (forall|w: int|
                            0 <= w < self@[i].code.len() ==> is_alnum(#[trigger] self@[i].code[w]))
                            && (self@[i].max_uses matches Some(m) ==> self@[i].uses <= m)) by {
                            if i < self@.len() - 1 {
                                assert(self@[i] == pre[i]);
                            }
                        }
                    }
                }
                return Ok(self.invites[self.invites.len() - 1].code.clone());
            }
            attempt = attempt + 1;
        }
        Err(ChatError::Conflict)
    }

    /// Redeems a code for a user at time `now`: the atomic conditional write
    /// of the engine. Fails `NotFound` for an unknown code, `Expired` when
    /// `now` is past the expiry even if uses remain, and `Exhausted` when the
    /// cap is reached; nothing changes on failure. On success the counter
    /// grows by one and the membership fact for the invite's server is created
    /// in the same operation, so a use is consumed exactly when a membership
    /// is granted.
    pub fn redeem(&mut self, gate: &mut AccessGate, code: &str, user_id: u128, now: u64) -> (r:
        Result<u128, ChatError>)
        requires
            registry_wf(old(self)@),
            old(gate)@.wf(),
        ensures
            registry_wf(final(self)@),
            final(gate)@.wf(),
            ({
                let s = old(self)@;
                if !has_code(s, code@) {
                    r == Err::<u128, ChatError>(ChatError::NotFound) && final(self)@ == s
                        && final(gate)@ == old(gate)@
                } else {
                    let i = code_index(s, code@);
                    let inv = s[i];
                    if is_expired(inv, now) {
                        r == Err::<u128, ChatError>(ChatError::Expired) && final(self)@ == s
                            && final(gate)@ == old(gate)@
                    } else if is_exhausted(inv) {
                        r == Err::<u128, ChatError>(ChatError::Exhausted) && final(self)@ == s
                            && final(gate)@ == old(gate)@
                    } else {
                        &&& r == Ok::<u128, ChatError>(inv.server_id)
                        &&& final(self)@ == s.update(i, after_redeem(inv, now))
                        &&& final(gate)@.owners == old(gate)@.owners
                        &&& final(gate)@.is_member(user_id, inv.server_id)
                        &&& (old(gate)@.is_member(user_id, inv.server_id) ==> final(gate)@ == old(gate)@)
                        &&& (!old(gate)@.is_member(user_id, inv.server_id)
                            ==> final(gate)@.members == old(gate)@.members.push(
                            (crate::gate::ServerMember {
                                user_id,
                                server_id: inv.server_id,
                                joined_at: now,
                            }),
                        ))
                    }
                }
            }),
    {
        let found = self.find_code(code);
        let i = match found {
            None => {
                return Err(ChatError::NotFound);
            },
            Some(i) => i,
        };
        let expired = match self.invites[i].expires_at {
            Some(e) => now > e,
            None => false,
        };
        proof {
            assert(self@[i as int] == self.invites@[i as int]@);
        }
        if expired {
            return Err(ChatError::Expired);
        }
        let exhausted = match self.invites[i].max_uses {
            Some(m) => self.invites[i].uses >= m,
            None => false,
        };
        if exhausted {
            return Err(ChatError::Exhausted);
        }
        let ghost pre = self@;
        let server_id = self.invites[i].server_id;
        let mut inv = self.invites[i].clone();
        if inv.uses < u64::MAX {
            inv.uses = inv.uses + 1;
        }
        let ghost invv = inv@;
        self.invites.set(i, inv);
        gate.add_member(user_id, server_id, now);
        proof {
            assert(invv =~= after_redeem(pre[i as int], now));
            assert(self@ =~= pre.update(i as int, invv)) by {
                assert forall|w: int| 0 <= w < self@.len() implies self@[w] == pre.update(
                    i as int,
                    invv,
                )[w] by {
                    if w != i {
                        assert(self.invites@[w] == old(self).invites@[w]);
                    }
                }
            }
            assert(registry_wf(self@)) by {
                assert forall|p: int, q: int|
                    0 <= p < q < self@.len() implies (#[trigger] self@[p]).code
                    != (#[trigger] self@[q]).code by {
                    assert(self@[p].code == pre[p].code);
                    assert(self@[q].code == pre[q].code);
                }
                assert forall|p: int| 0 <= p < self@.len() implies ((#[trigger] self@[p]).code.len()
                    == 8 && (forall|w: int|
                    0 <= w < self@[p].code.len() ==> is_alnum(#[trigger] self@[p].code[w])) && (
                self@[p].max_uses matches Some(m) ==> self@[p].uses <= m)) by {
                    if p != i {
                        assert(self@[p] == pre[p]);
                    }
                }
            }
        }
        Ok(server_id)
    }
}

/// If the codes before position `i` all differ from `code` and the invite at
/// `i` carries it, then `i` is the code's first index.
pub proof fn lemma_code_index_first(s: Seq<InviteView>, code: Seq<char>, i: int)
    requires
        0 <= i < s.len(),
        s[i].code == code,
        forall|j: int| 0 <= j < i ==> (#[trigger] s[j]).code != code,
    ensures
        code_index(s, code) == i,
    decreases i,
{
    if i == 0 {
    } else {
        assert(s[0].code != code);
        lemma_code_index_first(s.skip(1), code, i - 1);
        assert forall|j: int| 0 <= j < i - 1 implies (#[trigger] s.skip(1)[j]).code != code by {
            assert(s.skip(1)[j] == s[j + 1]);
        }
        assert(s.skip(1)[i - 1] == s[i]);
    }
}

/// Unsigned addition capped at the machine maximum.
pub open spec fn sat_add(a: int, b: int) -> u64 {
    if a + b > u64::MAX {
        u64::MAX
    } else {
        (a + b) as u64
    }
}

/// Executable saturating addition matching `sat_add`.
pub fn saturating_add(a: u64, b: u64) -> (r: u64)
    ensures
        r == sat_add(a as int, b as int),
{
    if a <= u64::MAX - b {
        a + b
    } else {
        u64::MAX
    }
}

} // verus!
