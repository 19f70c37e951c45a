//! Cursor pagination over a channel's ledger: pages are read newest-first,
//! strictly on one side of an ordering-key cursor, and chaining pages by the
//! returned cursors reconstructs the whole ledger with no duplicates and no
//! omissions.

use vstd::prelude::*;
use crate::ChatError;
use crate::ledger::{Channel, sorted_by_key};
use crate::model::{Cursor, Message, MessageView, insert_pos, key_lt, pair_lt, pair_lt_exec};

verus! {

/// The server-side cap a caller-supplied page size is clamped to.
pub const MAX_PAGE_LIMIT: usize = 100;

/// The caller-supplied positive limit after clamping to the configured
/// maximum.
pub open spec fn clamp_limit(limit: i64) -> int {
    if limit > MAX_PAGE_LIMIT as i64 {
        MAX_PAGE_LIMIT as int
    } else {
        limit as int
    }
}

/// The number of leading messages of the ascending-sorted `msgs` whose
/// ordering key lies at or below (t, id): where reading after that key starts.
pub open spec fn after_pos(msgs: Seq<MessageView>, t: u64, id: u128) -> int
    decreases msgs.len(),
{
    if msgs.len() == 0 {
        0
    } else if !pair_lt(t, id, msgs[0].created_at, msgs[0].id) {
        1 + after_pos(msgs.skip(1), t, id)
    } else {
        0
    }
}

/// The page a paginate call returns, newest-first: with a `before` cursor, the
/// up-to-`k` newest messages strictly below it; with an `after` cursor, the
/// up-to-`k` oldest messages strictly above it; with neither, the `k` newest
/// messages of the channel.
pub open spec fn spec_page(
    msgs: Seq<MessageView>,
    before: Option<Cursor>,
    after: Option<Cursor>,
    k: int,
) -> Seq<MessageView> {
    match before {
        Some(c) => {
            let hi = insert_pos(msgs, c.created_at, c.id);
            let lo = if hi - k > 0 {
                hi - k
            } else {
                0
            };
            msgs.subrange(lo, hi).reverse()
        },
        None => match after {
            Some(c) => {
                let lo = after_pos(msgs, c.created_at, c.id);
                let hi = if lo + k < msgs.len() {
                    lo + k
                } else {
                    msgs.len() as int
                };
                msgs.subrange(lo, hi).reverse()
            },
            None => {
                let hi = msgs.len() as int;
                let lo = if hi - k > 0 {
                    hi - k
                } else {
                    0
                };
                msgs.subrange(lo, hi).reverse()
            },
        },
    }
}

/// For a sorted sequence, the position after a key is the unique `p` with
/// everything before it at or below the key and the element at it (if any)
/// strictly above the key.
pub proof fn lemma_after_pos_of_sorted(msgs: Seq<MessageView>, t: u64, id: u128, p: int)
    requires
        sorted_by_key(msgs),
        0 <= p <= msgs.len(),
        forall|i: int|
            0 <= i < p ==> !pair_lt(t, id, (#[trigger] msgs[i]).created_at, msgs[i].id),
        p < msgs.len() ==> pair_lt(t, id, msgs[p].created_at, msgs[p].id),
    ensures
        after_pos(msgs, t, id) == p,
    decreases msgs.len(),
{
    if msgs.len() == 0 {
    } else if p == 0 {
    } else {
        assert(!pair_lt(t, id, msgs[0].created_at, msgs[0].id));
        let rest = msgs.skip(1);
        assert forall|i: int, j: int|
            0 <= i < j < rest.len() implies key_lt(#[trigger] rest[i], #[trigger] rest[j]) by {
            assert(rest[i] == msgs[i + 1]);
            assert(rest[j] == msgs[j + 1]);
        }
        assert forall|i: int| 0 <= i < p - 1 implies !pair_lt(
            t,
            id,
            (#[trigger] rest[i]).created_at,
            rest[i].id,
        ) by {
            assert(rest[i] == msgs[i + 1]);
        }
        if p - 1 < rest.len() {
            assert(rest[p - 1] == msgs[p]);
        }
        lemma_after_pos_of_sorted(rest, t, id, p - 1);
    }
}

impl Channel {
    /// The number of messages whose ordering key lies strictly below (t, id).
    fn count_below(&self, t: u64, id: u128) -> (p: usize)
        requires
            self@.wf(),
        ensures
            p <= self@.msgs.len(),
            p as int == insert_pos(self@.msgs, t, id),
            forall|i: int| 0 <= i < p ==> pair_lt((#[trigger] self@.msgs[i]).created_at,
                self@.msgs[i].id, t, id),
            p < self@.msgs.len() ==> !pair_lt(self@.msgs[p as int].created_at,
                self@.msgs[p as int].id, t, id),
    {
        let mut p: usize = 0;
        while p < self.msgs.len() && pair_lt_exec(
            self.msgs[p].created_at,
            self.msgs[p].id,
            t,
            id,
        )
            invariant
                p <= self.msgs@.len(),
                self.msgs@.len() == self@.msgs.len(),
                forall|i: int| 0 <= i < p ==> pair_lt((#[trigger] self@.msgs[i]).created_at,
                    self@.msgs[i].id, t, id),
            decreases self.msgs@.len() - p,
        {
            proof {
                assert(self@.msgs[p as int] == self.msgs@[p as int]@);
            }
            p = p + 1;
        }
        proof {
            if p < self.msgs.len() {
                assert(self@.msgs[p as int] == self.msgs@[p as int]@);
            }
            crate::ledger::lemma_insert_pos_of_sorted(self@.msgs, t, id, p as int);
        }
        p
    }

    /// The number of messages whose ordering key lies at or below (t, id).
    fn count_at_or_below(&self, t: u64, id: u128) -> (p: usize)
        requires
            self@.wf(),
        ensures
            p <= self@.msgs.len(),
            p as int == after_pos(self@.msgs, t, id),
    {
        let mut p: usize = 0;
        while p < self.msgs.len() && !pair_lt_exec(
            t,
            id,
            self.msgs[p].created_at,
            self.msgs[p].id,
        )
            invariant
                p <= self.msgs@.len(),
                self.msgs@.len() == self@.msgs.len(),
                forall|i: int| 0 <= i < p ==> !pair_lt(t, id,
                    (#[trigger] self@.msgs[i]).created_at, self@.msgs[i].id),
            decreases self.msgs@.len() - p,
        {
            proof {
                assert(self@.msgs[p as int] == self.msgs@[p as int]@);
            }
            p = p + 1;
        }
        proof {
            if p < self.msgs.len() {
                assert(self@.msgs[p as int] == self.msgs@[p as int]@);
            }
            lemma_after_pos_of_sorted(self@.msgs, t, id, p as int);
        }
        p
    }

    /// Copies messages at indices `lo..hi`, newest first.
    fn collect_page(&self, lo: usize, hi: usize) -> (v: Vec<Message>)
        requires
            lo <= hi <= self@.msgs.len(),
        ensures
            v.deep_view() == self@.msgs.subrange(lo as int, hi as int).reverse(),
    {
        let mut v: Vec<Message> = Vec::new();
        let mut j: usize = hi;
        while j > lo
            invariant
                lo <= j <= hi <= self@.msgs.len(),
                self.msgs@.len() == self@.msgs.len(),
                v.deep_view().len() == hi - j,
                forall|w: int|
                    0 <= w < v.deep_view().len() ==> #[trigger] v.deep_view()[w] == self@.msgs[hi
                        - 1 - w],
            decreases j - lo,
        {
            let ghost before_dv = v.deep_view();
            let m = self.msgs[j - 1].clone();
            proof {
                assert(m@ == self@.msgs[j - 1]);
            }
            v.push(m);
            proof {
                assert forall|w: int|
                    0 <= w < v.deep_view().len() implies #[trigger] v.deep_view()[w] == self@.msgs[
                    hi - 1 - w] by {
                    if w < v.deep_view().len() - 1 {
                        assert(v.deep_view()[w] == before_dv[w]);
                    }
                }
            }
            j = j - 1;
        }
        proof {
            assert(v.deep_view() =~= self@.msgs.subrange(lo as int, hi as int).reverse());
        }
        v
    }

    /// Returns one page of messages, newest-first, tie-broken by identifier
    /// descending. Exactly one of `before` and `after` may be set: both set,
    /// or a non-positive limit, is a `Validation` error. The limit is clamped
    /// to the configured maximum. The page lies strictly on one side of the
    /// cursor, so chaining cursors never repeats or skips a message. Pure
    /// read; never mutates.
    pub fn paginate(&self, before: Option<Cursor>, after: Option<Cursor>, limit: i64) -> (r: Result<
        Vec<Message>,
        ChatError,
    >)
        requires
            self@.wf(),
        ensures
            match r {
                Err(e) => e == ChatError::Validation && (limit <= 0 || (before matches Some(_)
                    && after matches Some(_))),
                Ok(v) => limit > 0 && !(before matches Some(_) && after matches Some(_))
                    && v.deep_view() == spec_page(self@.msgs, before, after, clamp_limit(limit)),
            },
    {
        if limit <= 0 {
            return Err(ChatError::Validation);
        }
        if before.is_some() && after.is_some() {
            return Err(ChatError::Validation);
        }
        let k: usize = if limit > MAX_PAGE_LIMIT as i64 {
            MAX_PAGE_LIMIT
        } else {
            limit as usize
        };
        match before {
            Some(c) => {
                let hi = self.count_below(c.created_at, c.id);
                let lo = if hi > k {
                    hi - k
                } else {
                    0
                };
                Ok(self.collect_page(lo, hi))
            },
            None => {
                match after {
                    Some(c) => {
                        let lo = self.count_at_or_below(c.created_at, c.id);
                        let n = self.msgs.len();
                        proof {
                            assert(self.msgs@.len() == self@.msgs.len());
                        }
                        let hi = if k <= n && lo <= n - k {
                            lo + k
                        } else {
                            n
                        };
                        proof {
                            if lo + k < n {
                                assert(hi == lo + k);
                            }
                        }
                        Ok(self.collect_page(lo, hi))
                    },
                    None => {
                        let n = self.msgs.len();
                        let lo = if n > k {
                            n - k
                        } else {
                            0
                        };
                        Ok(self.collect_page(lo, n))
                    },
                }
            },
        }
    }
}


/// The concatenation of all pages read backward from position `hi` with page
/// size `k`, in the order the pages are returned.
pub open spec fn pages_before(msgs: Seq<MessageView>, hi: int, k: int) -> Seq<MessageView>
    decreases hi,
{
    if hi <= 0 || k <= 0 {
        Seq::<MessageView>::empty()
    } else {
        let lo = if hi - k > 0 {
            hi - k
        } else {
            0
        };
        msgs.subrange(lo, hi).reverse() + pages_before(msgs, lo, k)
    }
}

/// The concatenation of all pages read forward from position `lo` with page
/// size `k`, each page put back in ascending order.
pub open spec fn pages_after(msgs: Seq<MessageView>, lo: int, k: int) -> Seq<MessageView>
    decreases msgs.len() - lo,
{
    if lo < 0 || lo >= msgs.len() || k <= 0 {
        Seq::<MessageView>::empty()
    } else {
        let hi = if lo + k < msgs.len() {
            lo + k
        } else {
            msgs.len() as int
        };
        msgs.subrange(lo, hi) + pages_after(msgs, hi, k)
    }
}

/// Backward pagination reconstructs the ledger: for any page size, the pages
/// read from position `hi` down, concatenated in the order they are returned,
/// are exactly the first `hi` messages newest-first — no duplicates, no
/// omissions.
pub proof fn lemma_pages_before_reconstruct(msgs: Seq<MessageView>, hi: int, k: int)
    requires
        k >= 1,
        0 <= hi <= msgs.len(),
    ensures
        pages_before(msgs, hi, k) == msgs.subrange(0, hi).reverse(),
    decreases hi,
{
    if hi <= 0 {
        assert(pages_before(msgs, hi, k) =~= msgs.subrange(0, hi).reverse());
    } else {
        let lo = if hi - k > 0 {
            hi - k
        } else {
            0
        };
        lemma_pages_before_reconstruct(msgs, lo, k);
        assert(pages_before(msgs, hi, k) =~= msgs.subrange(0, hi).reverse()) by {
            let lhs = pages_before(msgs, hi, k);
            let fst = msgs.subrange(lo, hi).reverse();
            let rec = msgs.subrange(0, lo).reverse();
            assert(lhs == fst + rec);
            assert(lhs.len() == hi);
            assert forall|w: int| 0 <= w < hi implies lhs[w] == msgs.subrange(0, hi).reverse()[
                w] by {
                if w < hi - lo {
                    assert(lhs[w] == fst[w]);
                    assert(fst[w] == msgs[hi - 1 - w]);
                } else {
                    assert(lhs[w] == rec[w - (hi - lo)]);
                    assert(rec[w - (hi - lo)] == msgs[lo - 1 - (w - (hi - lo))]);
                }
                assert(msgs.subrange(0, hi).reverse()[w] == msgs[hi - 1 - w]);
            }
        }
    }
}

/// Forward pagination reconstructs the ledger: for any page size, the pages
/// read from position `lo` up, each put back in ascending order and
/// concatenated, are exactly the messages from `lo` on — no duplicates, no
/// omissions.
pub proof fn lemma_pages_after_reconstruct(msgs: Seq<MessageView>, lo: int, k: int)
    requires
        k >= 1,
        0 <= lo <= msgs.len(),
    ensures
        pages_after(msgs, lo, k) == msgs.subrange(lo, msgs.len() as int),
    decreases msgs.len() - lo,
{
    if lo >= msgs.len() {
        assert(pages_after(msgs, lo, k) =~= msgs.subrange(lo, msgs.len() as int));
    } else {
        let hi = if lo + k < msgs.len() {
            lo + k
        } else {
            msgs.len() as int
        };
        lemma_pages_after_reconstruct(msgs, hi, k);
        assert(pages_after(msgs, lo, k) =~= msgs.subrange(lo, msgs.len() as int)) by {
            let lhs = pages_after(msgs, lo, k);
            assert(lhs == msgs.subrange(lo, hi) + pages_after(msgs, hi, k));
            assert forall|w: int| 0 <= w < lhs.len() implies lhs[w] == msgs.subrange(
                lo,
                msgs.len() as int,
            )[w] by {
                if w < hi - lo {
                    assert(lhs[w] == msgs.subrange(lo, hi)[w]);
                } else {
                    assert(lhs[w] == msgs.subrange(hi, msgs.len() as int)[w - (hi - lo)]);
                }
            }
        }
    }
}

/// The cursor handed back with a backward page resumes exactly where the page
/// ended: the page strictly before the oldest returned message's ordering key
/// starts at that message's own index, so no message is repeated or skipped.
pub proof fn lemma_backward_cursor_resumes(msgs: Seq<MessageView>, lo: int)
    requires
        sorted_by_key(msgs),
        0 <= lo < msgs.len(),
    ensures
        insert_pos(msgs, msgs[lo].created_at, msgs[lo].id) == lo,
{
    crate::ledger::lemma_insert_pos_of_sorted(msgs, msgs[lo].created_at, msgs[lo].id, lo);
}

/// The cursor handed back with a forward page resumes exactly where the page
/// ended: the page strictly after the newest returned message's ordering key
/// starts right past that message's index.
pub proof fn lemma_forward_cursor_resumes(msgs: Seq<MessageView>, hi: int)
    requires
        sorted_by_key(msgs),
        0 < hi <= msgs.len(),
    ensures
        after_pos(msgs, msgs[hi - 1].created_at, msgs[hi - 1].id) == hi,
{
    assert forall|i: int| 0 <= i < hi implies !pair_lt(
        msgs[hi - 1].created_at,
        msgs[hi - 1].id,
        (#[trigger] msgs[i]).created_at,
        msgs[i].id,
    ) by {
        if i < hi - 1 {
            assert(key_lt(msgs[i], msgs[hi - 1]));
        }
    }
    lemma_after_pos_of_sorted(msgs, msgs[hi - 1].created_at, msgs[hi - 1].id, hi);
}


} // verus!
