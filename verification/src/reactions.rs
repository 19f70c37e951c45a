//! Reaction bookkeeping and aggregation: per-user reaction facts toggled on
//! and off a message, and the viewer-relative summary that backs message
//! reads. Groups appear in the order their emoji was first seen, so repeated
//! renders do not reshuffle.

use vstd::prelude::*;
use crate::ChatError;
use crate::ledger::{Channel, ChannelView};
use crate::model::{MessageView, Reaction, ReactionFact, ReactionFactView, has_msg, msg_index};

verus! {

/// The message with the reaction fact (user, emoji) present: unchanged when
/// the fact is already stored — the triple is the natural key — else with the
/// fact appended.
pub open spec fn with_reaction(m: MessageView, user_id: u128, emoji: Seq<char>) -> MessageView {
    if m.has_reaction(user_id, emoji) {
        m
    } else {
        (MessageView {
            reactions: m.reactions.push((ReactionFactView { user_id, emoji })),
            ..m
        })
    }
}

/// First index of the reaction fact (user, emoji) in `facts`; meaningful only
/// when the fact is present.
pub open spec fn reaction_index(facts: Seq<ReactionFactView>, user_id: u128, emoji: Seq<char>) -> int
    decreases facts.len(),
{
    if facts.len() == 0 {
        0
    } else if facts[0] == (ReactionFactView { user_id, emoji }) {
        0
    } else {
        1 + reaction_index(facts.skip(1), user_id, emoji)
    }
}

/// The message with the reaction fact (user, emoji) removed; unchanged when no
/// such fact is stored.
pub open spec fn without_reaction(m: MessageView, user_id: u128, emoji: Seq<char>) -> MessageView {
    if m.has_reaction(user_id, emoji) {
        (MessageView {
            reactions: m.reactions.remove(reaction_index(m.reactions, user_id, emoji)),
            ..m
        })
    } else {
        m
    }
}

/// The distinct emojis of `facts` in the order each was first seen.
pub open spec fn emojis_in_order(facts: Seq<ReactionFactView>) -> Seq<Seq<char>>
    decreases facts.len(),
{
    if facts.len() == 0 {
        Seq::<Seq<char>>::empty()
    } else {
        let rest = emojis_in_order(facts.drop_last());
        if rest.contains(facts.last().emoji) {
            rest
        } else {
            rest.push(facts.last().emoji)
        }
    }
}

/// How many stored facts carry the emoji; with unique (user, emoji) facts this
/// is the number of distinct users who reacted with it.
pub open spec fn emoji_count(facts: Seq<ReactionFactView>, emoji: Seq<char>) -> nat
    decreases facts.len(),
{
    if facts.len() == 0 {
        0
    } else {
        emoji_count(facts.drop_last(), emoji) + (if facts.last().emoji == emoji {
            1nat
        } else {
            0nat
        })
    }
}

/// Whether the given user is among those who reacted with the emoji.
pub open spec fn emoji_has_user(facts: Seq<ReactionFactView>, emoji: Seq<char>, user_id: u128) -> bool {
    exists|k: int|
        0 <= k < facts.len() && (#[trigger] facts[k]).emoji == emoji && facts[k].user_id == user_id
}

/// The aggregated summary of `facts` as the given viewer sees it.
pub open spec fn spec_aggregate(facts: Seq<ReactionFactView>, viewer_id: u128) -> Seq<
    crate::model::ReactionView,
> {
    Seq::new(
        emojis_in_order(facts).len(),
        |k: int|
            (crate::model::ReactionView {
                emoji: emojis_in_order(facts)[k],
                count: emoji_count(facts, emojis_in_order(facts)[k]) as u64,
                has_reacted: emoji_has_user(facts, emojis_in_order(facts)[k], viewer_id),
            }),
    )
}

/// No emoji counts more facts than there are.
pub proof fn lemma_emoji_count_le(facts: Seq<ReactionFactView>, emoji: Seq<char>)
    ensures
        emoji_count(facts, emoji) <= facts.len(),
    decreases facts.len(),
{
    if facts.len() > 0 {
        lemma_emoji_count_le(facts.drop_last(), emoji);
    }
}

/// Adding the same reaction a second time changes nothing: the aggregated
/// state after two identical additions equals the state after one.
pub proof fn lemma_add_reaction_idempotent(m: MessageView, user_id: u128, emoji: Seq<char>)
    ensures
        with_reaction(with_reaction(m, user_id, emoji), user_id, emoji) == with_reaction(
            m,
            user_id,
            emoji,
        ),
{
    let m1 = with_reaction(m, user_id, emoji);
    if !m.has_reaction(user_id, emoji) {
        assert(m1.reactions[m1.reactions.len() - 1] == (ReactionFactView { user_id, emoji }));
        assert(m1.has_reaction(user_id, emoji));
    }
}

/// The identifier-respecting facts of `msg_index`: when a message with the
/// identifier exists, the index is in range, carries the identifier, and
/// everything before it does not.
pub proof fn lemma_msg_index_props(msgs: Seq<MessageView>, id: u128)
    requires
        has_msg(msgs, id),
    ensures
        0 <= msg_index(msgs, id) < msgs.len(),
        msgs[msg_index(msgs, id)].id == id,
        forall|j: int| 0 <= j < msg_index(msgs, id) ==> (#[trigger] msgs[j]).id != id,
    decreases msgs.len(),
{
    if msgs.len() > 0 {
        if msgs[0].id == id {
        } else {
            let rest = msgs.skip(1);
            assert(has_msg(rest, id)) by {
                let k = choose|k: int| 0 <= k < msgs.len() && (#[trigger] msgs[k]).id == id;
                assert(rest[k - 1] == msgs[k]);
            }
            lemma_msg_index_props(rest, id);
            assert forall|j: int| 0 <= j < msg_index(msgs, id) implies (#[trigger] msgs[j]).id
                != id by {
                if j > 0 {
                    assert(rest[j - 1] == msgs[j]);
                }
            }
        }
    }
}

impl Channel {
    /// Records that a user reacted to a message with an emoji. Fails
    /// `NotFound` when no message carries the identifier; a duplicate triple
    /// is a no-op, not an error.
    pub fn add_reaction(&mut self, message_id: u128, user_id: u128, emoji: String) -> (r: Result<
        (),
        ChatError,
    >)
        requires
            old(self)@.wf(),
        ensures
            final(self)@.wf(),
            ({
                let pre = old(self)@;
                if !has_msg(pre.msgs, message_id) {
                    r == Err::<(), ChatError>(ChatError::NotFound) && final(self)@ == pre
                } else {
                    r == Ok::<(), ChatError>(()) && final(self)@ == (ChannelView {
                        msgs: pre.msgs.update(
                            msg_index(pre.msgs, message_id),
                            with_reaction(
                                pre.msgs[msg_index(pre.msgs, message_id)],
                                user_id,
                                emoji@,
                            ),
                        ),
                        ..pre
                    })
                }
            }),
    {
        let found = self.find_index(message_id);
        let i = match found {
            None => {
                return Err(ChatError::NotFound);
            },
            Some(i) => i,
        };
        let ghost pre = self@;
        let n = self.msgs[i].reactions.len();
        let mut k: usize = 0;
        while k < n
            invariant
                self@ == pre,
                pre == old(self)@,
                pre.wf(),
                i < pre.msgs.len(),
                has_msg(pre.msgs, message_id),
                msg_index(pre.msgs, message_id) == i as int,
                pre.msgs[i as int].id == message_id,
                n == pre.msgs[i as int].reactions.len(),
                k <= n,
                forall|j: int|
                    0 <= j < k ==> (#[trigger] pre.msgs[i as int].reactions[j]) != (ReactionFactView {
                        user_id,
                        emoji: emoji@,
                    }),
            decreases n - k,
        {
            let same_user = self.msgs[i].reactions[k].user_id == user_id;
            let same_emoji = crate::strutil::str_eq(
                self.msgs[i].reactions[k].emoji.as_str(),
                emoji.as_str(),
            );
            proof {
                assert(pre.msgs[i as int].reactions[k as int]
                    == self.msgs@[i as int].reactions@[k as int]@);
            }
            if same_user && same_emoji {
                proof {
                    assert(pre.msgs[i as int].reactions[k as int] == (ReactionFactView {
                        user_id,
                        emoji: emoji@,
                    }));
                    assert(pre.msgs[i as int].has_reaction(user_id, emoji@));
                    assert(pre.msgs.update(i as int, pre.msgs[i as int]) =~= pre.msgs);
                    assert(self@ =~= (ChannelView {
                        msgs: pre.msgs.update(
                            i as int,
                            with_reaction(pre.msgs[i as int], user_id, emoji@),
                        ),
                        ..pre
                    }));
                }
                return Ok(());
            }
            k = k + 1;
        }
        proof {
            assert(!pre.msgs[i as int].has_reaction(user_id, emoji@)) by {
                if pre.msgs[i as int].has_reaction(user_id, emoji@) {
                    let w = choose|w: int|
                        0 <= w < pre.msgs[i as int].reactions.len() && (#[trigger] pre.msgs[
                            i as int
                        ].reactions[w]) == (ReactionFactView { user_id, emoji: emoji@ });
                }
            }
        }
        let mut m = self.msgs[i].clone();
        m.reactions.push(ReactionFact { user_id, emoji });
        let ghost mv = m@;
        self.msgs.set(i, m);
        proof {
            let target = with_reaction(pre.msgs[i as int], user_id, emoji@);
            assert(mv =~= target) by {
                assert(mv.reactions =~= pre.msgs[i as int].reactions.push((ReactionFactView {
                    user_id,
                    emoji: emoji@,
                })));
            }
            let s = pre.msgs.update(i as int, target);
            assert(target.wf()) by {
                assert(pre.msgs[i as int].wf());
                let fr = target.reactions;
                assert forall|p: int, q: int|
                    0 <= p < q < fr.len() implies !(#[trigger] fr[p].user_id == #[trigger] fr[
                    q
                ].user_id && fr[p].emoji == fr[q].emoji) by {
                    if q == fr.len() - 1 {
                        assert(fr[p] == pre.msgs[i as int].reactions[p]);
                    }
                }
            }
            assert forall|p: int, q: int| 0 <= p < q < s.len() implies crate::model::key_lt(
                #[trigger] s[p],
                #[trigger] s[q],
            ) && s[p].id != s[q].id by {
                assert(crate::model::key_lt(pre.msgs[p], pre.msgs[q]));
            }
            assert(self.msgs.deep_view() =~= s) by {
                assert forall|w: int|
                    0 <= w < self.msgs.deep_view().len() implies self.msgs.deep_view()[w]
                    == s[w] by {
                    if w != i {
                        assert(self.msgs@[w] == old(self).msgs@[w]);
                    }
                }
            }
            assert(s[s.len() - 1].id == pre.msgs[pre.msgs.len() - 1].id);
            assert(final(self)@ =~= (ChannelView { msgs: s, ..pre }));
        }
        Ok(())
    }

    /// Removes a user's reaction from a message. Fails `NotFound` when no
    /// message carries the identifier; removing a fact that was never stored
    /// is a no-op, not an error.
    pub fn remove_reaction(&mut self, message_id: u128, user_id: u128, emoji: &str) -> (r: Result<
        (),
        ChatError,
    >)
        requires
            old(self)@.wf(),
        ensures
            final(self)@.wf(),
            ({
                let pre = old(self)@;
                if !has_msg(pre.msgs, message_id) {
                    r == Err::<(), ChatError>(ChatError::NotFound) && final(self)@ == pre
                } else {
                    r == Ok::<(), ChatError>(()) && final(self)@ == (ChannelView {
                        msgs: pre.msgs.update(
                            msg_index(pre.msgs, message_id),
                            without_reaction(
                                pre.msgs[msg_index(pre.msgs, message_id)],
                                user_id,
                                emoji@,
                            ),
                        ),
                        ..pre
                    })
                }
            }),
    {
        let found = self.find_index(message_id);
        let i = match found {
            None => {
                return Err(ChatError::NotFound);
            },
            Some(i) => i,
        };
        let ghost pre = self@;
        let n = self.msgs[i].reactions.len();
        let mut k: usize = 0;
        while k < n
            invariant
                self@ == pre,
                pre == old(self)@,
                pre.wf(),
                i < pre.msgs.len(),
                has_msg(pre.msgs, message_id),
                msg_index(pre.msgs, message_id) == i as int,
                pre.msgs[i as int].id == message_id,
                n == pre.msgs[i as int].reactions.len(),
                k <= n,
                forall|j: int|
                    0 <= j < k ==> (#[trigger] pre.msgs[i as int].reactions[j]) != (ReactionFactView {
                        user_id,
                        emoji: emoji@,
                    }),
            decreases n - k,
        {
            let same_user = self.msgs[i].reactions[k].user_id == user_id;
            let same_emoji = crate::strutil::str_eq(self.msgs[i].reactions[k].emoji.as_str(), emoji);
            proof {
                assert(pre.msgs[i as int].reactions[k as int]
                    == self.msgs@[i as int].reactions@[k as int]@);
            }
            if same_user && same_emoji {
                proof {
                    assert(pre.msgs[i as int].reactions[k as int] == (ReactionFactView {
                        user_id,
                        emoji: emoji@,
                    }));
                    assert(pre.msgs[i as int].has_reaction(user_id, emoji@));
                    lemma_reaction_index_first(pre.msgs[i as int].reactions, user_id, emoji@,
                        k as int);
                }
                let mut m = self.msgs[i].clone();
                m.reactions.remove(k);
                let ghost mv = m@;
                let ghost before = self.msgs@;
                self.msgs.set(i, m);
                proof {
                    let target = without_reaction(pre.msgs[i as int], user_id, emoji@);
                    let fr0 = pre.msgs[i as int].reactions;
                    fr0.remove_ensures(k as int);
                    assert(mv =~= target) by {
                        assert(mv.reactions =~= fr0.remove(k as int));
                    }
                    let s = pre.msgs.update(i as int, target);
                    assert(target.wf()) by {
                        assert(pre.msgs[i as int].wf());
                        let fr = target.reactions;
                        assert forall|p: int, q: int|
                            0 <= p < q < fr.len() implies !(#[trigger] fr[p].user_id
                            == #[trigger] fr[q].user_id && fr[p].emoji == fr[q].emoji) by {
                            let p0 = if p < k { p } else { p + 1 };
                            let q0 = if q < k { q } else { q + 1 };
                            assert(fr[p] == fr0[p0]);
                            assert(fr[q] == fr0[q0]);
                        }
                    }
                    assert forall|p: int, q: int| 0 <= p < q < s.len() implies crate::model::key_lt(
                        #[trigger] s[p],
                        #[trigger] s[q],
                    ) && s[p].id != s[q].id by {
                        assert(crate::model::key_lt(pre.msgs[p], pre.msgs[q]));
                    }
                    assert(self.msgs.deep_view() =~= s) by {
                        assert forall|w: int|
                            0 <= w < self.msgs.deep_view().len() implies self.msgs.deep_view()[w]
                            == s[w] by {
                            if w != i {
                                assert(self.msgs@[w] == before[w]);
                                assert(before[w].deep_view() == pre.msgs[w]);
                            }
                        }
                    }
                    assert(s[s.len() - 1].id == pre.msgs[pre.msgs.len() - 1].id);
                    assert(self@ =~= (ChannelView { msgs: s, ..pre }));
                    assert(self@.wf());
                }
                return Ok(());
            }
            k = k + 1;
        }
        proof {
            assert(!pre.msgs[i as int].has_reaction(user_id, emoji@)) by {
                if pre.msgs[i as int].has_reaction(user_id, emoji@) {
                    let w = choose|w: int|
                        0 <= w < pre.msgs[i as int].reactions.len() && (#[trigger] pre.msgs[
                            i as int
                        ].reactions[w]) == (ReactionFactView { user_id, emoji: emoji@ });
                }
            }
            assert(pre.msgs.update(i as int, pre.msgs[i as int]) =~= pre.msgs);
            assert(final(self)@ =~= (ChannelView {
                msgs: pre.msgs.update(
                    i as int,
                    without_reaction(pre.msgs[i as int], user_id, emoji@),
                ),
                ..pre
            }));
        }
        Ok(())
    }
}

/// If the facts before position `k` all differ from (user, emoji) and the fact
/// at `k` is exactly it, then `k` is its first index.
pub proof fn lemma_reaction_index_first(
    facts: Seq<ReactionFactView>,
    user_id: u128,
    emoji: Seq<char>,
    k: int,
)
    requires
        0 <= k < facts.len(),
        facts[k] == (ReactionFactView { user_id, emoji }),
        forall|j: int| 0 <= j < k ==> (#[trigger] facts[j]) != (ReactionFactView { user_id, emoji }),
    ensures
        reaction_index(facts, user_id, emoji) == k,
    decreases k,
{
    if k == 0 {
    } else {
        assert(facts[0] != (ReactionFactView { user_id, emoji }));
        lemma_reaction_index_first(facts.skip(1), user_id, emoji, k - 1);
        assert forall|j: int| 0 <= j < k - 1 implies (#[trigger] facts.skip(1)[j])
            != (ReactionFactView { user_id, emoji }) by {
            assert(facts.skip(1)[j] == facts[j + 1]);
        }
        assert(facts.skip(1)[k - 1] == facts[k]);
    }
}


/// The first-seen emoji groups are pairwise distinct.
pub proof fn lemma_emojis_distinct(facts: Seq<ReactionFactView>)
    ensures
        forall|p: int, q: int|
            0 <= p < q < emojis_in_order(facts).len() ==> #[trigger] emojis_in_order(facts)[p]
                != #[trigger] emojis_in_order(facts)[q],
    decreases facts.len(),
{
    if facts.len() > 0 {
        lemma_emojis_distinct(facts.drop_last());
        let rest = emojis_in_order(facts.drop_last());
        if !rest.contains(facts.last().emoji) {
            assert forall|p: int, q: int|
                0 <= p < q < emojis_in_order(facts).len() implies #[trigger] emojis_in_order(
                facts,
            )[p] != #[trigger] emojis_in_order(facts)[q] by {
                if q == emojis_in_order(facts).len() - 1 {
                    assert(emojis_in_order(facts)[p] == rest[p]);
                    assert(!rest.contains(facts.last().emoji));
                }
            }
        }
    }
}

/// How one more fact changes the aggregation ingredients: the count of its
/// emoji grows by one, the viewer mark turns on exactly for its (user, emoji),
/// and its emoji joins the group order at the end if it is new.
pub proof fn lemma_aggregate_step(
    pfx: Seq<ReactionFactView>,
    f: ReactionFactView,
    e: Seq<char>,
    u: u128,
)
    ensures
        emoji_count(pfx.push(f), e) == emoji_count(pfx, e) + (if f.emoji == e {
            1nat
        } else {
            0nat
        }),
        emoji_has_user(pfx.push(f), e, u) == (emoji_has_user(pfx, e, u) || (f.emoji == e
            && f.user_id == u)),
        emojis_in_order(pfx.push(f)) == (if emojis_in_order(pfx).contains(f.emoji) {
            emojis_in_order(pfx)
        } else {
            emojis_in_order(pfx).push(f.emoji)
        }),
{
    let s = pfx.push(f);
    assert(s.drop_last() =~= pfx);
    assert(s.last() == f);
    if emoji_has_user(pfx, e, u) {
        let k = choose|k: int|
            0 <= k < pfx.len() && (#[trigger] pfx[k]).emoji == e && pfx[k].user_id == u;
        assert(s[k] == pfx[k]);
        assert(emoji_has_user(s, e, u));
    }
    if f.emoji == e && f.user_id == u {
        assert(s[s.len() - 1] == f);
        assert(emoji_has_user(s, e, u));
    }
    if emoji_has_user(s, e, u) {
        let k = choose|k: int|
            0 <= k < s.len() && (#[trigger] s[k]).emoji == e && s[k].user_id == u;
        if k < pfx.len() {
            assert(pfx[k] == s[k]);
            assert(emoji_has_user(pfx, e, u));
        } else {
            assert(s[k] == f);
        }
    }
}

impl Channel {
    /// Aggregates a message's reaction facts as the given viewer sees them:
    /// one summary per emoji in the order each emoji was first seen, with the
    /// count of distinct users and whether the viewer is among them. Fails
    /// `NotFound` when no message carries the identifier. Pure read; never
    /// mutates.
    #[verifier::loop_isolation(false)]
    pub fn aggregate(&self, message_id: u128, viewer_id: u128) -> (r: Result<
        Vec<Reaction>,
        ChatError,
    >)
        requires
            self@.wf(),
        ensures
            match r {
                Err(e) => e == ChatError::NotFound && !has_msg(self@.msgs, message_id),
                Ok(v) => has_msg(self@.msgs, message_id) && v.deep_view() == spec_aggregate(
                    self@.msgs[msg_index(self@.msgs, message_id)].reactions,
                    viewer_id,
                ),
            },
    {
        let found = self.find_index(message_id);
        let i = match found {
            None => {
                return Err(ChatError::NotFound);
            },
            Some(i) => i,
        };
        let ghost facts = self@.msgs[i as int].reactions;
        let n = self.msgs[i].reactions.len();
        let mut out: Vec<Reaction> = Vec::new();
        let mut k: usize = 0;
        proof {
            assert(facts.take(0) =~= Seq::<ReactionFactView>::empty());
        }
        while k < n
            invariant
                k <= n,
                i < self@.msgs.len(),
                facts == self@.msgs[i as int].reactions,
                n == facts.len(),
                n == self.msgs@[i as int].reactions@.len(),
                out.deep_view().len() == emojis_in_order(facts.take(k as int)).len(),
                forall|w: int|
                    0 <= w < out.deep_view().len() ==> (#[trigger] out.deep_view()[w]).emoji
                        == emojis_in_order(facts.take(k as int))[w],
                forall|w: int|
                    0 <= w < out.deep_view().len() ==> (#[trigger] out.deep_view()[w]).count
                        == emoji_count(facts.take(k as int), out.deep_view()[w].emoji),
                forall|w: int|
                    0 <= w < out.deep_view().len() ==> (#[trigger] out.deep_view()[w]).has_reacted
                        == emoji_has_user(
                        facts.take(k as int),
                        out.deep_view()[w].emoji,
                        viewer_id,
                    ),
            decreases n - k,
        {
            let ghost pfx = facts.take(k as int);
            let ghost f = facts[k as int];
            proof {
                assert(facts.take(k + 1).drop_last() =~= pfx);
                assert(facts.take(k + 1) =~= pfx.push(f));
                lemma_emojis_distinct(pfx);
                lemma_emoji_count_le(pfx, f.emoji);
                assert(self.msgs@[i as int].reactions@[k as int]@ == f);
            }
            // Search the summaries built so far for this fact's emoji.
            let mut idx: usize = 0;
            let mut found_at: Option<usize> = None;
            while idx < out.len()
                invariant
                    idx <= out.deep_view().len(),
                    n == self.msgs@[i as int].reactions@.len(),
                    k < n,
                    f == self.msgs@[i as int].reactions@[k as int]@,
                    match found_at {
                        Some(a) => a < idx && out.deep_view()[a as int].emoji == f.emoji,
                        None => forall|w: int|
                            0 <= w < idx ==> (#[trigger] out.deep_view()[w]).emoji != f.emoji,
                    },
                decreases out.deep_view().len() - idx,
            {
                if found_at.is_none() && crate::strutil::str_eq(
                    out[idx].emoji.as_str(),
                    self.msgs[i].reactions[k].emoji.as_str(),
                ) {
                    proof {
                        assert(out.deep_view()[idx as int].emoji == out@[idx as int]@.emoji);
                    }
                    found_at = Some(idx);
                }
                idx = idx + 1;
            }
            let ghost pfx1 = facts.take(k + 1);
            proof {
                lemma_aggregate_step(pfx, f, f.emoji, viewer_id);
            }
            match found_at {
                Some(a) => {
                    proof {
                        assert(emojis_in_order(pfx).contains(f.emoji)) by {
                            assert(emojis_in_order(pfx)[a as int] == f.emoji);
                        }
                        assert(emojis_in_order(pfx1) == emojis_in_order(pfx));
                        lemma_emoji_count_le(pfx, out.deep_view()[a as int].emoji);
                    }
                    let same_user = self.msgs[i].reactions[k].user_id == viewer_id;
                    let ghost before = out@;
                    let ghost before_dv = out.deep_view();
                    let mut elem = out[a].clone();
                    elem.count = elem.count + 1;
                    elem.has_reacted = elem.has_reacted || same_user;
                    out.set(a, elem);
                    proof {
                        lemma_emojis_distinct(pfx);
                        assert(out.deep_view().len() == before_dv.len());
                        assert forall|w: int|
                            0 <= w < out.deep_view().len() implies ((#[trigger] out.deep_view()[
                            w]).emoji == emojis_in_order(pfx1)[w] && out.deep_view()[w].count
                            == emoji_count(pfx1, out.deep_view()[w].emoji) && out.deep_view()[
                            w].has_reacted == emoji_has_user(
                            pfx1,
                            out.deep_view()[w].emoji,
                            viewer_id,
                        )) by {
                            assert(before_dv[w] == before[w]@);
                            if w != a {
                                assert(out@[w] == before[w]);
                                assert(out.deep_view()[w] == before_dv[w]);
                                lemma_aggregate_step(pfx, f, before_dv[w].emoji, viewer_id);
                                assert(before_dv[w].emoji != f.emoji) by {
                                    assert(before_dv[a as int].emoji == f.emoji);
                                    assert(before_dv[w].emoji == emojis_in_order(pfx)[w]);
                                    assert(before_dv[a as int].emoji == emojis_in_order(pfx)[
                                        a as int
                                    ]);
                                    assert(emojis_in_order(pfx)[w] != emojis_in_order(pfx)[
                                        a as int
                                    ]);
                                }
                            } else {
                                assert(out.deep_view()[w] == elem@);
                                assert(before_dv[a as int].emoji == f.emoji);
                                lemma_aggregate_step(pfx, f, f.emoji, viewer_id);
                            }
                        }
                    }
                },
                None => {
                    proof {
                        assert(!emojis_in_order(pfx).contains(f.emoji)) by {
                            if emojis_in_order(pfx).contains(f.emoji) {
                                let w = choose|w: int|
                                    0 <= w < emojis_in_order(pfx).len() && emojis_in_order(pfx)[w]
                                        == f.emoji;
                                assert(out.deep_view()[w].emoji == f.emoji);
                            }
                        }
                        assert(emojis_in_order(pfx1) == emojis_in_order(pfx).push(f.emoji));
                        assert(emoji_count(pfx, f.emoji) == 0) by {
                            lemma_count_zero_when_absent(pfx, f.emoji);
                        }
                        assert(!emoji_has_user(pfx, f.emoji, viewer_id)) by {
                            if emoji_has_user(pfx, f.emoji, viewer_id) {
                                let w = choose|w: int|
                                    0 <= w < pfx.len() && (#[trigger] pfx[w]).emoji == f.emoji
                                        && pfx[w].user_id == viewer_id;
                                lemma_emoji_in_order_of_fact(pfx, w);
                            }
                        }
                    }
                    let same_user = self.msgs[i].reactions[k].user_id == viewer_id;
                    let emoji_copy = self.msgs[i].reactions[k].emoji.clone();
                    let ghost before = out@;
                    let ghost before_dv = out.deep_view();
                    out.push(Reaction { emoji: emoji_copy, count: 1, has_reacted: same_user });
                    proof {
                        assert(out.deep_view().len() == before_dv.len() + 1);
                        assert forall|w: int|
                            0 <= w < out.deep_view().len() implies ((#[trigger] out.deep_view()[
                            w]).emoji == emojis_in_order(pfx1)[w] && out.deep_view()[w].count
                            == emoji_count(pfx1, out.deep_view()[w].emoji) && out.deep_view()[
                            w].has_reacted == emoji_has_user(
                            pfx1,
                            out.deep_view()[w].emoji,
                            viewer_id,
                        )) by {
                            if w < out.deep_view().len() - 1 {
                                assert(before_dv[w] == before[w]@);
                                assert(out@[w] == before[w]);
                                assert(out.deep_view()[w] == before_dv[w]);
                                lemma_aggregate_step(pfx, f, before_dv[w].emoji, viewer_id);
                                assert(before_dv[w].emoji != f.emoji) by {
                                    assert(emojis_in_order(pfx)[w] == before_dv[w].emoji);
                                    if emojis_in_order(pfx)[w] == f.emoji {
                                        assert(emojis_in_order(pfx).contains(f.emoji));
                                    }
                                }
                            } else {
                                assert(out.deep_view()[w] == out@[w]@);
                                lemma_aggregate_step(pfx, f, f.emoji, viewer_id);
                            }
                        }
                    }
                },
            }
            k = k + 1;
        }
        proof {
            assert(facts.take(n as int) =~= facts);
            assert(out.deep_view() =~= spec_aggregate(facts, viewer_id));
            lemma_msg_index_props(self@.msgs, message_id);
        }
        Ok(out)
    }
}

/// An emoji that no fact carries counts zero.
pub proof fn lemma_count_zero_when_absent(facts: Seq<ReactionFactView>, emoji: Seq<char>)
    requires
        !emojis_in_order(facts).contains(emoji),
    ensures
        emoji_count(facts, emoji) == 0,
    decreases facts.len(),
{
    if facts.len() > 0 {
        let rest = emojis_in_order(facts.drop_last());
        if facts.last().emoji == emoji {
            if rest.contains(emoji) {
                assert(emojis_in_order(facts).contains(emoji));
            } else {
                assert(emojis_in_order(facts)[emojis_in_order(facts).len() - 1] == emoji);
                assert(emojis_in_order(facts).contains(emoji));
            }
        }
        assert(!rest.contains(emoji)) by {
            if rest.contains(emoji) {
                let w = choose|w: int| 0 <= w < rest.len() && rest[w] == emoji;
                if rest.contains(facts.last().emoji) {
                    assert(emojis_in_order(facts)[w] == emoji);
                } else {
                    assert(emojis_in_order(facts)[w] == emoji);
                }
            }
        }
        lemma_count_zero_when_absent(facts.drop_last(), emoji);
    }
}

/// Every stored fact's emoji appears among the first-seen emoji groups.
pub proof fn lemma_emoji_in_order_of_fact(facts: Seq<ReactionFactView>, w: int)
    requires
        0 <= w < facts.len(),
    ensures
        emojis_in_order(facts).contains(facts[w].emoji),
    decreases facts.len(),
{
    let rest = emojis_in_order(facts.drop_last());
    if w == facts.len() - 1 {
        if rest.contains(facts.last().emoji) {
        } else {
            assert(emojis_in_order(facts)[emojis_in_order(facts).len() - 1] == facts.last().emoji);
        }
    } else {
        assert(facts.drop_last()[w] == facts[w]);
        lemma_emoji_in_order_of_fact(facts.drop_last(), w);
        let k = choose|k: int| 0 <= k < rest.len() && rest[k] == facts.drop_last()[w].emoji;
        assert(emojis_in_order(facts)[k] == facts[w].emoji);
    }
}



/// Removing a reaction fact that was never stored leaves the message as it
/// was: the removal is a no-op, not an error.
pub proof fn lemma_remove_reaction_absent_noop(m: MessageView, user_id: u128, emoji: Seq<char>)
    ensures
        !m.has_reaction(user_id, emoji) ==> without_reaction(m, user_id, emoji) == m,
{
}

/// Performing the same reaction addition twice leaves the channel in the same
/// state as performing it once: the second addition finds the fact present and
/// changes nothing.
pub proof fn lemma_add_reaction_twice(
    pre: ChannelView,
    message_id: u128,
    user_id: u128,
    emoji: Seq<char>,
)
    requires
        pre.wf(),
        has_msg(pre.msgs, message_id),
    ensures
        ({
            let i = msg_index(pre.msgs, message_id);
            let once = (ChannelView {
                msgs: pre.msgs.update(i, with_reaction(pre.msgs[i], user_id, emoji)),
                ..pre
            });
            &&& has_msg(once.msgs, message_id)
            &&& msg_index(once.msgs, message_id) == i
            &&& (ChannelView {
                msgs: once.msgs.update(i, with_reaction(once.msgs[i], user_id, emoji)),
                ..once
            }) == once
        }),
{
    lemma_msg_index_props(pre.msgs, message_id);
    let i = msg_index(pre.msgs, message_id);
    let once = (ChannelView {
        msgs: pre.msgs.update(i, with_reaction(pre.msgs[i], user_id, emoji)),
        ..pre
    });
    assert(once.msgs[i].id == message_id);
    assert(has_msg(once.msgs, message_id));
    assert forall|j: int| 0 <= j < i implies (#[trigger] once.msgs[j]).id != message_id by {
        assert(once.msgs[j] == pre.msgs[j]);
    }
    crate::ledger::lemma_msg_index_first(once.msgs, message_id, i);
    lemma_add_reaction_idempotent(pre.msgs[i], user_id, emoji);
    assert(with_reaction(once.msgs[i], user_id, emoji) == once.msgs[i]);
    assert(once.msgs.update(i, once.msgs[i]) =~= once.msgs);
    assert((ChannelView {
        msgs: once.msgs.update(i, with_reaction(once.msgs[i], user_id, emoji)),
        ..once
    }) =~= once);
}


} // verus!
