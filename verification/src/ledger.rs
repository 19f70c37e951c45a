//! The message ledger of one channel: append, edit and delete of messages,
//! with the channel's last-message pointer maintained in the same operation,
//! so that no caller ever observes a message without its pointer update or a
//! dangling pointer after a delete.

use vstd::prelude::*;
use crate::ChatError;
use crate::gate::AccessGate;
use crate::model::{Attachment, Message, MessageView, key_lt, pair_lt, pair_lt_exec, has_msg,
    msg_index, insert_pos};
use crate::requests::CreateChannelRequest;
use crate::strutil::{dedup, dedup_ids, lemma_dedup_properties};
use crate::wire::ChannelType;

verus! {

/// Messages of `msgs` are in strictly ascending ordering-key order.
pub open spec fn sorted_by_key(msgs: Seq<MessageView>) -> bool {
    forall|i: int, j: int|
        0 <= i < j < msgs.len() ==> key_lt(#[trigger] msgs[i], #[trigger] msgs[j])
}

/// No two messages of `msgs` share an identifier.
pub open spec fn unique_ids(msgs: Seq<MessageView>) -> bool {
    forall|i: int, j: int|
        0 <= i < j < msgs.len() ==> (#[trigger] msgs[i]).id != (#[trigger] msgs[j]).id
}

/// A channel and its message ledger. The messages are kept in ascending
/// ordering-key order; the last-message pointer always references the message
/// with the maximum ordering key, or is null when the channel is empty.
pub struct Channel {
    pub id: u128,
    pub server_id: u128,
    pub name: String,
    pub channel_type: ChannelType,
    pub topic: Option<String>,
    pub slow_mode: Option<i32>,
    pub is_private: bool,
    pub created_at: u64,
    pub msgs: Vec<Message>,
    pub last_message_id: Option<u128>,
}

#[verifier::ext_equal]
pub ghost struct ChannelView {
    pub id: u128,
    pub server_id: u128,
    pub name: Seq<char>,
    pub channel_type: ChannelType,
    pub topic: Option<Seq<char>>,
    pub slow_mode: Option<i32>,
    pub is_private: bool,
    pub created_at: u64,
    pub msgs: Seq<MessageView>,
    pub last_message_id: Option<u128>,
}

impl View for Channel {
    type V = ChannelView;

    open spec fn view(&self) -> ChannelView {
        (ChannelView {
            id: self.id,
            server_id: self.server_id,
            name: self.name@,
            channel_type: self.channel_type,
            topic: match self.topic {
                Some(ref t) => Some(t@),
                None => None,
            },
            slow_mode: self.slow_mode,
            is_private: self.is_private,
            created_at: self.created_at,
            msgs: self.msgs.deep_view(),
            last_message_id: self.last_message_id,
        })
    }
}

impl ChannelView {
    /// The pointer a well-formed channel must carry: null when the channel has
    /// no messages, else the identifier of the message with the maximum
    /// ordering key.
    pub open spec fn expected_pointer(self) -> Option<u128> {
        if self.msgs.len() == 0 {
            None
        } else {
            Some(self.msgs[self.msgs.len() - 1].id)
        }
    }

    /// Well-formedness of the ledger: every message belongs to this channel
    /// and is itself well formed, messages are strictly ordered by ordering
    /// key with unique identifiers, and the pointer is consistent.
    pub open spec fn wf(self) -> bool {
        &&& forall|i: int|
            0 <= i < self.msgs.len() ==> (#[trigger] self.msgs[i]).channel_id == self.id
        &&& forall|i: int| 0 <= i < self.msgs.len() ==> (#[trigger] self.msgs[i]).wf()
        &&& sorted_by_key(self.msgs)
        &&& unique_ids(self.msgs)
        &&& self.last_message_id == self.expected_pointer()
    }

    /// The channel with the message sequence replaced and the pointer
    /// recomputed; every other attribute as before.
    pub open spec fn with_msgs(self, msgs: Seq<MessageView>) -> ChannelView {
        (ChannelView {
            msgs,
            last_message_id: (ChannelView { msgs, ..self }).expected_pointer(),
            ..self
        })
    }
}

impl Channel {
    /// Creates an empty channel from a creation request. A new channel has no
    /// messages, so its pointer starts null.
    pub fn new(id: u128, server_id: u128, req: CreateChannelRequest, created_at: u64) -> (r:
        Channel)
        ensures
            r@.wf(),
            r@.id == id,
            r@.server_id == server_id,
            r@.name == req@.name,
            r@.channel_type == req@.channel_type,
            r@.topic == req@.topic,
            r@.slow_mode == None::<i32>,
            r@.is_private == (match req@.is_private {
                Some(p) => p,
                None => false,
            }),
            r@.created_at == created_at,
            r@.msgs == Seq::<MessageView>::empty(),
            r@.last_message_id == None::<u128>,
    {
        let is_private = match req.is_private {
            Some(p) => p,
            None => false,
        };
        let c = Channel {
            id,
            server_id,
            name: req.name,
            channel_type: req.channel_type,
            topic: req.topic,
            slow_mode: None,
            is_private,
            created_at,
            msgs: Vec::new(),
            last_message_id: None,
        };
        proof {
            assert(c.msgs.deep_view() =~= Seq::<MessageView>::empty());
        }
        c
    }

    /// Index of the message with the given identifier, if present.
    pub fn find_index(&self, message_id: u128) -> (r: Option<usize>)
        ensures
            match r {
                Some(i) => i < self@.msgs.len() && self@.msgs[i as int].id == message_id
                    && msg_index(self@.msgs, message_id) == i as int && has_msg(
                    self@.msgs,
                    message_id,
                ),
                None => !has_msg(self@.msgs, message_id),
            },
    {
        let mut i: usize = 0;
        while i < self.msgs.len()
            invariant
                i <= self.msgs@.len(),
                self.msgs@.len() == self@.msgs.len(),
                forall|j: int| 0 <= j < i ==> (#[trigger] self@.msgs[j]).id != message_id,
            decreases self.msgs@.len() - i,
        {
            if self.msgs[i].id == message_id {
                proof {
                    assert(self@.msgs[i as int].id == message_id);
                    lemma_msg_index_first(self@.msgs, message_id, i as int);
                }
                return Some(i);
            }
            proof {
                assert(self@.msgs[i as int].id == self.msgs@[i as int]@.id);
            }
            i = i + 1;
        }
        proof {
            assert(!has_msg(self@.msgs, message_id)) by {
                if has_msg(self@.msgs, message_id) {
                    let k = choose|k: int|
                        0 <= k < self@.msgs.len() && (#[trigger] self@.msgs[k]).id == message_id;
                }
            }
        }
        None
    }

    /// Sets the pointer to the given message, which must be the newest in the
    /// channel; invoked by the ledger when a message is appended at the top.
    fn advance(&mut self, message_id: u128)
        requires
            old(self)@.msgs.len() > 0,
            old(self)@.msgs[old(self)@.msgs.len() - 1].id == message_id,
        ensures
            final(self)@ == (ChannelView { last_message_id: Some(message_id), ..old(self)@ }),
            final(self)@.last_message_id == final(self)@.expected_pointer(),
    {
        self.last_message_id = Some(message_id);
    }

    /// Recomputes the pointer from the surviving messages: the maximum
    /// ordering key, or null when none remain; invoked by the ledger after a
    /// deletion.
    fn recede(&mut self)
        ensures
            final(self)@ == (ChannelView {
                last_message_id: final(self)@.last_message_id,
                ..old(self)@
            }),
            final(self)@.last_message_id == final(self)@.expected_pointer(),
    {
        if self.msgs.len() == 0 {
            self.last_message_id = None;
        } else {
            let last = self.msgs.len() - 1;
            self.last_message_id = Some(self.msgs[last].id);
        }
    }
}

/// If the identifiers before position `i` all differ from `id` and the message
/// at `i` carries `id`, then `i` is the first index of `id`.
pub proof fn lemma_msg_index_first(msgs: Seq<MessageView>, id: u128, i: int)
    requires
        0 <= i < msgs.len(),
        msgs[i].id == id,
        forall|j: int| 0 <= j < i ==> (#[trigger] msgs[j]).id != id,
    ensures
        msg_index(msgs, id) == i,
    decreases i,
{
    if i == 0 {
    } else {
        assert(msgs[0].id != id);
        lemma_msg_index_first(msgs.skip(1), id, i - 1);
        assert forall|j: int| 0 <= j < i - 1 implies (#[trigger] msgs.skip(1)[j]).id != id by {
            assert(msgs.skip(1)[j] == msgs[j + 1]);
        }
    }
}

/// For a sorted sequence, the insertion position of a key is the unique `p`
/// with everything before it strictly below the key and the element at it (if
/// any) not below the key.
pub proof fn lemma_insert_pos_of_sorted(msgs: Seq<MessageView>, t: u64, id: u128, p: int)
    requires
        sorted_by_key(msgs),
        0 <= p <= msgs.len(),
        forall|i: int| 0 <= i < p ==> pair_lt((#[trigger] msgs[i]).created_at, msgs[i].id, t, id),
        p < msgs.len() ==> !pair_lt(msgs[p].created_at, msgs[p].id, t, id),
    ensures
        insert_pos(msgs, t, id) == p,
    decreases msgs.len(),
{
    if msgs.len() == 0 {
    } else if p == 0 {
    } else {
        assert(pair_lt(msgs[0].created_at, msgs[0].id, t, id));
        let rest = msgs.skip(1);
        assert forall|i: int, j: int|
            0 <= i < j < rest.len() implies key_lt(#[trigger] rest[i], #[trigger] rest[j]) by {
            assert(rest[i] == msgs[i + 1]);
            assert(rest[j] == msgs[j + 1]);
        }
        assert forall|i: int| 0 <= i < p - 1 implies pair_lt(
            (#[trigger] rest[i]).created_at,
            rest[i].id,
            t,
            id,
        ) by {
            assert(rest[i] == msgs[i + 1]);
        }
        if p - 1 < rest.len() {
            assert(rest[p - 1] == msgs[p]);
        }
        lemma_insert_pos_of_sorted(rest, t, id, p - 1);
    }
}


/// The message record that an append with the given arguments creates: not
/// pinned, never edited, no reactions or attachments yet. The mention set is
/// the one the caller derived from the content at creation, with repeats
/// dropped; it never changes afterwards.
pub open spec fn new_msg_view(
    channel_id: u128,
    id: u128,
    author_id: u128,
    content: Seq<char>,
    reply_to_id: Option<u128>,
    created_at: u64,
    mentions: Seq<u128>,
) -> MessageView {
    (MessageView {
        id,
        channel_id,
        author_id,
        content,
        is_pinned: false,
        reply_to_id,
        created_at,
        edited_at: None,
        mentions: dedup(mentions),
        reactions: Seq::<crate::model::ReactionFactView>::empty(),
        attachments: Seq::<crate::model::AttachmentView>::empty(),
    })
}

/// Inserting a fresh, well-formed message of this channel at its sorted
/// position preserves the ledger invariant, and that position is the
/// insertion position of its ordering key.
pub proof fn lemma_insert_preserves_wf(pre: ChannelView, m: MessageView, p: int)
    requires
        pre.wf(),
        0 <= p <= pre.msgs.len(),
        m.channel_id == pre.id,
        m.wf(),
        !has_msg(pre.msgs, m.id),
        forall|i: int| 0 <= i < p ==> key_lt(#[trigger] pre.msgs[i], m),
        p < pre.msgs.len() ==> !key_lt(pre.msgs[p], m),
    ensures
        pre.with_msgs(pre.msgs.insert(p, m)).wf(),
        insert_pos(pre.msgs, m.created_at, m.id) == p,
{
    let s = pre.msgs.insert(p, m);
    let post = pre.with_msgs(s);
    pre.msgs.insert_ensures(p, m);
    // The new identifier differs from every stored one.
    assert forall|k: int| 0 <= k < pre.msgs.len() implies (#[trigger] pre.msgs[k]).id != m.id by {
        if pre.msgs[k].id == m.id {
            assert(has_msg(pre.msgs, m.id));
        }
    }
    // The element at the insertion position, if any, lies strictly above the key.
    if p < pre.msgs.len() {
        assert(key_lt(m, pre.msgs[p])) by {
            assert(pre.msgs[p].id != m.id);
        }
    }
    // Index bookkeeping for the shifted sequence.
    assert forall|k: int| 0 <= k < s.len() implies #[trigger] s[k] == (if k < p {
        pre.msgs[k]
    } else if k == p {
        m
    } else {
        pre.msgs[k - 1]
    }) by {
        if k < p {
        } else if k == p {
        } else {
            assert(s[(k - 1) + 1] == pre.msgs[k - 1]);
        }
    }
    assert forall|i: int, j: int| 0 <= i < j < s.len() implies key_lt(
        #[trigger] s[i],
        #[trigger] s[j],
    ) && s[i].id != s[j].id by {
        if i < p && j < p {
        } else if i < p && j == p {
        } else if i == p && j > p {
            assert(key_lt(m, pre.msgs[p]));
            if j - 1 > p {
                assert(key_lt(pre.msgs[p], pre.msgs[j - 1]));
            }
        } else if i < p && j > p {
            assert(key_lt(pre.msgs[i], m));
            assert(key_lt(m, s[j]));
        } else {
            assert(key_lt(pre.msgs[i - 1], pre.msgs[j - 1]));
        }
        assert(key_lt(s[i], s[j]));
    }
    assert(post.wf());
    lemma_insert_pos_of_sorted(pre.msgs, m.created_at, m.id, p);
}

impl Channel {
    /// Appends a message with a caller-chosen identifier. Fails `Forbidden`
    /// when the author may not write in this channel's server, `NotFound` when
    /// the reply target is not a message of this channel, and `Conflict` when
    /// the identifier is already taken; in every failure the channel is
    /// unchanged. On success the message is inserted at its ordering-key
    /// position and the pointer is updated in the same operation.
    pub fn append_with_id(
        &mut self,
        gate: &AccessGate,
        id: u128,
        author_id: u128,
        content: String,
        reply_to_id: Option<u128>,
        created_at: u64,
        mentions: Vec<u128>,
    ) -> (r: Result<(), ChatError>)
        requires
            old(self)@.wf(),
        ensures
            final(self)@.wf(),
            ({
                let pre = old(self)@;
                let m = new_msg_view(
                    pre.id,
                    id,
                    author_id,
                    content@,
                    reply_to_id,
                    created_at,
                    mentions@,
                );
                if !gate@.can_write(author_id, pre.server_id) {
                    r == Err::<(), ChatError>(ChatError::Forbidden) && final(self)@ == pre
                } else if reply_to_id matches Some(rid) && !has_msg(pre.msgs, rid) {
                    r == Err::<(), ChatError>(ChatError::NotFound) && final(self)@ == pre
                } else if has_msg(pre.msgs, id) {
                    r == Err::<(), ChatError>(ChatError::Conflict) && final(self)@ == pre
                } else {
                    r == Ok::<(), ChatError>(()) && final(self)@ == pre.with_msgs(
                        pre.msgs.insert(insert_pos(pre.msgs, created_at, id), m),
                    )
                }
            }),
    {
        if !gate.can_write_channel(author_id, self.server_id) {
            return Err(ChatError::Forbidden);
        }
        match reply_to_id {
            Some(rid) => {
                if self.find_index(rid).is_none() {
                    return Err(ChatError::NotFound);
                }
            },
            None => {},
        }
        if self.find_index(id).is_some() {
            return Err(ChatError::Conflict);
        }
        let ghost pre = self@;
        let mut p: usize = 0;
        while p < self.msgs.len() && pair_lt_exec(
            self.msgs[p].created_at,
            self.msgs[p].id,
            created_at,
            id,
        )
            invariant
                self@ == pre,
                pre.wf(),
                p <= pre.msgs.len(),
                self.msgs@.len() == pre.msgs.len(),
                forall|i: int| 0 <= i < p ==> key_lt(#[trigger] pre.msgs[i], (MessageView {
                    created_at,
                    id,
                    ..pre.msgs[i]
                })),
            decreases pre.msgs.len() - p,
        {
            proof {
                assert(pre.msgs[p as int] == self.msgs@[p as int]@);
            }
            p = p + 1;
        }
        let mentions_unique = dedup_ids(&mentions);
        proof {
            lemma_dedup_properties(mentions@);
        }
        let m = Message {
            id,
            channel_id: self.id,
            author_id,
            content,
            is_pinned: false,
            reply_to_id,
            created_at,
            edited_at: None,
            mentions: mentions_unique,
            reactions: Vec::new(),
            attachments: Vec::new(),
        };
        let ghost mv = new_msg_view(pre.id, id, author_id, m.content@, reply_to_id, created_at,
            mentions@);
        proof {
            assert(m.reactions.deep_view() =~= Seq::<crate::model::ReactionFactView>::empty());
            assert(m.attachments.deep_view() =~= Seq::<crate::model::AttachmentView>::empty());
            assert(m@ =~= mv);
            assert forall|i: int| 0 <= i < p implies key_lt(#[trigger] pre.msgs[i], mv) by {
                assert(key_lt(pre.msgs[i], (MessageView { created_at, id, ..pre.msgs[i] })));
            }
            if (p as int) < pre.msgs.len() {
                assert(!key_lt(pre.msgs[p as int], mv)) by {
                    assert(pre.msgs[p as int] == self.msgs@[p as int]@);
                }
            }
            lemma_insert_preserves_wf(pre, mv, p as int);
        }
        self.msgs.insert(p, m);
        proof {
            assert(self.msgs.deep_view() =~= pre.msgs.insert(p as int, mv)) by {
                pre.msgs.insert_ensures(p as int, mv);
                assert forall|k: int|
                    0 <= k < self.msgs.deep_view().len() implies self.msgs.deep_view()[k]
                    == pre.msgs.insert(p as int, mv)[k] by {
                    if k < p {
                        assert(self.msgs@[k] == old(self).msgs@[k]);
                    } else if k == p {
                    } else {
                        assert(self.msgs@[k] == old(self).msgs@[k - 1]);
                    }
                }
            }
        }
        let n = self.msgs.len();
        let newest = self.msgs[n - 1].id;
        proof {
            assert(self@.msgs[self@.msgs.len() - 1].id == self.msgs@[n - 1]@.id);
        }
        self.advance(newest);
        proof {
            assert(final(self)@ =~= pre.with_msgs(pre.msgs.insert(insert_pos(pre.msgs, created_at,
                id), mv)));
        }
        Ok(())
    }
}



/// The message with its reply reference cleared when it pointed at `id`;
/// unchanged otherwise.
pub open spec fn without_reply_to(m: MessageView, id: u128) -> MessageView {
    if m.reply_to_id == Some(id) {
        (MessageView { reply_to_id: None, ..m })
    } else {
        m
    }
}

/// Every message of `msgs` with its reply reference to `id` cleared, so no
/// reply pointer dangles once the message with that identifier is gone.
pub open spec fn clear_replies(msgs: Seq<MessageView>, id: u128) -> Seq<MessageView> {
    Seq::new(msgs.len(), |k: int| without_reply_to(msgs[k], id))
}

/// Clearing reply references changes no identifier, ordering key, reaction,
/// mention or attachment, so the ledger invariant and the pointer survive.
pub proof fn lemma_clear_replies_preserves_wf(pre: ChannelView, id: u128)
    requires
        pre.wf(),
    ensures
        pre.with_msgs(clear_replies(pre.msgs, id)).wf(),
        pre.with_msgs(clear_replies(pre.msgs, id)).last_message_id == pre.last_message_id,
{
    let s = clear_replies(pre.msgs, id);
    assert forall|k: int| 0 <= k < s.len() implies ((#[trigger] s[k]).channel_id == pre.id
        && s[k].wf() && s[k].id == pre.msgs[k].id && s[k].created_at
        == pre.msgs[k].created_at) by {
        assert(s[k] == without_reply_to(pre.msgs[k], id));
        assert(pre.msgs[k].channel_id == pre.id);
        assert(pre.msgs[k].wf());
    }
    assert forall|p: int, q: int| 0 <= p < q < s.len() implies key_lt(
        #[trigger] s[p],
        #[trigger] s[q],
    ) && s[p].id != s[q].id by {
        assert(key_lt(pre.msgs[p], pre.msgs[q]));
    }
    if s.len() > 0 {
        assert(s[s.len() - 1].id == pre.msgs[pre.msgs.len() - 1].id);
    }
}

/// Removing any message of a well-formed channel preserves the ledger
/// invariant; the removed message's reactions, mentions and attachments go
/// with it, and the pointer is recomputed.
pub proof fn lemma_remove_preserves_wf(pre: ChannelView, i: int)
    requires
        pre.wf(),
        0 <= i < pre.msgs.len(),
    ensures
        pre.with_msgs(pre.msgs.remove(i)).wf(),
{
    let s = pre.msgs.remove(i);
    pre.msgs.remove_ensures(i);
    assert forall|k: int| 0 <= k < s.len() implies #[trigger] s[k] == (if k < i {
        pre.msgs[k]
    } else {
        pre.msgs[k + 1]
    }) by {}
    assert forall|p: int, q: int| 0 <= p < q < s.len() implies key_lt(
        #[trigger] s[p],
        #[trigger] s[q],
    ) && s[p].id != s[q].id by {
        let p0 = if p < i { p } else { p + 1 };
        let q0 = if q < i { q } else { q + 1 };
        assert(key_lt(pre.msgs[p0], pre.msgs[q0]));
    }
}

/// Replacing the content and edit time of one message leaves its ordering key
/// in place, so the ledger invariant and the pointer survive unchanged.
pub proof fn lemma_edit_preserves_wf(pre: ChannelView, i: int, m: MessageView)
    requires
        pre.wf(),
        0 <= i < pre.msgs.len(),
        m == (MessageView { content: m.content, edited_at: m.edited_at, ..pre.msgs[i] }),
    ensures
        (ChannelView { msgs: pre.msgs.update(i, m), ..pre }).wf(),
{
    let s = pre.msgs.update(i, m);
    assert(m.created_at == pre.msgs[i].created_at && m.id == pre.msgs[i].id);
    assert(m.wf()) by {
        assert(pre.msgs[i].wf());
    }
    assert forall|p: int, q: int| 0 <= p < q < s.len() implies key_lt(
        #[trigger] s[p],
        #[trigger] s[q],
    ) && s[p].id != s[q].id by {
        assert(key_lt(pre.msgs[p], pre.msgs[q]));
    }
    assert(s.len() == pre.msgs.len());
    assert(s[s.len() - 1].id == pre.msgs[pre.msgs.len() - 1].id);
}

/// When the appended message's ordering key lies above every stored one — the
/// common case of a monotonic clock — the message is appended at the top and
/// the pointer lands on the new message itself, as the pointer invariant
/// demands of the maximum ordering key.
pub proof fn lemma_append_newest_sets_pointer(pre: ChannelView, m: MessageView)
    requires
        pre.wf(),
        forall|i: int| 0 <= i < pre.msgs.len() ==> key_lt(#[trigger] pre.msgs[i], m),
    ensures
        insert_pos(pre.msgs, m.created_at, m.id) == pre.msgs.len(),
        pre.with_msgs(
            pre.msgs.insert(insert_pos(pre.msgs, m.created_at, m.id), m),
        ).last_message_id == Some(m.id),
{
    let n = pre.msgs.len() as int;
    assert forall|i: int| 0 <= i < n implies pair_lt(
        (#[trigger] pre.msgs[i]).created_at,
        pre.msgs[i].id,
        m.created_at,
        m.id,
    ) by {
        assert(key_lt(pre.msgs[i], m));
    }
    lemma_insert_pos_of_sorted(pre.msgs, m.created_at, m.id, n);
    pre.msgs.insert_ensures(n, m);
    assert(pre.msgs.insert(n, m)[n] == m);
}

/// Pointer invariant of a well-formed channel: the pointer is null exactly
/// when the channel holds no messages; otherwise it references the message
/// with the maximum ordering key among the survivors.
pub proof fn lemma_pointer_invariant(c: ChannelView)
    requires
        c.wf(),
    ensures
        (c.last_message_id matches Some(id)) <==> c.msgs.len() > 0,
        c.msgs.len() > 0 ==> c.last_message_id == Some(c.msgs[c.msgs.len() - 1].id),
        c.msgs.len() > 0 ==> forall|i: int|
            0 <= i < c.msgs.len() - 1 ==> key_lt(#[trigger] c.msgs[i], c.msgs[c.msgs.len() - 1]),
{
}

/// Deleting the message the pointer references moves the pointer to the
/// next-latest remaining message by ordering key, or to null if it was the
/// only message; there is no state in between.
pub proof fn lemma_delete_recomputes_pointer(pre: ChannelView, i: int)
    requires
        pre.wf(),
        0 <= i < pre.msgs.len(),
        pre.last_message_id == Some(pre.msgs[i].id),
    ensures
        i == pre.msgs.len() - 1,
        ({
            let post = pre.with_msgs(clear_replies(pre.msgs.remove(i), pre.msgs[i].id));
            &&& (pre.msgs.len() == 1 ==> post.last_message_id is None)
            &&& (pre.msgs.len() > 1 ==> post.last_message_id == Some(
                pre.msgs[pre.msgs.len() - 2].id,
            ))
        }),
{
    let n = pre.msgs.len() as int;
    assert(i == n - 1) by {
        if i < n - 1 {
            assert(pre.msgs[i].id != pre.msgs[n - 1].id);
        }
    }
    pre.msgs.remove_ensures(i);
    let cleared = clear_replies(pre.msgs.remove(i), pre.msgs[i].id);
    assert(cleared.len() == n - 1);
    if n > 1 {
        assert(pre.msgs.remove(i)[n - 2] == pre.msgs[n - 2]);
        assert(cleared[n - 2] == without_reply_to(pre.msgs.remove(i)[n - 2], pre.msgs[i].id));
        assert(cleared[n - 2].id == pre.msgs[n - 2].id);
    }
}

impl Channel {
    /// Appends a message under a freshly drawn identifier and reports that
    /// identifier. The identifier comes from the machine's entropy, so a
    /// collision with a stored message cannot be ruled out; it surfaces as
    /// `Conflict` with the channel unchanged, and a caller may retry.
    pub fn append(
        &mut self,
        gate: &AccessGate,
        author_id: u128,
        content: String,
        reply_to_id: Option<u128>,
        created_at: u64,
        mentions: Vec<u128>,
    ) -> (r: Result<u128, ChatError>)
        requires
            old(self)@.wf(),
        ensures
            final(self)@.wf(),
            ({
                let pre = old(self)@;
                if !gate@.can_write(author_id, pre.server_id) {
                    r == Err::<u128, ChatError>(ChatError::Forbidden) && final(self)@ == pre
                } else if reply_to_id matches Some(rid) && !has_msg(pre.msgs, rid) {
                    r == Err::<u128, ChatError>(ChatError::NotFound) && final(self)@ == pre
                } else {
                    &&& (r matches Ok(id) ==> !has_msg(pre.msgs, id) && final(self)@
                        == pre.with_msgs(
                        pre.msgs.insert(
                            insert_pos(pre.msgs, created_at, id),
                            new_msg_view(
                                pre.id,
                                id,
                                author_id,
                                content@,
                                reply_to_id,
                                created_at,
                                mentions@,
                            ),
                        ),
                    ))
                    &&& (r matches Err(e) ==> e == ChatError::Conflict && final(self)@ == pre
                        && pre.msgs.len() > 0)
                }
            }),
    {
        let id = crate::ambient::fresh_id();
        match self.append_with_id(gate, id, author_id, content, reply_to_id, created_at, mentions) {
            Ok(_) => Ok(id),
            Err(e) => Err(e),
        }
    }

    /// Replaces a message's content and stamps the edit time. Fails `NotFound`
    /// when no message carries the identifier and `Forbidden` unless the
    /// editor is the original author; the channel is unchanged then. The
    /// creation time, identifier and mention set never change, so the
    /// message's position and the pointer stay as they were.
    pub fn edit(&mut self, message_id: u128, editor_id: u128, new_content: String, now: u64) -> (r:
        Result<(), ChatError>)
        requires
            old(self)@.wf(),
        ensures
            final(self)@.wf(),
            ({
                let pre = old(self)@;
                if !has_msg(pre.msgs, message_id) {
                    r == Err::<(), ChatError>(ChatError::NotFound) && final(self)@ == pre
                } else if pre.msgs[msg_index(pre.msgs, message_id)].author_id != editor_id {
                    r == Err::<(), ChatError>(ChatError::Forbidden) && final(self)@ == pre
                } else {
                    r == Ok::<(), ChatError>(()) && final(self)@ == (ChannelView {
                        msgs: pre.msgs.update(
                            msg_index(pre.msgs, message_id),
                            (MessageView {
                                content: new_content@,
                                edited_at: Some(now),
                                ..pre.msgs[msg_index(pre.msgs, message_id)]
                            }),
                        ),
                        ..pre
                    })
                }
            }),
    {
        let found = self.find_index(message_id);
        let i = match found {
            None => {
                return Err(ChatError::NotFound);
            },
            Some(i) => i,
        };
        if self.msgs[i].author_id != editor_id {
            proof {
                assert(self@.msgs[i as int].author_id == self.msgs@[i as int]@.author_id);
            }
            return Err(ChatError::Forbidden);
        }
        let ghost pre = self@;
        let mut m = self.msgs[i].clone();
        m.content = new_content;
        m.edited_at = Some(now);
        let ghost mv = m@;
        self.msgs.set(i, m);
        proof {
            assert(mv == (MessageView {
                content: mv.content,
                edited_at: mv.edited_at,
                ..pre.msgs[i as int]
            }));
            lemma_edit_preserves_wf(pre, i as int, mv);
            assert(self.msgs.deep_view() =~= pre.msgs.update(i as int, mv)) by {
                assert forall|k: int|
                    0 <= k < self.msgs.deep_view().len() implies self.msgs.deep_view()[k]
                    == pre.msgs.update(i as int, mv)[k] by {
                    if k != i {
                        assert(self.msgs@[k] == old(self).msgs@[k]);
                    }
                }
            }
            assert(final(self)@ =~= (ChannelView {
                msgs: pre.msgs.update(i as int, mv),
                ..pre
            }));
        }
        Ok(())
    }

    /// Deletes a message. Fails `NotFound` when no message carries the
    /// identifier and `Forbidden` unless the actor authored it or can moderate
    /// the channel; the channel is unchanged then. On success the message goes
    /// away together with its reactions, mentions and attachments, every
    /// surviving message that replied to it has its reply reference cleared,
    /// and the pointer is recomputed, all in the same operation: neither the
    /// pointer nor a reply reference ever dangles.
    #[verifier::loop_isolation(false)]
    pub fn delete(&mut self, gate: &AccessGate, message_id: u128, actor_id: u128) -> (r: Result<
        (),
        ChatError,
    >)
        requires
            old(self)@.wf(),
        ensures
            final(self)@.wf(),
            ({
                let pre = old(self)@;
                if !has_msg(pre.msgs, message_id) {
                    r == Err::<(), ChatError>(ChatError::NotFound) && final(self)@ == pre
                } else if !(pre.msgs[msg_index(pre.msgs, message_id)].author_id == actor_id
                    || gate@.can_moderate(actor_id, pre.server_id)) {
                    r == Err::<(), ChatError>(ChatError::Forbidden) && final(self)@ == pre
                } else {
                    r == Ok::<(), ChatError>(()) && final(self)@ == pre.with_msgs(
                        clear_replies(pre.msgs.remove(msg_index(pre.msgs, message_id)), message_id),
                    )
                }
            }),
    {
        let found = self.find_index(message_id);
        let i = match found {
            None => {
                return Err(ChatError::NotFound);
            },
            Some(i) => i,
        };
        let authored = self.msgs[i].author_id == actor_id;
        proof {
            assert(self@.msgs[i as int].author_id == self.msgs@[i as int]@.author_id);
        }
        if !authored && !gate.can_moderate(actor_id, self.server_id) {
            return Err(ChatError::Forbidden);
        }
        let ghost pre = self@;
        self.msgs.remove(i);
        proof {
            lemma_remove_preserves_wf(pre, i as int);
            assert(self.msgs.deep_view() =~= pre.msgs.remove(i as int)) by {
                pre.msgs.remove_ensures(i as int);
                assert forall|k: int|
                    0 <= k < self.msgs.deep_view().len() implies self.msgs.deep_view()[k]
                    == pre.msgs.remove(i as int)[k] by {
                    if k < i {
                        assert(self.msgs@[k] == old(self).msgs@[k]);
                    } else {
                        assert(self.msgs@[k] == old(self).msgs@[k + 1]);
                    }
                }
            }
        }
        self.recede();
        let ghost base = pre.msgs.remove(i as int);
        let ghost mid = self@;
        proof {
            assert(mid =~= pre.with_msgs(base));
        }
        // Clear the reply references that pointed at the deleted message.
        let n = self.msgs.len();
        let mut j: usize = 0;
        while j < n
            invariant
                j <= n,
                n == base.len(),
                self.msgs@.len() == base.len(),
                (ChannelView { msgs: base, ..self@ }) =~= mid,
                forall|k: int|
                    0 <= k < j ==> #[trigger] self@.msgs[k] == without_reply_to(
                        base[k],
                        message_id,
                    ),
                forall|k: int| j <= k < base.len() ==> #[trigger] self@.msgs[k] == base[k],
            decreases n - j,
        {
            let replied = match self.msgs[j].reply_to_id {
                Some(rid) => rid == message_id,
                None => false,
            };
            proof {
                assert(self@.msgs[j as int] == self.msgs@[j as int]@);
            }
            if replied {
                let ghost beforev = self.msgs@;
                let ghost beforedv = self@.msgs;
                let mut m = self.msgs[j].clone();
                m.reply_to_id = None;
                let ghost mv = m@;
                self.msgs.set(j, m);
                proof {
                    assert(mv =~= without_reply_to(base[j as int], message_id));
                    assert forall|k: int|
                        0 <= k < j + 1 implies #[trigger] self@.msgs[k] == without_reply_to(
                        base[k],
                        message_id,
                    ) by {
                        if k < j {
                            assert(self.msgs@[k] == beforev[k]);
                            assert(beforev[k].deep_view() == beforedv[k]);
                        }
                    }
                    assert forall|k: int|
                        j + 1 <= k < base.len() implies #[trigger] self@.msgs[k] == base[k] by {
                        assert(self.msgs@[k] == beforev[k]);
                        assert(beforev[k].deep_view() == beforedv[k]);
                    }
                    assert((ChannelView { msgs: base, ..self@ }) =~= mid);
                }
            } else {
                proof {
                    assert(self@.msgs[j as int] == without_reply_to(base[j as int], message_id));
                }
            }
            j = j + 1;
        }
        proof {
            assert(self@.msgs =~= clear_replies(base, message_id));
            lemma_clear_replies_preserves_wf(mid, message_id);
            assert(final(self)@ =~= mid.with_msgs(clear_replies(base, message_id)));
            assert(final(self)@ =~= pre.with_msgs(clear_replies(base, message_id)));
        }
        Ok(())
    }

    /// Pins or unpins a message. Fails `NotFound` when no message carries the
    /// identifier; nothing else changes.
    pub fn set_pinned(&mut self, message_id: u128, pinned: bool) -> (r: Result<(), ChatError>)
        requires
            old(self)@.wf(),
        ensures
            final(self)@.wf(),
            ({
                let pre = old(self)@;
                if !has_msg(pre.msgs, message_id) {
                    r == Err::<(), ChatError>(ChatError::NotFound) && final(self)@ == pre
                } else {
                    r == Ok::<(), ChatError>(()) && final(self)@ == (ChannelView {
                        msgs: pre.msgs.update(
                            msg_index(pre.msgs, message_id),
                            (MessageView {
                                is_pinned: pinned,
                                ..pre.msgs[msg_index(pre.msgs, message_id)]
                            }),
                        ),
                        ..pre
                    })
                }
            }),
    {
        let found = self.find_index(message_id);
        let i = match found {
            None => {
                return Err(ChatError::NotFound);
            },
            Some(i) => i,
        };
        let ghost pre = self@;
        let mut m = self.msgs[i].clone();
        m.is_pinned = pinned;
        let ghost mv = m@;
        self.msgs.set(i, m);
        proof {
            let s = pre.msgs.update(i as int, mv);
            assert(mv.wf()) by {
                assert(pre.msgs[i as int].wf());
            }
            assert forall|p: int, q: int| 0 <= p < q < s.len() implies key_lt(
                #[trigger] s[p],
                #[trigger] s[q],
            ) && s[p].id != s[q].id by {
                assert(key_lt(pre.msgs[p], pre.msgs[q]));
            }
            assert(self.msgs.deep_view() =~= s) by {
                assert forall|k: int|
                    0 <= k < self.msgs.deep_view().len() implies self.msgs.deep_view()[k] == s[k] by {
                    if k != i {
                        assert(self.msgs@[k] == old(self).msgs@[k]);
                    }
                }
            }
            assert(final(self)@ =~= (ChannelView { msgs: s, ..pre }));
            assert(s[s.len() - 1].id == pre.msgs[pre.msgs.len() - 1].id);
        }
        Ok(())
    }

    /// Applies a channel-attribute update: each supplied field replaces the
    /// stored one, absent fields are left alone. Messages and the pointer are
    /// untouched.
    pub fn update(&mut self, req: crate::requests::UpdateChannelRequest)
        requires
            old(self)@.wf(),
        ensures
            final(self)@.wf(),
            final(self)@ == (ChannelView {
                name: (match req@.name {
                    Some(n) => n,
                    None => old(self)@.name,
                }),
                topic: (match req@.topic {
                    Some(t) => Some(t),
                    None => old(self)@.topic,
                }),
                slow_mode: (match req@.slow_mode {
                    Some(s) => Some(s),
                    None => old(self)@.slow_mode,
                }),
                ..old(self)@
            }),
    {
        match req.name {
            Some(n) => {
                self.name = n;
            },
            None => {},
        }
        match req.topic {
            Some(t) => {
                self.topic = Some(t);
            },
            None => {},
        }
        match req.slow_mode {
            Some(s) => {
                self.slow_mode = Some(s);
            },
            None => {},
        }
        proof {
            assert(final(self)@.msgs =~= old(self)@.msgs);
        }
    }
}



/// Sets up a server: records its owner among the access facts and makes the
/// default "general" text channel for the caller. Fails `Conflict` when the
/// server identifier is already in use; nothing changes then.
pub fn create_server(
    gate: &mut AccessGate,
    server_id: u128,
    owner_id: u128,
    general_channel_id: u128,
    now: u64,
) -> (r: Result<Channel, ChatError>)
    requires
        old(gate)@.wf(),
    ensures
        final(gate)@.wf(),
        old(gate)@.has_server(server_id) ==> (r matches Err(e) && e == ChatError::Conflict
            && final(gate)@ == old(gate)@),
        !old(gate)@.has_server(server_id) ==> (final(gate)@.owners == old(gate)@.owners.push(
            (crate::gate::ServerOwner { server_id, owner_id }),
        ) && final(gate)@.members == old(gate)@.members && (r matches Ok(c) && c@.wf() && c@.id
            == general_channel_id && c@.server_id == server_id && c@.name == "general"@
            && c@.channel_type == ChannelType::Text && c@.topic == None::<Seq<char>>
            && c@.slow_mode == None::<i32> && c@.is_private == false && c@.created_at == now
            && c@.msgs == Seq::<MessageView>::empty() && c@.last_message_id == None::<u128>)),
{
    match gate.add_server(server_id, owner_id) {
        Err(e) => Err(e),
        Ok(_) => {
            let req = CreateChannelRequest {
                name: "general".to_owned(),
                channel_type: ChannelType::Text,
                topic: None,
                is_private: None,
            };
            Ok(Channel::new(general_channel_id, server_id, req, now))
        },
    }
}



/// Whether the message already carries an attachment with the identifier.
pub open spec fn has_attachment(m: MessageView, attachment_id: u128) -> bool {
    exists|p: int| 0 <= p < m.attachments.len() && (#[trigger] m.attachments[p]).id
        == attachment_id
}

impl Channel {
    /// Stores attachment metadata on a message; the binary payload lives with
    /// an external collaborator. Fails `NotFound` when no message carries the
    /// identifier and `Conflict` when the attachment identifier is already
    /// taken on that message; nothing changes then.
    pub fn add_attachment(&mut self, message_id: u128, attachment: Attachment) -> (r: Result<
        (),
        ChatError,
    >)
        requires
            old(self)@.wf(),
        ensures
            final(self)@.wf(),
            ({
                let pre = old(self)@;
                if !has_msg(pre.msgs, message_id) {
                    r == Err::<(), ChatError>(ChatError::NotFound) && final(self)@ == pre
                } else if has_attachment(pre.msgs[msg_index(pre.msgs, message_id)], attachment@.id) {
                    r == Err::<(), ChatError>(ChatError::Conflict) && final(self)@ == pre
                } else {
                    r == Ok::<(), ChatError>(()) && final(self)@ == (ChannelView {
                        msgs: pre.msgs.update(
                            msg_index(pre.msgs, message_id),
                            (MessageView {
                                attachments: pre.msgs[msg_index(
                                    pre.msgs,
                                    message_id,
                                )].attachments.push(attachment@),
                                ..pre.msgs[msg_index(pre.msgs, message_id)]
                            }),
                        ),
                        ..pre
                    })
                }
            }),
    {
        let found = self.find_index(message_id);
        let i = match found {
            None => {
                return Err(ChatError::NotFound);
            },
            Some(i) => i,
        };
        let ghost pre = self@;
        let n = self.msgs[i].attachments.len();
        let mut k: usize = 0;
        while k < n
            invariant
                self@ == pre,
                pre == old(self)@,
                pre.wf(),
                i < pre.msgs.len(),
                has_msg(pre.msgs, message_id),
                msg_index(pre.msgs, message_id) == i as int,
                n == pre.msgs[i as int].attachments.len(),
                k <= n,
                forall|j: int|
                    0 <= j < k ==> (#[trigger] pre.msgs[i as int].attachments[j]).id
                        != attachment.id,
            decreases n - k,
        {
            proof {
                assert(pre.msgs[i as int].attachments[k as int]
                    == self.msgs@[i as int].attachments@[k as int]@);
            }
            if self.msgs[i].attachments[k].id == attachment.id {
                proof {
                    assert(has_attachment(pre.msgs[i as int], attachment@.id));
                }
                return Err(ChatError::Conflict);
            }
            k = k + 1;
        }
        proof {
            assert(!has_attachment(pre.msgs[i as int], attachment@.id)) by {
                if has_attachment(pre.msgs[i as int], attachment@.id) {
                    let w = choose|w: int|
                        0 <= w < pre.msgs[i as int].attachments.len() && (#[trigger] pre.msgs[
                            i as int
                        ].attachments[w]).id == attachment@.id;
                }
            }
        }
        let ghost av = attachment@;
        let mut m = self.msgs[i].clone();
        m.attachments.push(attachment);
        let ghost mv = m@;
        let ghost before = self.msgs@;
        self.msgs.set(i, m);
        proof {
            let target = (MessageView {
                attachments: pre.msgs[i as int].attachments.push(av),
                ..pre.msgs[i as int]
            });
            assert(mv =~= target) by {
                assert(mv.attachments =~= pre.msgs[i as int].attachments.push(av));
            }
            let s = pre.msgs.update(i as int, target);
            assert(target.wf()) by {
                assert(pre.msgs[i as int].wf());
            }
            assert forall|p: int, q: int| 0 <= p < q < s.len() implies key_lt(
                #[trigger] s[p],
                #[trigger] s[q],
            ) && s[p].id != s[q].id by {
                assert(key_lt(pre.msgs[p], pre.msgs[q]));
            }
            assert(self.msgs.deep_view() =~= s) by {
                assert forall|w: int|
                    0 <= w < self.msgs.deep_view().len() implies self.msgs.deep_view()[w]
                    == s[w] by {
                    if w != i {
                        assert(self.msgs@[w] == before[w]);
                        assert(before[w].deep_view() == pre.msgs[w]);
                    }
                }
            }
            assert(s[s.len() - 1].id == pre.msgs[pre.msgs.len() - 1].id);
            assert(self@ =~= (ChannelView { msgs: s, ..pre }));
        }
        Ok(())
    }
}


} // verus!
