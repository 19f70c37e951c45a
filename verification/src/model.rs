//! Data model of the message ledger: messages with their reaction facts,
//! mentions and attachment metadata, the ordering key that totally orders
//! messages within a channel, and pagination cursors.
//!
//! Identifiers are 128-bit values; timestamps are milliseconds. The ordering
//! key of a message is the pair (creation time, identifier): identifiers break
//! ties because timestamps are not strictly increasing under concurrent
//! inserts.

use vstd::prelude::*;
use crate::wire::AttachmentType;

verus! {

/// A stored reaction fact: one user reacted to the enclosing message with one
/// emoji. The triple (message, user, emoji) is unique; facts are only appended
/// and deleted, never mutated.
#[derive(Debug)]
pub struct ReactionFact {
    pub user_id: u128,
    pub emoji: String,
}

#[verifier::ext_equal]
pub ghost struct ReactionFactView {
    pub user_id: u128,
    pub emoji: Seq<char>,
}

impl View for ReactionFact {
    type V = ReactionFactView;

    open spec fn view(&self) -> ReactionFactView {
        (ReactionFactView { user_id: self.user_id, emoji: self.emoji@ })
    }
}

impl Clone for ReactionFact {
    fn clone(&self) -> (res: Self)
        ensures
            res@ == self@,
    {
        ReactionFact { user_id: self.user_id, emoji: self.emoji.clone() }
    }
}

/// Attachment metadata; the binary payload lives with an external
/// collaborator and is out of this core's scope.
#[derive(Debug)]
pub struct Attachment {
    pub id: u128,
    pub attachment_type: AttachmentType,
    pub url: String,
    pub filename: String,
    pub size: u64,
    pub mime_type: String,
    pub width: Option<i32>,
    pub height: Option<i32>,
    pub duration: Option<i32>,
}

#[verifier::ext_equal]
pub ghost struct AttachmentView {
    pub id: u128,
    pub attachment_type: AttachmentType,
    pub url: Seq<char>,
    pub filename: Seq<char>,
    pub size: u64,
    pub mime_type: Seq<char>,
    pub width: Option<i32>,
    pub height: Option<i32>,
    pub duration: Option<i32>,
}

impl View for Attachment {
    type V = AttachmentView;

    open spec fn view(&self) -> AttachmentView {
        (AttachmentView {
            id: self.id,
            attachment_type: self.attachment_type,
            url: self.url@,
            filename: self.filename@,
            size: self.size,
            mime_type: self.mime_type@,
            width: self.width,
            height: self.height,
            duration: self.duration,
        })
    }
}

impl Clone for Attachment {
    fn clone(&self) -> (res: Self)
        ensures
            res@ == self@,
    {
        Attachment {
            id: self.id,
            attachment_type: self.attachment_type,
            url: self.url.clone(),
            filename: self.filename.clone(),
            size: self.size,
            mime_type: self.mime_type.clone(),
            width: self.width,
            height: self.height,
            duration: self.duration,
        }
    }
}

/// A message in a channel. `created_at` and `id` are immutable once assigned;
/// `content` and `edited_at` change on edit. Mentions are computed once at
/// creation from the content and never recomputed, not even by an edit.
#[derive(Debug)]
pub struct Message {
    pub id: u128,
    pub channel_id: u128,
    pub author_id: u128,
    pub content: String,
    pub is_pinned: bool,
    pub reply_to_id: Option<u128>,
    pub created_at: u64,
    pub edited_at: Option<u64>,
    pub mentions: Vec<u128>,
    pub reactions: Vec<ReactionFact>,
    pub attachments: Vec<Attachment>,
}

#[verifier::ext_equal]
pub ghost struct MessageView {
    pub id: u128,
    pub channel_id: u128,
    pub author_id: u128,
    pub content: Seq<char>,
    pub is_pinned: bool,
    pub reply_to_id: Option<u128>,
    pub created_at: u64,
    pub edited_at: Option<u64>,
    pub mentions: Seq<u128>,
    pub reactions: Seq<ReactionFactView>,
    pub attachments: Seq<AttachmentView>,
}

impl View for Message {
    type V = MessageView;

    open spec fn view(&self) -> MessageView {
        (MessageView {
            id: self.id,
            channel_id: self.channel_id,
            author_id: self.author_id,
            content: self.content@,
            is_pinned: self.is_pinned,
            reply_to_id: self.reply_to_id,
            created_at: self.created_at,
            edited_at: self.edited_at,
            mentions: self.mentions@,
            reactions: self.reactions.deep_view(),
            attachments: self.attachments.deep_view(),
        })
    }
}

impl DeepView for Message {
    type V = MessageView;

    open spec fn deep_view(&self) -> MessageView {
        self.view()
    }
}

impl DeepView for ReactionFact {
    type V = ReactionFactView;

    open spec fn deep_view(&self) -> ReactionFactView {
        self.view()
    }
}

impl DeepView for Attachment {
    type V = AttachmentView;

    open spec fn deep_view(&self) -> AttachmentView {
        self.view()
    }
}

impl MessageView {
    /// Well-formedness of one message: reaction triples and mention pairs are
    /// unique within the message.
    pub open spec fn wf(self) -> bool {
        &&& forall|p: int, q: int|
            0 <= p < q < self.reactions.len() ==> !(#[trigger] self.reactions[p].user_id
                == #[trigger] self.reactions[q].user_id && self.reactions[p].emoji
                == self.reactions[q].emoji)
        &&& forall|p: int, q: int|
            0 <= p < q < self.mentions.len() ==> #[trigger] self.mentions[p]
                != #[trigger] self.mentions[q]
    }

    /// Whether the given user has reacted to this message with the given emoji.
    pub open spec fn has_reaction(self, user_id: u128, emoji: Seq<char>) -> bool {
        exists|p: int|
            0 <= p < self.reactions.len() && (#[trigger] self.reactions[p]) == (ReactionFactView {
                user_id,
                emoji,
            })
    }
}

impl Clone for Message {
    fn clone(&self) -> (res: Self)
        ensures
            res@ == self@,
    {
        let res = Message {
            id: self.id,
            channel_id: self.channel_id,
            author_id: self.author_id,
            content: self.content.clone(),
            is_pinned: self.is_pinned,
            reply_to_id: self.reply_to_id,
            created_at: self.created_at,
            edited_at: self.edited_at,
            mentions: self.mentions.clone(),
            reactions: self.reactions.clone(),
            attachments: self.attachments.clone(),
        };
        proof {
            assert(res.mentions@ =~= self.mentions@);
            assert(res.reactions.deep_view() =~= self.reactions.deep_view());
            assert(res.attachments.deep_view() =~= self.attachments.deep_view());
        }
        res
    }
}

/// An aggregated, viewer-relative reaction summary for one emoji of one
/// message: the number of distinct users who reacted with the emoji, and
/// whether the viewer is among them.
#[derive(Debug)]
pub struct Reaction {
    pub emoji: String,
    pub count: u64,
    pub has_reacted: bool,
}

#[verifier::ext_equal]
pub ghost struct ReactionView {
    pub emoji: Seq<char>,
    pub count: u64,
    pub has_reacted: bool,
}

impl View for Reaction {
    type V = ReactionView;

    open spec fn view(&self) -> ReactionView {
        (ReactionView { emoji: self.emoji@, count: self.count, has_reacted: self.has_reacted })
    }
}

impl DeepView for Reaction {
    type V = ReactionView;

    open spec fn deep_view(&self) -> ReactionView {
        self.view()
    }
}

impl Clone for Reaction {
    fn clone(&self) -> (res: Self)
        ensures
            res@ == self@,
    {
        Reaction { emoji: self.emoji.clone(), count: self.count, has_reacted: self.has_reacted }
    }
}

/// An opaque pagination cursor: the ordering key of a message, used to resume
/// reading strictly on one side of that key.
#[derive(Clone, Copy, Debug, PartialEq, Eq, Structural)]
pub struct Cursor {
    pub created_at: u64,
    pub id: u128,
}

/// The strict total order on ordering keys: by creation time, identifiers
/// breaking ties.
pub open spec fn pair_lt(t1: u64, i1: u128, t2: u64, i2: u128) -> bool {
    t1 < t2 || (t1 == t2 && i1 < i2)
}

/// The ordering key of `a` is strictly below the ordering key of `b`.
pub open spec fn key_lt(a: MessageView, b: MessageView) -> bool {
    pair_lt(a.created_at, a.id, b.created_at, b.id)
}

/// Executable comparison of two ordering keys.
pub fn pair_lt_exec(t1: u64, i1: u128, t2: u64, i2: u128) -> (r: bool)
    ensures
        r == pair_lt(t1, i1, t2, i2),
{
    t1 < t2 || (t1 == t2 && i1 < i2)
}

/// First index in `msgs` holding the message with identifier `id`; meaningful
/// only when such a message exists.
pub open spec fn msg_index(msgs: Seq<MessageView>, id: u128) -> int
    decreases msgs.len(),
{
    if msgs.len() == 0 {
        0
    } else if msgs[0].id == id {
        0
    } else {
        1 + msg_index(msgs.skip(1), id)
    }
}

/// Whether `msgs` holds a message with identifier `id`.
pub open spec fn has_msg(msgs: Seq<MessageView>, id: u128) -> bool {
    exists|i: int| 0 <= i < msgs.len() && (#[trigger] msgs[i]).id == id
}

/// The number of leading messages of the ascending-sorted `msgs` whose
/// ordering key lies strictly below (t, id); this is where a message with
/// that key is inserted.
pub open spec fn insert_pos(msgs: Seq<MessageView>, t: u64, id: u128) -> int
    decreases msgs.len(),
{
    if msgs.len() == 0 {
        0
    } else if pair_lt(msgs[0].created_at, msgs[0].id, t, id) {
        1 + insert_pos(msgs.skip(1), t, id)
    } else {
        0
    }
}

} // verus!
