//! Plain request values that callers hand to the core's operations. The
//! excluded API layer deserializes into these shapes; the core only ever sees
//! the plain values.

use vstd::prelude::*;
use crate::wire::ChannelType;

verus! {

/// A request to create a channel in a server.
pub struct CreateChannelRequest {
    pub name: String,
    pub channel_type: ChannelType,
    pub topic: Option<String>,
    pub is_private: Option<bool>,
}

#[verifier::ext_equal]
pub ghost struct CreateChannelRequestView {
    pub name: Seq<char>,
    pub channel_type: ChannelType,
    pub topic: Option<Seq<char>>,
    pub is_private: Option<bool>,
}

impl View for CreateChannelRequest {
    type V = CreateChannelRequestView;

    open spec fn view(&self) -> CreateChannelRequestView {
        (CreateChannelRequestView {
            name: self.name@,
            channel_type: self.channel_type,
            topic: match self.topic {
                Some(ref t) => Some(t@),
                None => None,
            },
            is_private: self.is_private,
        })
    }
}

/// A request to update a channel's mutable attributes; a `None` field is left
/// as it is.
pub struct UpdateChannelRequest {
    pub name: Option<String>,
    pub topic: Option<String>,
    pub slow_mode: Option<i32>,
}

#[verifier::ext_equal]
pub ghost struct UpdateChannelRequestView {
    pub name: Option<Seq<char>>,
    pub topic: Option<Seq<char>>,
    pub slow_mode: Option<i32>,
}

impl View for UpdateChannelRequest {
    type V = UpdateChannelRequestView;

    open spec fn view(&self) -> UpdateChannelRequestView {
        (UpdateChannelRequestView {
            name: match self.name {
                Some(ref t) => Some(t@),
                None => None,
            },
            topic: match self.topic {
                Some(ref t) => Some(t@),
                None => None,
            },
            slow_mode: self.slow_mode,
        })
    }
}

/// A request to replace a message's content.
pub struct UpdateMessageRequest {
    pub content: String,
}

impl View for UpdateMessageRequest {
    type V = Seq<char>;

    open spec fn view(&self) -> Seq<char> {
        self.content@
    }
}

/// A request to join a server by invite code.
pub struct JoinServerRequest {
    pub invite_code: String,
}

impl View for JoinServerRequest {
    type V = Seq<char>;

    open spec fn view(&self) -> Seq<char> {
        self.invite_code@
    }
}

/// A request to issue an invite: an optional use cap and an optional lifetime
/// in hours.
#[derive(Clone, Copy, Debug, PartialEq, Eq, Structural)]
pub struct CreateInviteRequest {
    pub max_uses: Option<u64>,
    pub expires_in: Option<u32>,
}

} // verus!
