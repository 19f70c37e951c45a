//! String-coded enums of the wire and storage boundary. Each closed variant
//! type has one bidirectional mapping to its lowercase token, and the mapping
//! round-trips exactly in both directions.

use vstd::prelude::*;
use crate::strutil::{ascii_lower, str_eq, eq_ignore_ascii_case};

verus! {

/// The kind of an attachment.
#[derive(Clone, Copy, Debug, PartialEq, Eq, Structural)]
pub enum AttachmentType {
    Image,
    Video,
    File,
}

/// A user's presence status.
#[derive(Clone, Copy, Debug, PartialEq, Eq, Structural)]
pub enum UserStatus {
    Online,
    Idle,
    Dnd,
    Offline,
}

impl UserStatus {
    /// The lowercase token this status is stored and transmitted as.
    pub open spec fn spec_str(&self) -> Seq<char> {
        match self {
            UserStatus::Online => "online"@,
            UserStatus::Idle => "idle"@,
            UserStatus::Dnd => "dnd"@,
            UserStatus::Offline => "offline"@,
        }
    }

    /// The status a token names, ASCII case folded first as stored rows may
    /// carry any casing, or `None` for any other string.
    pub open spec fn spec_parse(s: Seq<char>) -> Option<UserStatus> {
        let folded = ascii_lower(s);
        if folded == "online"@ {
            Some(UserStatus::Online)
        } else if folded == "idle"@ {
            Some(UserStatus::Idle)
        } else if folded == "dnd"@ {
            Some(UserStatus::Dnd)
        } else if folded == "offline"@ {
            Some(UserStatus::Offline)
        } else {
            None
        }
    }

    pub fn as_str(&self) -> (r: &'static str)
        ensures
            r@ == self.spec_str(),
    {
        match self {
            UserStatus::Online => "online",
            UserStatus::Idle => "idle",
            UserStatus::Dnd => "dnd",
            UserStatus::Offline => "offline",
        }
    }

    pub fn parse(s: &str) -> (r: Option<UserStatus>)
        ensures
            r == Self::spec_parse(s@),
    {
        proof {
            lemma_status_tokens_are_lowercase();
        }
        if eq_ignore_ascii_case(s, "online") {
            Some(UserStatus::Online)
        } else if eq_ignore_ascii_case(s, "idle") {
            Some(UserStatus::Idle)
        } else if eq_ignore_ascii_case(s, "dnd") {
            Some(UserStatus::Dnd)
        } else if eq_ignore_ascii_case(s, "offline") {
            Some(UserStatus::Offline)
        } else {
            None
        }
    }
}

/// The four status tokens are already lowercase, so folding them is the
/// identity.
proof fn lemma_status_tokens_are_lowercase()
    ensures
        ascii_lower("online"@) == "online"@,
        ascii_lower("idle"@) == "idle"@,
        ascii_lower("dnd"@) == "dnd"@,
        ascii_lower("offline"@) == "offline"@,
{
    reveal_strlit("online");
    reveal_strlit("idle");
    reveal_strlit("dnd");
    reveal_strlit("offline");
    assert(ascii_lower("online"@) =~= "online"@);
    assert(ascii_lower("idle"@) =~= "idle"@);
    assert(ascii_lower("dnd"@) =~= "dnd"@);
    assert(ascii_lower("offline"@) =~= "offline"@);
}

/// Formatting a status and parsing the token back yields the same status;
/// a string that parses reformats to its own case-folded form, so lowercase
/// tokens round-trip exactly.
pub proof fn lemma_user_status_round_trip(st: UserStatus, s: Seq<char>)
    ensures
        UserStatus::spec_parse(st.spec_str()) == Some(st),
        UserStatus::spec_parse(s) matches Some(t) ==> t.spec_str() == ascii_lower(s),
        (s == ascii_lower(s) && (UserStatus::spec_parse(s) matches Some(t))) ==> (
        UserStatus::spec_parse(s) matches Some(t2) && t2.spec_str() == s),
{
    reveal_strlit("online");
    reveal_strlit("idle");
    reveal_strlit("dnd");
    reveal_strlit("offline");
    lemma_status_tokens_are_lowercase();
    assert("online"@.len() == 6);
    assert("idle"@.len() == 4);
    assert("dnd"@.len() == 3);
    assert("offline"@.len() == 7);
    assert("online"@[0] == 'o' && "offline"@[0] == 'o');
}

/// The kind of a channel.
#[derive(Clone, Copy, Debug, PartialEq, Eq, Structural)]
pub enum ChannelType {
    Text,
    Voice,
    Announcement,
}

impl ChannelType {
    /// The lowercase token this kind is stored and transmitted as.
    pub open spec fn spec_str(&self) -> Seq<char> {
        match self {
            ChannelType::Text => "text"@,
            ChannelType::Voice => "voice"@,
            ChannelType::Announcement => "announcement"@,
        }
    }

    /// The kind a token names, or `None` for any other string.
    pub open spec fn spec_parse(s: Seq<char>) -> Option<ChannelType> {
        if s == "text"@ {
            Some(ChannelType::Text)
        } else if s == "voice"@ {
            Some(ChannelType::Voice)
        } else if s == "announcement"@ {
            Some(ChannelType::Announcement)
        } else {
            None
        }
    }

    pub fn as_str(&self) -> (r: &'static str)
        ensures
            r@ == self.spec_str(),
    {
        match self {
            ChannelType::Text => "text",
            ChannelType::Voice => "voice",
            ChannelType::Announcement => "announcement",
        }
    }

    pub fn parse(s: &str) -> (r: Option<ChannelType>)
        ensures
            r == Self::spec_parse(s@),
    {
        if str_eq(s, "text") {
            Some(ChannelType::Text)
        } else if str_eq(s, "voice") {
            Some(ChannelType::Voice)
        } else if str_eq(s, "announcement") {
            Some(ChannelType::Announcement)
        } else {
            None
        }
    }
}

/// Formatting a channel kind and parsing the token back yields the same kind,
/// and a token that parses reformats to the same token.
pub proof fn lemma_channel_type_round_trip(ct: ChannelType, s: Seq<char>)
    ensures
        ChannelType::spec_parse(ct.spec_str()) == Some(ct),
        ChannelType::spec_parse(s) matches Some(t) ==> t.spec_str() == s,
{
    reveal_strlit("text");
    reveal_strlit("voice");
    reveal_strlit("announcement");
    assert("text"@.len() == 4);
    assert("voice"@.len() == 5);
    assert("announcement"@.len() == 12);
}

impl AttachmentType {
    /// The lowercase token this kind is stored and transmitted as.
    pub open spec fn spec_str(&self) -> Seq<char> {
        match self {
            AttachmentType::Image => "image"@,
            AttachmentType::Video => "video"@,
            AttachmentType::File => "file"@,
        }
    }

    /// The kind a token names, or `None` for any other string.
    pub open spec fn spec_parse(s: Seq<char>) -> Option<AttachmentType> {
        if s == "image"@ {
            Some(AttachmentType::Image)
        } else if s == "video"@ {
            Some(AttachmentType::Video)
        } else if s == "file"@ {
            Some(AttachmentType::File)
        } else {
            None
        }
    }

    pub fn as_str(&self) -> (r: &'static str)
        ensures
            r@ == self.spec_str(),
    {
        match self {
            AttachmentType::Image => "image",
            AttachmentType::Video => "video",
            AttachmentType::File => "file",
        }
    }

    pub fn parse(s: &str) -> (r: Option<AttachmentType>)
        ensures
            r == Self::spec_parse(s@),
    {
        if str_eq(s, "image") {
            Some(AttachmentType::Image)
        } else if str_eq(s, "video") {
            Some(AttachmentType::Video)
        } else if str_eq(s, "file") {
            Some(AttachmentType::File)
        } else {
            None
        }
    }
}

/// Formatting an attachment kind and parsing the token back yields the same
/// kind, and a token that parses reformats to the same token.
pub proof fn lemma_attachment_type_round_trip(at: AttachmentType, s: Seq<char>)
    ensures
        AttachmentType::spec_parse(at.spec_str()) == Some(at),
        AttachmentType::spec_parse(s) matches Some(t) ==> t.spec_str() == s,
{
    reveal_strlit("image");
    reveal_strlit("video");
    reveal_strlit("file");
    assert("image"@.len() == 5);
    assert("video"@.len() == 5);
    assert("file"@.len() == 4);
    assert("image"@[0] == 'i' && "video"@[0] == 'v');
}

} // verus!
