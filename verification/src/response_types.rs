//! The outbound reply envelope handed back to the HTTP layer.

use vstd::prelude::*;

verus! {

/// Which mentions a reply is allowed to trigger.
#[derive(Debug)]
pub struct AllowedMentions {
    pub parse: Vec<String>,
    pub roles: Option<Vec<String>>,
    pub users: Option<Vec<String>>,
    pub replied_user: Option<bool>,
}

impl AllowedMentions {
    /// No mentions at all.
    pub fn none() -> (r: AllowedMentions)
        ensures
            r.parse.deep_view() == Seq::<Seq<char>>::empty(),
            r.roles is None,
            r.users is None,
            r.replied_user is None,
    {
        let r = AllowedMentions { parse: Vec::new(), roles: None, users: None, replied_user: None };
        proof {
            assert(r.parse.deep_view() =~= Seq::<Seq<char>>::empty());
        }
        r
    }

    /// Role and user mentions, but never everyone.
    pub fn all() -> (r: AllowedMentions)
        ensures
            r.parse.deep_view() == seq!["roles"@, "users"@],
            r.roles is None,
            r.users is None,
            r.replied_user is None,
    {
        let mut parse: Vec<String> = Vec::new();
        parse.push(String::from_str("roles"));
        parse.push(String::from_str("users"));
        proof {
            assert(parse.deep_view() =~= seq!["roles"@, "users"@]);
        }
        AllowedMentions { parse, roles: None, users: None, replied_user: None }
    }

    /// Everyone mentions only.
    pub fn everyone() -> (r: AllowedMentions)
        ensures
            r.parse.deep_view() == seq!["everyone"@],
            r.roles is None,
            r.users is None,
            r.replied_user is None,
    {
        let mut parse: Vec<String> = Vec::new();
        parse.push(String::from_str("everyone"));
        proof {
            assert(parse.deep_view() =~= seq!["everyone"@]);
        }
        AllowedMentions { parse, roles: None, users: None, replied_user: None }
    }
}

impl Default for AllowedMentions {
    /// The cautious choice: no mentions.
    fn default() -> (r: AllowedMentions)
        ensures
            r.parse.deep_view() == Seq::<Seq<char>>::empty(),
            r.roles is None,
            r.users is None,
            r.replied_user is None,
    {
        Self::none()
    }
}

/// The body of a reply.
#[derive(Debug)]
pub struct Data {
    pub tts: Option<bool>,
    pub content: String,
    pub allowed_mentions: AllowedMentions,
    pub flags: Option<u16>,
}

impl Data {
    /// A plain text reply.
    pub fn content(content: String) -> (r: Data)
        ensures
            r.content == content,
            r.tts is None,
            r.flags is None,
            r.allowed_mentions.parse.deep_view() == Seq::<Seq<char>>::empty(),
            r.allowed_mentions.roles is None,
            r.allowed_mentions.users is None,
            r.allowed_mentions.replied_user is None,
    {
        Data {
            content,
            tts: None,
            allowed_mentions: AllowedMentions::default(),
            flags: None,
        }
    }

    /// A reply only its addressee sees.
    pub fn ephemeral_content(content: String) -> (r: Data)
        ensures
            r.content == content,
            r.tts is None,
            r.flags == Some(64u16),
            r.allowed_mentions.parse.deep_view() == Seq::<Seq<char>>::empty(),
            r.allowed_mentions.roles is None,
            r.allowed_mentions.users is None,
            r.allowed_mentions.replied_user is None,
    {
        Data {
            content,
            tts: None,
            allowed_mentions: AllowedMentions::default(),
            flags: Some(64),
        }
    }

    /// A reply allowed to ping roles and users.
    pub fn pinging_content(content: String) -> (r: Data)
        ensures
            r.content == content,
            r.tts is None,
            r.flags is None,
            r.allowed_mentions.parse.deep_view() == seq!["roles"@, "users"@],
            r.allowed_mentions.roles is None,
            r.allowed_mentions.users is None,
            r.allowed_mentions.replied_user is None,
    {
        Data {
            content,
            tts: None,
            allowed_mentions: AllowedMentions::all(),
            flags: None,
        }
    }
}

/// The reply kinds of the platform's interaction protocol.
#[derive(Debug, Clone, Copy, PartialEq, Eq, Structural)]
pub enum ResponseType {
    Pong,
    Acknowledge,
    ChannelMessage,
    ChannelMessageWithSource,
    AcknowledgeWithSource,
}

/// The reply envelope.
#[derive(Debug)]
pub struct InteractionResponse {
    pub response_type: u8,
    pub data: Option<Data>,
}

impl InteractionResponse {
    /// A reply with or without a body.
    pub fn create_optional(response_type: u8, data: Option<Data>) -> (r: InteractionResponse)
        ensures
            r.response_type == response_type,
            r.data == data,
    {
        InteractionResponse { response_type, data }
    }

    /// A reply with a body.
    pub fn create(response_type: u8, data: Data) -> (r: InteractionResponse)
        ensures
            r.response_type == response_type,
            r.data == Some(data),
    {
        InteractionResponse { response_type, data: Some(data) }
    }
}

} // verus!
