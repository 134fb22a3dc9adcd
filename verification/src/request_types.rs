//! The inbound command envelope, in its normalized shape.
//!
//! The surrounding HTTP layer decodes the platform's webhook payload into a
//! [`RawInteraction`] and verifies its signature before anything here runs;
//! numeric fields such as the permission mask arrive already parsed.  A raw
//! envelope is validated into an [`Interaction`], the only shape the command
//! router accepts.

use vstd::prelude::*;

use crate::MagicError;

verus! {

/// A typed option value attached to a command.
#[derive(Debug, Clone)]
pub enum ApplicationCommandDataValue {
    String(String),
    Number(i128),
    Boolean(bool),
}

/// One node of a command's option list: a named leaf value or a named group
/// of nested options.
#[derive(Debug)]
pub enum ApplicationCommandDataOption {
    Value { name: String, value: ApplicationCommandDataValue },
    Nested { name: String, options: Vec<ApplicationCommandDataOption> },
}

/// The command payload of an envelope.
#[derive(Debug)]
pub struct ApplicationCommandData {
    pub id: String,
    pub name: String,
    pub options: Option<Vec<ApplicationCommandDataOption>>,
}

impl ApplicationCommandData {
    /// The platform-issued command identifier.
    pub fn id(self) -> (r: String)
        ensures
            r == self.id,
    {
        self.id
    }

    /// The command's option list, if any was sent.
    pub fn options(self) -> (r: Option<Vec<ApplicationCommandDataOption>>)
        ensures
            r == self.options,
    {
        self.options
    }
}

/// The calling user.
#[derive(Debug, Clone)]
pub struct User {
    pub id: String,
    pub username: String,
    pub discriminator: String,
    pub bot: Option<bool>,
    pub avatar: Option<String>,
    pub system: Option<bool>,
    pub public_flags: u64,
}

impl User {
    /// The user's identifier.
    pub fn id(self) -> (r: String)
        ensures
            r == self.id,
    {
        self.id
    }
}

/// The caller's guild-membership record, carrying the permission mask the
/// privileged options are checked against.
#[derive(Debug, Clone)]
pub struct GuildMember {
    pub user: User,
    pub nick: Option<String>,
    pub roles: Vec<String>,
    pub deaf: bool,
    pub mute: bool,
    pub pending: Option<bool>,
    pub permissions: u128,
}

impl GuildMember {
    /// The member's user record.
    pub fn user(self) -> (r: User)
        ensures
            r == self.user,
    {
        self.user
    }

    /// The member's permission bitmask.
    pub fn permissions(&self) -> (r: u128)
        ensures
            r == self.permissions,
    {
        self.permissions
    }
}

/// The envelope as decoded from the wire, before validation: everything a
/// command needs may still be absent.
#[derive(Debug)]
pub struct RawInteraction {
    pub id: String,
    pub interaction_type: u8,
    pub data: Option<ApplicationCommandData>,
    pub guild_id: Option<String>,
    pub channel_id: Option<String>,
    pub member: Option<GuildMember>,
    pub token: String,
    pub version: u8,
}

/// A validated command envelope: not a ping, and guild, channel and caller
/// all present.
#[derive(Debug)]
pub struct Interaction {
    pub id: String,
    pub interaction_type: u8,
    pub data: Option<ApplicationCommandData>,
    pub guild_id: String,
    pub channel_id: String,
    pub member: GuildMember,
    pub token: String,
    pub version: u8,
}

impl Interaction {
    /// Validates a raw envelope.  A ping (type 1) and an envelope missing
    /// its guild, channel or caller are rejected; anything else is carried
    /// over field by field.
    pub fn try_from(value: RawInteraction) -> (r: Result<Interaction, MagicError>)
        ensures
            match r {
                Ok(i) => {
                    &&& value.interaction_type != 1
                    &&& value.guild_id is Some
                    &&& value.channel_id is Some
                    &&& value.member is Some
                    &&& i.id == value.id
                    &&& i.interaction_type == value.interaction_type
                    &&& i.data == value.data
                    &&& i.guild_id == value.guild_id->0
                    &&& i.channel_id == value.channel_id->0
                    &&& i.member == value.member->0
                    &&& i.token == value.token
                    &&& i.version == value.version
                },
                Err(e) => {
                    &&& value.interaction_type == 1 || value.guild_id is None
                        || value.channel_id is None || value.member is None
                    &&& e is GenericError
                },
            },
    {
        if value.interaction_type == 1 {
            return Err(MagicError::GenericError);
        }
        let guild_id = match value.guild_id {
            Some(g) => g,
            None => { return Err(MagicError::GenericError); },
        };
        let channel_id = match value.channel_id {
            Some(c) => c,
            None => { return Err(MagicError::GenericError); },
        };
        let member = match value.member {
            Some(m) => m,
            None => { return Err(MagicError::GenericError); },
        };
        Ok(Interaction {
            id: value.id,
            interaction_type: value.interaction_type,
            data: value.data,
            guild_id,
            channel_id,
            member,
            token: value.token,
            version: value.version,
        })
    }

    /// The command payload, if any.
    pub fn data(self) -> (r: Option<ApplicationCommandData>)
        ensures
            r == self.data,
    {
        self.data
    }

    /// The envelope's identifier.
    pub fn id(&self) -> (r: &String)
        ensures
            r == &self.id,
    {
        &self.id
    }

    /// The guild the command was issued in.
    pub fn guild_id(self) -> (r: String)
        ensures
            r == self.guild_id,
    {
        self.guild_id
    }

    /// The channel the command was issued in.
    pub fn channel_id(self) -> (r: String)
        ensures
            r == self.channel_id,
    {
        self.channel_id
    }

    /// The caller's membership record.
    pub fn member(self) -> (r: GuildMember)
        ensures
            r == self.member,
    {
        self.member
    }
}

} // verus!
