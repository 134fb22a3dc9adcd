//! Lobby membership backend for a chat-driven social deduction game.
//!
//! The heart of the crate is the lobby store: two associated key spaces
//! (lobby-by-channel and owning-lobby-by-player) kept mutually consistent by
//! atomic command operations, together with the command router that maps an
//! inbound slash-command envelope onto those operations and formats the reply.

pub mod codec;
pub mod kv;
pub mod request_types;
pub mod response_types;
pub mod router;
pub mod state;
pub mod store;

use vstd::prelude::*;

verus! {

/// The error taxonomy surfaced to the HTTP boundary.  Every lobby-store
/// outcome is a value; only these errors describe faults of the surrounding
/// plumbing (transport, decoding, storage).
#[derive(Debug)]
pub enum MagicError {
    WeirdHTTPError(String),
    StringConversion,
    JSONParsing(String),
    GenericError,
    SledError,
}

impl MagicError {
    /// The stable user-facing description of this error.
    pub fn message(&self) -> (r: String)
        ensures
            r@ == self.spec_message(),
    {
        match self {
            Self::WeirdHTTPError(location) => String::from_str(
                "Some weird hyper error happened while ",
            ).concat(location.as_str()).concat("."),
            Self::StringConversion => String::from_str(
                "An error occurred while converting your body to a string.",
            ),
            Self::JSONParsing(err) => err.clone(),
            Self::GenericError => String::from_str("An error occurred!"),
            Self::SledError => String::from_str("A filesystem error happened with sled!"),
        }
    }

    pub open spec fn spec_message(&self) -> Seq<char> {
        match self {
            Self::WeirdHTTPError(location) => "Some weird hyper error happened while "@
                + location@ + "."@,
            Self::StringConversion => "An error occurred while converting your body to a string."@,
            Self::JSONParsing(err) => err@,
            Self::GenericError => "An error occurred!"@,
            Self::SledError => "A filesystem error happened with sled!"@,
        }
    }
}

} // verus!
