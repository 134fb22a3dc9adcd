//! The command router.
//!
//! A stateless dispatch table from the platform-issued command identifier to
//! a lobby-store operation.  The router extracts the command's arguments
//! from the envelope's option list, runs exactly one store operation, and
//! formats the outcome into a reply envelope.  Unknown identifiers get a
//! fixed "not set up" reply rather than an error.

use vstd::prelude::*;

use crate::MagicError;
use crate::request_types::{
    ApplicationCommandDataOption, ApplicationCommandDataValue, Interaction,
};
use crate::response_types::{Data, InteractionResponse};
use crate::state::{Outcome, StoreView, consistent, create_step, join_step, leave_step};
use crate::store::LobbyStore;

verus! {

/// The value of the first boolean option named "hijack", or false if the
/// list holds none.  Nested groups are not descended into.
pub open spec fn spec_hijack_option(opts: Seq<ApplicationCommandDataOption>) -> bool
    decreases opts.len(),
{
    if opts.len() == 0 {
        false
    } else {
        match opts[0] {
            ApplicationCommandDataOption::Value { name, value } => match value {
                ApplicationCommandDataValue::Boolean(b) => if name@ == "hijack"@ {
                    b
                } else {
                    spec_hijack_option(opts.drop_first())
                },
                _ => spec_hijack_option(opts.drop_first()),
            },
            ApplicationCommandDataOption::Nested { .. } => spec_hijack_option(opts.drop_first()),
        }
    }
}

/// The hijack flag carried by an envelope: absent data, absent options and
/// an absent or mistyped option all count as false.
pub open spec fn spec_hijack_of(i: Interaction) -> bool {
    match i.data {
        Some(d) => match d.options {
            Some(o) => spec_hijack_option(o@),
            None => false,
        },
        None => false,
    }
}

/// Extracts the hijack flag from an option list.
pub fn hijack_option(options: &Vec<ApplicationCommandDataOption>) -> (b: bool)
    ensures
        b == spec_hijack_option(options@),
{
    let key = String::from_str("hijack");
    let n = options.len();
    proof {
        assert(options@.subrange(0, n as int) =~= options@);
    }
    let mut i: usize = 0;
    while i < n
        invariant
            key@ == "hijack"@,
            n == options@.len(),
            i <= n,
            spec_hijack_option(options@) == spec_hijack_option(
                options@.subrange(i as int, n as int),
            ),
        decreases n - i,
    {
        let ghost suffix = options@.subrange(i as int, n as int);
        proof {
            assert(suffix[0] == options@[i as int]);
            assert(suffix.drop_first() =~= options@.subrange(i as int + 1, n as int));
        }
        match &options[i] {
            ApplicationCommandDataOption::Value { name, value } => {
                match value {
                    ApplicationCommandDataValue::Boolean(b) => {
                        if *name == key {
                            return *b;
                        }
                    },
                    _ => {},
                }
            },
            ApplicationCommandDataOption::Nested { .. } => {},
        }
        i += 1;
    }
    false
}

/// The reply text of each outcome the create command can report.
pub open spec fn create_text(o: Outcome) -> Seq<char> {
    match o {
        Outcome::Created => "all systems are a go."@,
        Outcome::Joined => "all systems are a go."@,
        Outcome::AlreadyInLobby => "you're already in that lobby!"@,
        Outcome::AlreadyInOtherLobby => "you're in another lobby!"@,
        Outcome::LobbyExists => "a lobby already exists in this channel! try /join!"@,
        Outcome::PermissionDenied => "you don't have permissions required to hijack"@,
        _ => Seq::<char>::empty(),
    }
}

/// The reply text of each outcome the join command can report.
pub open spec fn join_text(o: Outcome) -> Seq<char> {
    match o {
        Outcome::Joined => "joined the lobby."@,
        Outcome::AlreadyInLobby => "leave your previous lobby first"@,
        Outcome::NoLobby => "this channel does not have a lobby, make one instead?"@,
        _ => Seq::<char>::empty(),
    }
}

/// The reply text of each outcome the leave command can report.
pub open spec fn leave_text(o: Outcome) -> Seq<char> {
    match o {
        Outcome::Left => "left the lobby!"@,
        Outcome::Disbanded => "disbanded the lobby!"@,
        Outcome::NotInLobby => "you need to be in a lobby to leave it."@,
        Outcome::Corrupt => "there was no such lobby???"@,
        _ => Seq::<char>::empty(),
    }
}

/// The commands of the dispatch table, plus the fallback for identifiers
/// the table does not know.
#[derive(Debug, Clone, Copy, PartialEq, Eq, Structural)]
pub enum Command {
    CreateLobby,
    JoinLobby,
    KillPlayer,
    VotePlayer,
    LeaveLobby,
    Unknown,
}

/// The command a platform-issued identifier names.
pub open spec fn spec_route_command(id: Seq<char>) -> Command {
    if id == "796995810038382642"@ {
        Command::CreateLobby
    } else if id == "796996870815744010"@ {
        Command::JoinLobby
    } else if id == "796999207046742027"@ {
        Command::KillPlayer
    } else if id == "796999927782834176"@ {
        Command::VotePlayer
    } else if id == "801198519263559690"@ {
        Command::LeaveLobby
    } else {
        Command::Unknown
    }
}

/// Resolves a command identifier against the dispatch table.
pub fn route_command(id: &String) -> (c: Command)
    ensures
        c == spec_route_command(id@),
{
    if *id == String::from_str("796995810038382642") {
        Command::CreateLobby
    } else if *id == String::from_str("796996870815744010") {
        Command::JoinLobby
    } else if *id == String::from_str("796999207046742027") {
        Command::KillPlayer
    } else if *id == String::from_str("796999927782834176") {
        Command::VotePlayer
    } else if *id == String::from_str("801198519263559690") {
        Command::LeaveLobby
    } else {
        Command::Unknown
    }
}

/// The reply text a command produces for an outcome.  The storeless
/// commands and the fallback ignore the outcome.
pub open spec fn respond_text(command: Command, o: Outcome) -> Seq<char> {
    match command {
        Command::CreateLobby => "create lobby: "@ + create_text(o),
        Command::JoinLobby => "join lobby: "@ + join_text(o),
        Command::KillPlayer => "kill player"@,
        Command::VotePlayer => "vote player"@,
        Command::LeaveLobby => "leave lobby: "@ + leave_text(o),
        Command::Unknown => "Command not set up."@,
    }
}

/// Formats a command's outcome into the reply envelope.
pub fn respond(command: Command, outcome: Outcome) -> (r: InteractionResponse)
    ensures
        r.response_type == if command is Unknown { 4u8 } else { 3u8 },
        r.data is Some,
        r.data->0.content@ == respond_text(command, outcome),
{
    match command {
        Command::CreateLobby => {
            let text = create_reply(outcome);
            InteractionResponse::create(
                3,
                Data::content(String::from_str("create lobby: ").concat(text.as_str())),
            )
        },
        Command::JoinLobby => {
            let text = join_reply(outcome);
            InteractionResponse::create(
                3,
                Data::content(String::from_str("join lobby: ").concat(text.as_str())),
            )
        },
        Command::KillPlayer => InteractionResponse::create(
            3,
            Data::content(String::from_str("kill player")),
        ),
        Command::VotePlayer => InteractionResponse::create(
            3,
            Data::content(String::from_str("vote player")),
        ),
        Command::LeaveLobby => {
            let text = leave_reply(outcome);
            InteractionResponse::create(
                3,
                Data::content(String::from_str("leave lobby: ").concat(text.as_str())),
            )
        },
        Command::Unknown => InteractionResponse::create(
            4,
            Data::content(String::from_str("Command not set up.")),
        ),
    }
}

fn create_reply(o: Outcome) -> (t: String)
    ensures
        t@ == create_text(o),
{
    match o {
        Outcome::Created => String::from_str("all systems are a go."),
        Outcome::Joined => String::from_str("all systems are a go."),
        Outcome::AlreadyInLobby => String::from_str("you're already in that lobby!"),
        Outcome::AlreadyInOtherLobby => String::from_str("you're in another lobby!"),
        Outcome::LobbyExists => String::from_str(
            "a lobby already exists in this channel! try /join!",
        ),
        Outcome::PermissionDenied => String::from_str(
            "you don't have permissions required to hijack",
        ),
        _ => String::new(),
    }
}

fn join_reply(o: Outcome) -> (t: String)
    ensures
        t@ == join_text(o),
{
    match o {
        Outcome::Joined => String::from_str("joined the lobby."),
        Outcome::AlreadyInLobby => String::from_str("leave your previous lobby first"),
        Outcome::NoLobby => String::from_str(
            "this channel does not have a lobby, make one instead?",
        ),
        _ => String::new(),
    }
}

fn leave_reply(o: Outcome) -> (t: String)
    ensures
        t@ == leave_text(o),
{
    match o {
        Outcome::Left => String::from_str("left the lobby!"),
        Outcome::Disbanded => String::from_str("disbanded the lobby!"),
        Outcome::NotInLobby => String::from_str("you need to be in a lobby to leave it."),
        Outcome::Corrupt => String::from_str("there was no such lobby???"),
        _ => String::new(),
    }
}

/// The create command.  Runs the store's create operation with the
/// envelope's hijack flag and permission mask, and wraps the outcome's text
/// in a reply.
pub fn create_lobby(interaction: Interaction, store: &mut LobbyStore) -> (r: Result<
    InteractionResponse,
    MagicError,
>)
    requires
        old(store).wf(),
        interaction.data is Some,
    ensures
        final(store).wf(),
        ({
            let step = create_step(
                old(store)@,
                interaction.channel_id@,
                interaction.member.user.id@,
                spec_hijack_of(interaction),
                interaction.member.permissions,
            );
            &&& r is Ok
            &&& final(store)@ == step.1
            &&& r->Ok_0.response_type == 3
            &&& r->Ok_0.data is Some
            &&& r->Ok_0.data->0.content@ == "create lobby: "@ + create_text(step.0)
        }),
        consistent(old(store)@) ==> consistent(final(store)@),
{
    let data = match interaction.data {
        Some(d) => d,
        None => {
            return Err(MagicError::GenericError);
        },
    };
    let options: Vec<ApplicationCommandDataOption> = match data.options {
        Some(o) => o,
        None => Vec::new(),
    };
    let hijacking = hijack_option(&options);
    let channel_id = interaction.channel_id;
    let member = interaction.member;
    let mask = member.permissions;
    let caller_id = member.user.id;
    let outcome = store.create_lobby(&channel_id, &caller_id, hijacking, mask);
    Ok(respond(Command::CreateLobby, outcome))
}

/// The join command.
pub fn join_lobby(interaction: Interaction, store: &mut LobbyStore) -> (r: Result<
    InteractionResponse,
    MagicError,
>)
    requires
        old(store).wf(),
    ensures
        final(store).wf(),
        ({
            let step = join_step(
                old(store)@,
                interaction.channel_id@,
                interaction.member.user.id@,
            );
            &&& r is Ok
            &&& final(store)@ == step.1
            &&& r->Ok_0.response_type == 3
            &&& r->Ok_0.data is Some
            &&& r->Ok_0.data->0.content@ == "join lobby: "@ + join_text(step.0)
        }),
        consistent(old(store)@) ==> consistent(final(store)@),
{
    let channel_id = interaction.channel_id;
    let caller_id = interaction.member.user.id;
    let outcome = store.join_lobby(&channel_id, &caller_id);
    Ok(respond(Command::JoinLobby, outcome))
}

/// The leave command.
pub fn leave_lobby(interaction: Interaction, store: &mut LobbyStore) -> (r: Result<
    InteractionResponse,
    MagicError,
>)
    requires
        old(store).wf(),
    ensures
        final(store).wf(),
        ({
            let step = leave_step(
                old(store)@,
                interaction.channel_id@,
                interaction.member.user.id@,
            );
            &&& r is Ok
            &&& final(store)@ == step.1
            &&& r->Ok_0.response_type == 3
            &&& r->Ok_0.data is Some
            &&& r->Ok_0.data->0.content@ == "leave lobby: "@ + leave_text(step.0)
        }),
        consistent(old(store)@) ==> consistent(final(store)@),
{
    let channel_id = interaction.channel_id;
    let caller_id = interaction.member.user.id;
    let outcome = store.leave_lobby(&channel_id, &caller_id);
    Ok(respond(Command::LeaveLobby, outcome))
}

/// A reserved extension point: acknowledges and must not touch storage.
pub fn kill_player(_interaction: Interaction, store: &mut LobbyStore) -> (r: Result<
    InteractionResponse,
    MagicError,
>)
    ensures
        *final(store) == *old(store),
        r is Ok,
        r->Ok_0.response_type == 3,
        r->Ok_0.data is Some,
        r->Ok_0.data->0.content@ == "kill player"@,
{
    Ok(InteractionResponse::create(3, Data::content(String::from_str("kill player"))))
}

/// A reserved extension point: acknowledges and must not touch storage.
pub fn vote_player(_interaction: Interaction, store: &mut LobbyStore) -> (r: Result<
    InteractionResponse,
    MagicError,
>)
    ensures
        *final(store) == *old(store),
        r is Ok,
        r->Ok_0.response_type == 3,
        r->Ok_0.data is Some,
        r->Ok_0.data->0.content@ == "vote player"@,
{
    Ok(InteractionResponse::create(3, Data::content(String::from_str("vote player"))))
}

/// The store transition, reply text and reply kind that routing an envelope
/// with a command payload produces.
pub open spec fn route_step(s: StoreView, i: Interaction) -> (StoreView, Seq<char>, u8) {
    let d = i.data->0;
    let c = i.channel_id@;
    let p = i.member.user.id@;
    if d.id@ == "796995810038382642"@ {
        let step = create_step(s, c, p, spec_hijack_of(i), i.member.permissions);
        (step.1, "create lobby: "@ + create_text(step.0), 3u8)
    } else if d.id@ == "796996870815744010"@ {
        let step = join_step(s, c, p);
        (step.1, "join lobby: "@ + join_text(step.0), 3u8)
    } else if d.id@ == "796999207046742027"@ {
        (s, "kill player"@, 3u8)
    } else if d.id@ == "796999927782834176"@ {
        (s, "vote player"@, 3u8)
    } else if d.id@ == "801198519263559690"@ {
        let step = leave_step(s, c, p);
        (step.1, "leave lobby: "@ + leave_text(step.0), 3u8)
    } else {
        (s, "Command not set up."@, 4u8)
    }
}

/// Routes a validated envelope to its command.  An envelope without a
/// command payload is an error; an unknown command identifier gets the
/// fixed "not set up" reply and touches nothing.
pub fn handle_interaction(interaction: Interaction, store: &mut LobbyStore) -> (r: Result<
    InteractionResponse,
    MagicError,
>)
    requires
        old(store).wf(),
    ensures
        final(store).wf(),
        interaction.data is None ==> {
            &&& r is Err
            &&& r->Err_0 is GenericError
            &&& final(store)@ == old(store)@
        },
        interaction.data is Some ==> {
            let routed = route_step(old(store)@, interaction);
            &&& r is Ok
            &&& final(store)@ == routed.0
            &&& r->Ok_0.response_type == routed.2
            &&& r->Ok_0.data is Some
            &&& r->Ok_0.data->0.content@ == routed.1
        },
        consistent(old(store)@) ==> consistent(final(store)@),
{
    let command: Command = match &interaction.data {
        None => {
            return Err(MagicError::GenericError);
        },
        Some(d) => route_command(&d.id),
    };
    match command {
        Command::CreateLobby => create_lobby(interaction, store),
        Command::JoinLobby => join_lobby(interaction, store),
        Command::KillPlayer => kill_player(interaction, store),
        Command::VotePlayer => vote_player(interaction, store),
        Command::LeaveLobby => leave_lobby(interaction, store),
        Command::Unknown => Ok(
            InteractionResponse::create(4, Data::content(String::from_str("Command not set up."))),
        ),
    }
}

} // verus!
