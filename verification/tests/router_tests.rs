use magic::request_types::{
    ApplicationCommandData, ApplicationCommandDataOption, ApplicationCommandDataValue,
    GuildMember, Interaction, RawInteraction, User,
};
use magic::response_types::{AllowedMentions, Data, InteractionResponse};
use magic::router::{handle_interaction, hijack_option, route_command, Command};
use magic::store::LobbyStore;
use magic::MagicError;

fn s(x: &str) -> String {
    x.to_string()
}

const CREATE_ID: &str = "796995810038382642";
const JOIN_ID: &str = "796996870815744010";
const KILL_ID: &str = "796999207046742027";
const VOTE_ID: &str = "796999927782834176";
const LEAVE_ID: &str = "801198519263559690";

fn member(caller: &str, permissions: u128) -> GuildMember {
    GuildMember {
        user: User {
            id: s(caller),
            username: s("someone"),
            discriminator: s("0001"),
            bot: None,
            avatar: None,
            system: None,
            public_flags: 0,
        },
        nick: None,
        roles: vec![],
        deaf: false,
        mute: false,
        pending: None,
        permissions,
    }
}

fn envelope(
    command_id: &str,
    channel: &str,
    caller: &str,
    options: Option<Vec<ApplicationCommandDataOption>>,
    permissions: u128,
) -> Interaction {
    Interaction {
        id: s("interaction-1"),
        interaction_type: 2,
        data: Some(ApplicationCommandData { id: s(command_id), name: s("cmd"), options }),
        guild_id: s("guild-1"),
        channel_id: s(channel),
        member: member(caller, permissions),
        token: s("token-1"),
        version: 1,
    }
}

fn content_of(r: InteractionResponse) -> String {
    r.data.expect("reply should carry data").content
}

#[test]
fn create_command_replies_with_success_text() {
    let mut store = LobbyStore::new();
    let r = handle_interaction(envelope(CREATE_ID, "chan1", "alice", None, 0), &mut store)
        .expect("router should reply");
    assert_eq!(r.response_type, 3);
    assert_eq!(content_of(r), s("create lobby: all systems are a go."));
    assert!(store.lobby_of(&s("chan1")).is_some());
}

#[test]
fn create_command_reports_existing_lobby() {
    let mut store = LobbyStore::new();
    store.create_lobby(&s("chan1"), &s("alice"), false, 0);
    let r = handle_interaction(envelope(CREATE_ID, "chan1", "bob", None, 0), &mut store)
        .expect("router should reply");
    assert_eq!(
        content_of(r),
        s("create lobby: a lobby already exists in this channel! try /join!")
    );
}

#[test]
fn create_command_reports_membership_conflicts() {
    let mut store = LobbyStore::new();
    store.create_lobby(&s("chan1"), &s("alice"), false, 0);
    let r = handle_interaction(envelope(CREATE_ID, "chan1", "alice", None, 0), &mut store)
        .expect("router should reply");
    assert_eq!(content_of(r), s("create lobby: you're already in that lobby!"));
    let r = handle_interaction(envelope(CREATE_ID, "chan2", "alice", None, 0), &mut store)
        .expect("router should reply");
    assert_eq!(content_of(r), s("create lobby: you're in another lobby!"));
}

fn hijack_options(value: bool) -> Vec<ApplicationCommandDataOption> {
    vec![ApplicationCommandDataOption::Value {
        name: s("hijack"),
        value: ApplicationCommandDataValue::Boolean(value),
    }]
}

#[test]
fn hijack_without_permission_is_rejected_by_router() {
    let mut store = LobbyStore::new();
    store.create_lobby(&s("chan1"), &s("alice"), false, 0);
    let r = handle_interaction(
        envelope(CREATE_ID, "chan1", "carol", Some(hijack_options(true)), 0),
        &mut store,
    )
    .expect("router should reply");
    assert_eq!(
        content_of(r),
        s("create lobby: you don't have permissions required to hijack")
    );
    assert_eq!(store.lobby_of(&s("chan1")).unwrap().players, vec![s("alice")]);
}

#[test]
fn hijack_with_permission_joins_through_router() {
    let mut store = LobbyStore::new();
    store.create_lobby(&s("chan1"), &s("alice"), false, 0);
    let r = handle_interaction(
        envelope(CREATE_ID, "chan1", "carol", Some(hijack_options(true)), 1 << 13),
        &mut store,
    )
    .expect("router should reply");
    assert_eq!(content_of(r), s("create lobby: all systems are a go."));
    let lobby = store.lobby_of(&s("chan1")).unwrap();
    assert_eq!(lobby.creator, s("alice"));
    assert_eq!(lobby.players, vec![s("alice"), s("carol")]);
}

#[test]
fn join_and_leave_reply_texts() {
    let mut store = LobbyStore::new();
    let r = handle_interaction(envelope(JOIN_ID, "chan1", "bob", None, 0), &mut store)
        .expect("router should reply");
    assert_eq!(
        content_of(r),
        s("join lobby: this channel does not have a lobby, make one instead?")
    );
    store.create_lobby(&s("chan1"), &s("alice"), false, 0);
    let r = handle_interaction(envelope(JOIN_ID, "chan1", "bob", None, 0), &mut store)
        .expect("router should reply");
    assert_eq!(content_of(r), s("join lobby: joined the lobby."));
    let r = handle_interaction(envelope(JOIN_ID, "chan1", "bob", None, 0), &mut store)
        .expect("router should reply");
    assert_eq!(content_of(r), s("join lobby: leave your previous lobby first"));
    let r = handle_interaction(envelope(LEAVE_ID, "chan1", "bob", None, 0), &mut store)
        .expect("router should reply");
    assert_eq!(content_of(r), s("leave lobby: left the lobby!"));
    let r = handle_interaction(envelope(LEAVE_ID, "chan1", "bob", None, 0), &mut store)
        .expect("router should reply");
    assert_eq!(content_of(r), s("leave lobby: you need to be in a lobby to leave it."));
    let r = handle_interaction(envelope(LEAVE_ID, "chan1", "alice", None, 0), &mut store)
        .expect("router should reply");
    assert_eq!(content_of(r), s("leave lobby: disbanded the lobby!"));
}

#[test]
fn reserved_commands_acknowledge_and_touch_nothing() {
    let mut store = LobbyStore::new();
    store.create_lobby(&s("chan1"), &s("alice"), false, 0);
    let r = handle_interaction(envelope(KILL_ID, "chan1", "alice", None, 0), &mut store)
        .expect("router should reply");
    assert_eq!(r.response_type, 3);
    assert_eq!(content_of(r), s("kill player"));
    let r = handle_interaction(envelope(VOTE_ID, "chan1", "alice", None, 0), &mut store)
        .expect("router should reply");
    assert_eq!(content_of(r), s("vote player"));
    assert_eq!(store.lobby_of(&s("chan1")).unwrap().players, vec![s("alice")]);
}

#[test]
fn unknown_command_gets_fixed_fallback() {
    let mut store = LobbyStore::new();
    let r = handle_interaction(envelope("000000", "chan1", "alice", None, 0), &mut store)
        .expect("router should reply");
    assert_eq!(r.response_type, 4);
    assert_eq!(content_of(r), s("Command not set up."));
    assert!(store.lobby_of(&s("chan1")).is_none());
}

#[test]
fn missing_data_is_an_error() {
    let mut store = LobbyStore::new();
    let mut i = envelope(CREATE_ID, "chan1", "alice", None, 0);
    i.data = None;
    let r = handle_interaction(i, &mut store);
    assert!(matches!(r, Err(MagicError::GenericError)));
}

#[test]
fn command_table_resolves_each_identifier() {
    assert_eq!(route_command(&s(CREATE_ID)), Command::CreateLobby);
    assert_eq!(route_command(&s(JOIN_ID)), Command::JoinLobby);
    assert_eq!(route_command(&s(KILL_ID)), Command::KillPlayer);
    assert_eq!(route_command(&s(VOTE_ID)), Command::VotePlayer);
    assert_eq!(route_command(&s(LEAVE_ID)), Command::LeaveLobby);
    assert_eq!(route_command(&s("anything-else")), Command::Unknown);
}

#[test]
fn hijack_option_takes_first_matching_boolean() {
    assert!(!hijack_option(&vec![]));
    assert!(hijack_option(&hijack_options(true)));
    assert!(!hijack_option(&hijack_options(false)));
    // A string option named "hijack" is mistyped and ignored.
    let mistyped = vec![
        ApplicationCommandDataOption::Value {
            name: s("hijack"),
            value: ApplicationCommandDataValue::String(s("true")),
        },
        ApplicationCommandDataOption::Value {
            name: s("hijack"),
            value: ApplicationCommandDataValue::Boolean(true),
        },
    ];
    assert!(hijack_option(&mistyped));
    // Nested groups are not descended into.
    let nested = vec![ApplicationCommandDataOption::Nested {
        name: s("group"),
        options: hijack_options(true),
    }];
    assert!(!hijack_option(&nested));
    // Unrelated names are ignored.
    let unrelated = vec![ApplicationCommandDataOption::Value {
        name: s("loud"),
        value: ApplicationCommandDataValue::Boolean(true),
    }];
    assert!(!hijack_option(&unrelated));
}

#[test]
fn raw_envelope_validation() {
    let raw = RawInteraction {
        id: s("1"),
        interaction_type: 2,
        data: None,
        guild_id: Some(s("guild-1")),
        channel_id: Some(s("chan1")),
        member: Some(member("alice", 0)),
        token: s("tok"),
        version: 1,
    };
    let i = Interaction::try_from(raw).expect("well-formed envelope should validate");
    assert_eq!(i.channel_id, s("chan1"));
    assert_eq!(i.member.user.id, s("alice"));

    let ping = RawInteraction {
        id: s("1"),
        interaction_type: 1,
        data: None,
        guild_id: Some(s("guild-1")),
        channel_id: Some(s("chan1")),
        member: Some(member("alice", 0)),
        token: s("tok"),
        version: 1,
    };
    assert!(matches!(Interaction::try_from(ping), Err(MagicError::GenericError)));

    let missing_channel = RawInteraction {
        id: s("1"),
        interaction_type: 2,
        data: None,
        guild_id: Some(s("guild-1")),
        channel_id: None,
        member: Some(member("alice", 0)),
        token: s("tok"),
        version: 1,
    };
    assert!(matches!(Interaction::try_from(missing_channel), Err(MagicError::GenericError)));
}

#[test]
fn reply_builders_fill_the_envelope() {
    let d = Data::content(s("hello"));
    assert_eq!(d.content, s("hello"));
    assert!(d.tts.is_none());
    assert!(d.flags.is_none());
    assert!(d.allowed_mentions.parse.is_empty());

    let d = Data::ephemeral_content(s("quiet"));
    assert_eq!(d.flags, Some(64));

    let d = Data::pinging_content(s("ping"));
    assert_eq!(d.allowed_mentions.parse, vec![s("roles"), s("users")]);

    let m = AllowedMentions::none();
    assert!(m.parse.is_empty());
    let m = AllowedMentions::all();
    assert_eq!(m.parse, vec![s("roles"), s("users")]);
    let m = AllowedMentions::everyone();
    assert_eq!(m.parse, vec![s("everyone")]);

    let r = InteractionResponse::create(3, Data::content(s("x")));
    assert_eq!(r.response_type, 3);
    assert_eq!(r.data.unwrap().content, s("x"));
    let r = InteractionResponse::create_optional(4, None);
    assert_eq!(r.response_type, 4);
    assert!(r.data.is_none());
}

#[test]
fn error_messages_are_stable() {
    assert_eq!(
        MagicError::WeirdHTTPError(s("buffering body")).message(),
        s("Some weird hyper error happened while buffering body.")
    );
    assert_eq!(
        MagicError::StringConversion.message(),
        s("An error occurred while converting your body to a string.")
    );
    assert_eq!(MagicError::JSONParsing(s("JSON error: bad")).message(), s("JSON error: bad"));
    assert_eq!(MagicError::GenericError.message(), s("An error occurred!"));
    assert_eq!(MagicError::SledError.message(), s("A filesystem error happened with sled!"));
}
