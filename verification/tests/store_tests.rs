use magic::state::Outcome;
use magic::store::{decide_leave, has_capability, Capability, LobbyStore};

fn s(x: &str) -> String {
    x.to_string()
}

const MANAGE_MESSAGES: u128 = 1 << 13;

#[test]
fn create_in_empty_channel() {
    let mut store = LobbyStore::new();
    let chan = s("chan1");
    let alice = s("alice");
    assert_eq!(store.create_lobby(&chan, &alice, false, 0), Outcome::Created);
    let lobby = store.lobby_of(&chan).expect("lobby should exist");
    assert_eq!(lobby.creator, s("alice"));
    assert_eq!(lobby.players, vec![s("alice")]);
    assert_eq!(store.channel_of(&alice), Some(&s("chan1")));
}

#[test]
fn join_appends_to_roster() {
    let mut store = LobbyStore::new();
    let chan = s("chan1");
    let alice = s("alice");
    let bob = s("bob");
    assert_eq!(store.create_lobby(&chan, &alice, false, 0), Outcome::Created);
    assert_eq!(store.join_lobby(&chan, &bob), Outcome::Joined);
    let lobby = store.lobby_of(&chan).expect("lobby should exist");
    assert_eq!(lobby.players, vec![s("alice"), s("bob")]);
    assert_eq!(store.channel_of(&bob), Some(&s("chan1")));
}

#[test]
fn member_leave_keeps_lobby() {
    let mut store = LobbyStore::new();
    let chan = s("chan1");
    let alice = s("alice");
    let bob = s("bob");
    store.create_lobby(&chan, &alice, false, 0);
    store.join_lobby(&chan, &bob);
    assert_eq!(store.leave_lobby(&chan, &bob), Outcome::Left);
    let lobby = store.lobby_of(&chan).expect("lobby should exist");
    assert_eq!(lobby.players, vec![s("alice")]);
    assert_eq!(store.channel_of(&bob), None);
}

#[test]
fn creator_leave_disbands() {
    let mut store = LobbyStore::new();
    let chan = s("chan1");
    let alice = s("alice");
    let bob = s("bob");
    store.create_lobby(&chan, &alice, false, 0);
    store.join_lobby(&chan, &bob);
    assert_eq!(store.leave_lobby(&chan, &alice), Outcome::Disbanded);
    assert!(store.lobby_of(&chan).is_none());
    assert_eq!(store.channel_of(&alice), None);
    assert_eq!(store.channel_of(&bob), None);
}

#[test]
fn hijack_without_permission_is_denied() {
    let mut store = LobbyStore::new();
    let chan = s("chan1");
    let alice = s("alice");
    let carol = s("carol");
    store.create_lobby(&chan, &alice, false, 0);
    assert_eq!(store.create_lobby(&chan, &carol, true, 0), Outcome::PermissionDenied);
    let lobby = store.lobby_of(&chan).expect("lobby should exist");
    assert_eq!(lobby.creator, s("alice"));
    assert_eq!(lobby.players, vec![s("alice")]);
    assert_eq!(store.channel_of(&carol), None);
}

#[test]
fn hijack_with_permission_joins_and_keeps_creator() {
    let mut store = LobbyStore::new();
    let chan = s("chan1");
    let alice = s("alice");
    let carol = s("carol");
    store.create_lobby(&chan, &alice, false, 0);
    assert_eq!(store.create_lobby(&chan, &carol, true, MANAGE_MESSAGES), Outcome::Joined);
    let lobby = store.lobby_of(&chan).expect("lobby should exist");
    assert_eq!(lobby.creator, s("alice"));
    assert_eq!(lobby.players, vec![s("alice"), s("carol")]);
    assert_eq!(store.channel_of(&carol), Some(&s("chan1")));
}

#[test]
fn hijack_flag_has_no_effect_on_empty_channel() {
    let mut store = LobbyStore::new();
    let chan = s("chan1");
    let alice = s("alice");
    assert_eq!(store.create_lobby(&chan, &alice, true, MANAGE_MESSAGES), Outcome::Created);
    let lobby = store.lobby_of(&chan).expect("lobby should exist");
    assert_eq!(lobby.creator, s("alice"));
    assert_eq!(lobby.players, vec![s("alice")]);
}

#[test]
fn create_then_leave_round_trip_empties_store() {
    let mut store = LobbyStore::new();
    let chan = s("chan1");
    let alice = s("alice");
    assert_eq!(store.create_lobby(&chan, &alice, false, 0), Outcome::Created);
    assert_eq!(store.leave_lobby(&chan, &alice), Outcome::Disbanded);
    assert!(store.lobby_of(&chan).is_none());
    assert_eq!(store.channel_of(&alice), None);
}

#[test]
fn create_twice_is_not_idempotent() {
    let mut store = LobbyStore::new();
    let chan = s("chan1");
    let alice = s("alice");
    assert_eq!(store.create_lobby(&chan, &alice, false, 0), Outcome::Created);
    assert_eq!(store.create_lobby(&chan, &alice, false, 0), Outcome::AlreadyInLobby);
    let lobby = store.lobby_of(&chan).expect("lobby should exist");
    assert_eq!(lobby.players, vec![s("alice")]);
}

#[test]
fn racing_creates_resolve_to_one_winner() {
    let mut store = LobbyStore::new();
    let chan = s("chan1");
    let alice = s("alice");
    let bob = s("bob");
    assert_eq!(store.create_lobby(&chan, &alice, false, 0), Outcome::Created);
    assert_eq!(store.create_lobby(&chan, &bob, false, 0), Outcome::LobbyExists);
    let lobby = store.lobby_of(&chan).expect("lobby should exist");
    assert_eq!(lobby.players, vec![s("alice")]);
    assert_eq!(store.channel_of(&bob), None);
}

#[test]
fn create_from_another_lobby_is_refused() {
    let mut store = LobbyStore::new();
    let chan1 = s("chan1");
    let chan2 = s("chan2");
    let alice = s("alice");
    store.create_lobby(&chan1, &alice, false, 0);
    assert_eq!(store.create_lobby(&chan2, &alice, false, 0), Outcome::AlreadyInOtherLobby);
    assert!(store.lobby_of(&chan2).is_none());
}

#[test]
fn join_without_lobby_is_refused() {
    let mut store = LobbyStore::new();
    assert_eq!(store.join_lobby(&s("chan1"), &s("bob")), Outcome::NoLobby);
    assert_eq!(store.channel_of(&s("bob")), None);
}

#[test]
fn join_from_another_lobby_is_refused() {
    let mut store = LobbyStore::new();
    let chan1 = s("chan1");
    let chan2 = s("chan2");
    let alice = s("alice");
    let bob = s("bob");
    store.create_lobby(&chan1, &alice, false, 0);
    store.create_lobby(&chan2, &bob, false, 0);
    assert_eq!(store.join_lobby(&chan1, &bob), Outcome::AlreadyInLobby);
    assert_eq!(store.lobby_of(&chan1).unwrap().players, vec![s("alice")]);
}

#[test]
fn leave_without_membership_is_refused() {
    let mut store = LobbyStore::new();
    let chan1 = s("chan1");
    let chan2 = s("chan2");
    let alice = s("alice");
    let bob = s("bob");
    assert_eq!(store.leave_lobby(&chan1, &bob), Outcome::NotInLobby);
    store.create_lobby(&chan1, &alice, false, 0);
    // Occupying a different channel's lobby does not let one leave this one.
    store.create_lobby(&chan2, &bob, false, 0);
    assert_eq!(store.leave_lobby(&chan1, &bob), Outcome::NotInLobby);
    assert_eq!(store.channel_of(&bob), Some(&s("chan2")));
}

#[test]
fn stale_index_entry_reports_corrupt() {
    // A live store never produces this state; the decision layer still has
    // to hand back the inconsistency instead of panicking.
    let chan = s("chan1");
    let alice = s("alice");
    let eff = decide_leave(Some(&chan), None, &chan, &alice);
    assert_eq!(eff.outcome, Outcome::Corrupt);
    assert_eq!(eff.entry_removes, vec![s("alice")]);
    assert!(eff.lobby_put.is_none());
    assert!(!eff.lobby_delete);
    assert!(!eff.entry_put);
}

#[test]
fn capability_is_bit_thirteen() {
    assert!(has_capability(MANAGE_MESSAGES, Capability::ManageMessages));
    assert!(has_capability(u128::MAX, Capability::ManageMessages));
    assert!(!has_capability(0, Capability::ManageMessages));
    assert!(!has_capability(MANAGE_MESSAGES - 1, Capability::ManageMessages));
    assert!(!has_capability(1 << 14, Capability::ManageMessages));
}
