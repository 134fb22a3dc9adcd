//! The executable lobby store and its command decisions.
//!
//! Each command is split into a pure decision and its application.  The
//! decision reads at most two values — the caller's index entry and the
//! channel's lobby — and produces an [`Effects`] record: the outcome plus
//! the writes to perform.  The decision functions are proved to implement
//! the model's transition functions for every store whose reads match, so
//! the same decisions drive both the in-memory [`LobbyStore`] here and a
//! persistent collection applied outside, inside one atomic transaction.

use vstd::prelude::*;

use crate::kv::StrKeyMap;
use crate::state::{
    LobbyView, Outcome, StoreView, consistent, create_step, empty_store, join_step, leave_step,
    lemma_create_preserves_consistent, lemma_empty_consistent, lemma_join_preserves_consistent,
    lemma_leave_preserves_consistent, spec_has_manage_messages,
};

verus! {

/// One lobby record: the player who opened it and the members in join order.
#[derive(Debug)]
pub struct Lobby {
    pub creator: String,
    pub players: Vec<String>,
}

impl View for Lobby {
    type V = LobbyView;

    open spec fn view(&self) -> LobbyView {
        LobbyView { creator: self.creator@, players: self.players.deep_view() }
    }
}

/// Clones a roster of identifier strings.
fn clone_strings(v: &Vec<String>) -> (r: Vec<String>)
    ensures
        r@ == v@,
        r.deep_view() == v.deep_view(),
{
    let n = v.len();
    let mut r: Vec<String> = Vec::new();
    let mut i: usize = 0;
    while i < n
        invariant
            n == v@.len(),
            i <= n,
            r@.len() == i,
            forall|j: int| 0 <= j < i ==> r@[j] == v@[j],
        decreases n - i,
    {
        r.push(v[i].clone());
        i += 1;
    }
    proof {
        assert(r@ =~= v@);
        assert(r.deep_view() =~= v.deep_view());
    }
    r
}

impl Lobby {
    /// Builds a lobby record from its parts.
    pub fn make(creator: String, players: Vec<String>) -> (l: Lobby)
        ensures
            l@ == (LobbyView { creator: creator@, players: players.deep_view() }),
    {
        Lobby { creator, players }
    }

    /// The player who opened the lobby.
    pub fn creator(&self) -> (r: &String)
        ensures
            r@ == self@.creator,
    {
        &self.creator
    }

    /// The members, in join order.
    pub fn players(&self) -> (r: &Vec<String>)
        ensures
            r.deep_view() == self@.players,
    {
        &self.players
    }

}

/// The named capabilities of the platform's permission mask that the
/// commands care about.
#[derive(Debug, Clone, Copy, PartialEq, Eq, Structural)]
pub enum Capability {
    /// Required to hijack an occupied channel's lobby; bit 13 of the mask.
    ManageMessages,
}

/// Tests a capability bit of a caller's permission mask.
pub fn has_capability(mask: u128, cap: Capability) -> (r: bool)
    ensures
        r == match cap { Capability::ManageMessages => spec_has_manage_messages(mask) },
{
    match cap {
        Capability::ManageMessages => (mask >> 13) & 1 == 1,
    }
}

/// The writes a command decision asks for, together with its outcome.  The
/// lobby writes are keyed by the command's channel; `entry_put` binds the
/// caller's index entry to that channel.
pub struct Effects {
    pub outcome: Outcome,
    pub lobby_put: Option<Lobby>,
    pub lobby_delete: bool,
    pub entry_put: bool,
    pub entry_removes: Vec<String>,
}

/// The store that results from applying the writes of `e`, issued for
/// channel `c` by caller `p`, to store `s`.
pub open spec fn effects_applied(s: StoreView, c: Seq<char>, p: Seq<char>, e: Effects) -> StoreView {
    let lobbies = if e.lobby_delete {
        s.lobbies.remove(c)
    } else if e.lobby_put is Some {
        s.lobbies.insert(c, e.lobby_put->0@)
    } else {
        s.lobbies
    };
    let trimmed = s.players.remove_keys(e.entry_removes.deep_view().to_set());
    let players = if e.entry_put {
        trimmed.insert(p, c)
    } else {
        trimmed
    };
    StoreView { lobbies, players }
}

/// The caller's index entry, as a decision receives it, agrees with store `s`.
pub open spec fn entry_matches(s: StoreView, p: Seq<char>, entry: Option<&String>) -> bool {
    match entry {
        Some(v) => s.players.contains_key(p) && s.players[p] == v@,
        None => !s.players.contains_key(p),
    }
}

/// The channel's lobby, as a decision receives it, agrees with store `s`.
pub open spec fn lobby_matches(s: StoreView, c: Seq<char>, cur: Option<&Lobby>) -> bool {
    match cur {
        Some(l) => s.lobbies.contains_key(c) && s.lobbies[c] == l@,
        None => !s.lobbies.contains_key(c),
    }
}

/// Effects that write nothing apply as the identity.
proof fn lemma_noop_applied(s: StoreView, c: Seq<char>, p: Seq<char>, e: Effects)
    requires
        e.lobby_put is None,
        !e.lobby_delete,
        !e.entry_put,
        e.entry_removes.deep_view().len() == 0,
    ensures
        effects_applied(s, c, p, e) == s,
{
    assert(e.entry_removes.deep_view().to_set() =~= Set::empty());
    assert(s.players.remove_keys(e.entry_removes.deep_view().to_set()) =~= s.players);
    assert(effects_applied(s, c, p, e) =~= s);
}

/// An empty effects record carrying only an outcome.
fn noop_effects(outcome: Outcome) -> (e: Effects)
    ensures
        e.outcome == outcome,
        e.lobby_put is None,
        !e.lobby_delete,
        !e.entry_put,
        e.entry_removes.deep_view().len() == 0,
        forall|s: StoreView, c: Seq<char>, p: Seq<char>|
            #[trigger] effects_applied(s, c, p, e) == s,
{
    let e = Effects {
        outcome,
        lobby_put: None,
        lobby_delete: false,
        entry_put: false,
        entry_removes: Vec::new(),
    };
    proof {
        assert forall|s: StoreView, c: Seq<char>, p: Seq<char>|
            #[trigger] effects_applied(s, c, p, e) == s by {
            lemma_noop_applied(s, c, p, e);
        }
    }
    e
}

/// Decides the create command from the two transactional reads.
///
/// For every store whose caller entry and channel lobby agree with the
/// reads, the returned outcome and writes implement the model's create
/// transition exactly.
pub fn decide_create(
    entry: Option<&String>,
    cur: Option<&Lobby>,
    channel: &String,
    caller: &String,
    hijack: bool,
    mask: u128,
) -> (e: Effects)
    ensures
        forall|s: StoreView|
            entry_matches(s, caller@, entry) && lobby_matches(s, channel@, cur)
                ==> #[trigger] create_step(s, channel@, caller@, hijack, mask)
                    == (e.outcome, effects_applied(s, channel@, caller@, e)),
{
    if hijack && !has_capability(mask, Capability::ManageMessages) {
        return noop_effects(Outcome::PermissionDenied);
    }
    match entry {
        Some(v) => {
            if *v == *channel {
                noop_effects(Outcome::AlreadyInLobby)
            } else {
                noop_effects(Outcome::AlreadyInOtherLobby)
            }
        },
        None => {
            match cur {
                Some(l) => {
                    if hijack {
                        let mut roster = clone_strings(&l.players);
                        roster.push(caller.clone());
                        proof {
                            assert(roster.deep_view() =~= l.players.deep_view().push(caller@));
                        }
                        let e = Effects {
                            outcome: Outcome::Joined,
                            lobby_put: Some(Lobby { creator: l.creator.clone(), players: roster }),
                            lobby_delete: false,
                            entry_put: true,
                            entry_removes: Vec::new(),
                        };
                        proof {
                            assert forall|s: StoreView|
                                entry_matches(s, caller@, entry)
                                    && lobby_matches(s, channel@, cur)
                                implies #[trigger] create_step(s, channel@, caller@, hijack, mask)
                                    == (e.outcome, effects_applied(s, channel@, caller@, e)) by {
                                assert(e.entry_removes.deep_view().to_set() =~= Set::empty());
                                assert(s.players.remove_keys(
                                    e.entry_removes.deep_view().to_set(),
                                ) =~= s.players);
                                assert(effects_applied(s, channel@, caller@, e)
                                    =~= create_step(s, channel@, caller@, hijack, mask).1);
                            }
                        }
                        e
                    } else {
                        noop_effects(Outcome::LobbyExists)
                    }
                },
                None => {
                    let mut roster: Vec<String> = Vec::new();
                    roster.push(caller.clone());
                    proof {
                        assert(roster.deep_view() =~= seq![caller@]);
                    }
                    let e = Effects {
                        outcome: Outcome::Created,
                        lobby_put: Some(Lobby { creator: caller.clone(), players: roster }),
                        lobby_delete: false,
                        entry_put: true,
                        entry_removes: Vec::new(),
                    };
                    proof {
                        assert forall|s: StoreView|
                            entry_matches(s, caller@, entry) && lobby_matches(s, channel@, cur)
                            implies #[trigger] create_step(s, channel@, caller@, hijack, mask)
                                == (e.outcome, effects_applied(s, channel@, caller@, e)) by {
                            assert(e.entry_removes.deep_view().to_set() =~= Set::empty());
                            assert(s.players.remove_keys(e.entry_removes.deep_view().to_set())
                                =~= s.players);
                            assert(effects_applied(s, channel@, caller@, e)
                                =~= create_step(s, channel@, caller@, hijack, mask).1);
                        }
                    }
                    e
                },
            }
        },
    }
}

/// Decides the join command from the two transactional reads.
///
/// For every store whose caller entry and channel lobby agree with the
/// reads, the returned outcome and writes implement the model's join
/// transition exactly.
pub fn decide_join(
    entry: Option<&String>,
    cur: Option<&Lobby>,
    channel: &String,
    caller: &String,
) -> (e: Effects)
    ensures
        forall|s: StoreView|
            entry_matches(s, caller@, entry) && lobby_matches(s, channel@, cur)
                ==> #[trigger] join_step(s, channel@, caller@)
                    == (e.outcome, effects_applied(s, channel@, caller@, e)),
{
    match entry {
        Some(_) => noop_effects(Outcome::AlreadyInLobby),
        None => {
            match cur {
                None => noop_effects(Outcome::NoLobby),
                Some(l) => {
                    let mut roster = clone_strings(&l.players);
                    roster.push(caller.clone());
                    proof {
                        assert(roster.deep_view() =~= l.players.deep_view().push(caller@));
                    }
                    let e = Effects {
                        outcome: Outcome::Joined,
                        lobby_put: Some(Lobby { creator: l.creator.clone(), players: roster }),
                        lobby_delete: false,
                        entry_put: true,
                        entry_removes: Vec::new(),
                    };
                    proof {
                        assert forall|s: StoreView|
                            entry_matches(s, caller@, entry) && lobby_matches(s, channel@, cur)
                            implies #[trigger] join_step(s, channel@, caller@)
                                == (e.outcome, effects_applied(s, channel@, caller@, e)) by {
                            assert(e.entry_removes.deep_view().to_set() =~= Set::empty());
                            assert(s.players.remove_keys(e.entry_removes.deep_view().to_set())
                                =~= s.players);
                            assert(effects_applied(s, channel@, caller@, e)
                                =~= join_step(s, channel@, caller@).1);
                        }
                    }
                    e
                },
            }
        },
    }
}

/// A roster with the first occurrence of one player removed.
fn roster_without(v: &Vec<String>, p: &String) -> (r: Vec<String>)
    ensures
        r.deep_view() == v.deep_view().remove_value(p@),
{
    let ghost dv = v.deep_view();
    let n = v.len();
    let mut i: usize = 0;
    while i < n
        invariant
            dv == v.deep_view(),
            n == v@.len(),
            i <= n,
            forall|j: int| 0 <= j < i ==> dv[j] != p@,
        decreases n - i,
    {
        if v[i] == *p {
            let mut r = clone_strings(v);
            proof {
                dv.index_of_first_ensures(p@);
                assert(dv[i as int] == p@);
                let fi = dv.index_of_first(p@).unwrap();
                assert(dv[fi] == p@);
                assert(fi == i as int);
                (r@).remove_ensures(i as int);
                dv.remove_ensures(i as int);
            }
            r.remove(i);
            proof {
                assert(r.deep_view() =~= dv.remove(i as int));
                assert(dv.remove_value(p@) == dv.remove(i as int));
            }
            return r;
        }
        i += 1;
    }
    let r = clone_strings(v);
    proof {
        assert(!dv.contains(p@));
        dv.index_of_first_ensures(p@);
    }
    r
}

/// The set denoted by a one-element sequence.
proof fn lemma_singleton_set(dv: Seq<Seq<char>>, x: Seq<char>)
    requires
        dv.len() == 1,
        dv[0] == x,
    ensures
        dv.to_set() =~= Set::empty().insert(x),
{
    assert(dv.contains(x));
    assert forall|q: Seq<char>| dv.to_set().contains(q) implies q == x by {
        let j = choose|j: int| 0 <= j < dv.len() && dv[j] == q;
        assert(dv[j] == q);
    }
}

/// The set denoted by one more element of a sequence's prefix.
proof fn lemma_prefix_set_step(dv: Seq<Seq<char>>, i: int)
    requires
        0 <= i < dv.len(),
    ensures
        dv.subrange(0, i + 1).to_set() =~= dv.subrange(0, i).to_set().insert(dv[i]),
{
    let a = dv.subrange(0, i + 1);
    let b = dv.subrange(0, i);
    assert forall|q: Seq<char>| a.to_set().contains(q)
        implies b.to_set().contains(q) || q == dv[i] by {
        let j = choose|j: int| 0 <= j < a.len() && a[j] == q;
        if j < i {
            assert(b[j] == q);
        } else {
            assert(a[j] == dv[i]);
        }
    }
    assert forall|q: Seq<char>| b.to_set().contains(q) || q == dv[i]
        implies a.to_set().contains(q) by {
        if b.to_set().contains(q) {
            let j = choose|j: int| 0 <= j < b.len() && b[j] == q;
            assert(a[j] == q);
        } else {
            assert(a[i] == q);
        }
    }
}

/// Decides the leave command from the two transactional reads.
///
/// For every store whose caller entry and channel lobby agree with the
/// reads, the returned outcome and writes implement the model's leave
/// transition exactly.
pub fn decide_leave(
    entry: Option<&String>,
    cur: Option<&Lobby>,
    channel: &String,
    caller: &String,
) -> (e: Effects)
    ensures
        forall|s: StoreView|
            entry_matches(s, caller@, entry) && lobby_matches(s, channel@, cur)
                ==> #[trigger] leave_step(s, channel@, caller@)
                    == (e.outcome, effects_applied(s, channel@, caller@, e)),
{
    let stale = match entry {
        None => true,
        Some(v) => *v != *channel,
    };
    if stale {
        return noop_effects(Outcome::NotInLobby);
    }
    match cur {
        None => {
            let mut removes: Vec<String> = Vec::new();
            removes.push(caller.clone());
            let e = Effects {
                outcome: Outcome::Corrupt,
                lobby_put: None,
                lobby_delete: false,
                entry_put: false,
                entry_removes: removes,
            };
            proof {
                assert forall|s: StoreView|
                    entry_matches(s, caller@, entry) && lobby_matches(s, channel@, cur)
                    implies #[trigger] leave_step(s, channel@, caller@)
                        == (e.outcome, effects_applied(s, channel@, caller@, e)) by {
                    assert(e.entry_removes.deep_view() =~= seq![caller@]);
                    lemma_singleton_set(e.entry_removes.deep_view(), caller@);
                    assert(s.players.remove_keys(e.entry_removes.deep_view().to_set())
                        =~= s.players.remove(caller@));
                    assert(effects_applied(s, channel@, caller@, e)
                        =~= leave_step(s, channel@, caller@).1);
                }
            }
            e
        },
        Some(l) => {
            if l.creator == *caller {
                let mut removes = clone_strings(&l.players);
                removes.push(caller.clone());
                let e = Effects {
                    outcome: Outcome::Disbanded,
                    lobby_put: None,
                    lobby_delete: true,
                    entry_put: false,
                    entry_removes: removes,
                };
                proof {
                    assert forall|s: StoreView|
                        entry_matches(s, caller@, entry) && lobby_matches(s, channel@, cur)
                        implies #[trigger] leave_step(s, channel@, caller@)
                            == (e.outcome, effects_applied(s, channel@, caller@, e)) by {
                        let members = l.players.deep_view();
                        let dv = e.entry_removes.deep_view();
                        assert(dv =~= members.push(caller@));
                        assert forall|q: Seq<char>| dv.to_set().contains(q)
                            implies members.to_set().contains(q) || q == caller@ by {
                            let j = choose|j: int| 0 <= j < dv.len() && dv[j] == q;
                            if j < members.len() {
                                assert(members[j] == q);
                            }
                        }
                        assert forall|q: Seq<char>|
                            members.to_set().contains(q) || q == caller@
                            implies dv.to_set().contains(q) by {
                            if members.to_set().contains(q) {
                                let j = choose|j: int|
                                    0 <= j < members.len() && members[j] == q;
                                assert(dv[j] == q);
                            } else {
                                assert(dv[members.len() as int] == q);
                            }
                        }
                        assert(s.players.remove_keys(dv.to_set())
                            =~= s.players.remove(caller@).remove_keys(members.to_set()));
                        assert(effects_applied(s, channel@, caller@, e)
                            =~= leave_step(s, channel@, caller@).1);
                    }
                }
                e
            } else {
                let roster = roster_without(&l.players, caller);
                let mut removes: Vec<String> = Vec::new();
                removes.push(caller.clone());
                let e = Effects {
                    outcome: Outcome::Left,
                    lobby_put: Some(Lobby { creator: l.creator.clone(), players: roster }),
                    lobby_delete: false,
                    entry_put: false,
                    entry_removes: removes,
                };
                proof {
                    assert forall|s: StoreView|
                        entry_matches(s, caller@, entry) && lobby_matches(s, channel@, cur)
                        implies #[trigger] leave_step(s, channel@, caller@)
                            == (e.outcome, effects_applied(s, channel@, caller@, e)) by {
                        assert(e.entry_removes.deep_view() =~= seq![caller@]);
                        lemma_singleton_set(e.entry_removes.deep_view(), caller@);
                        assert(s.players.remove_keys(e.entry_removes.deep_view().to_set())
                            =~= s.players.remove(caller@));
                        assert(effects_applied(s, channel@, caller@, e)
                            =~= leave_step(s, channel@, caller@).1);
                    }
                }
                e
            }
        },
    }
}

/// The in-memory lobby store: both key spaces under one owner, mutated only
/// through the command operations, each of which follows the model's
/// transition exactly.
pub struct LobbyStore {
    lobbies: StrKeyMap<Lobby>,
    players: StrKeyMap<String>,
}

impl View for LobbyStore {
    type V = StoreView;

    closed spec fn view(&self) -> StoreView {
        StoreView { lobbies: self.lobbies@, players: self.players@ }
    }
}

impl LobbyStore {
    /// The store's representation invariant.
    pub closed spec fn wf(&self) -> bool {
        self.lobbies.wf() && self.players.wf()
    }

    /// An empty store.
    pub fn new() -> (s: LobbyStore)
        ensures
            s.wf(),
            s@ == empty_store(),
            consistent(s@),
    {
        let s = LobbyStore { lobbies: StrKeyMap::new(), players: StrKeyMap::new() };
        proof {
            assert(s@ =~= empty_store());
            lemma_empty_consistent();
        }
        s
    }

    /// The channel's current lobby, if any.
    pub fn lobby_of(&self, channel: &String) -> (r: Option<&Lobby>)
        requires
            self.wf(),
        ensures
            lobby_matches(self@, channel@, r),
    {
        self.lobbies.get(channel)
    }

    /// The channel of the lobby the player currently occupies, if any.
    pub fn channel_of(&self, player: &String) -> (r: Option<&String>)
        requires
            self.wf(),
        ensures
            entry_matches(self@, player@, r),
    {
        self.players.get(player)
    }

    /// Applies a decision's writes, atomically from any caller's view: the
    /// store is owned mutably for the whole of it.
    pub fn apply(&mut self, channel: &String, caller: &String, e: Effects)
        requires
            old(self).wf(),
        ensures
            final(self).wf(),
            final(self)@ == effects_applied(old(self)@, channel@, caller@, e),
    {
        let ghost s0 = self@;
        let Effects { outcome: _, lobby_put, lobby_delete, entry_put, entry_removes } = e;
        if lobby_delete {
            self.lobbies.remove(channel);
        } else if let Some(l) = lobby_put {
            self.lobbies.insert(channel.clone(), l);
        }
        let ghost lob1 = self.lobbies@;
        let ghost dv = entry_removes.deep_view();
        proof {
            assert(dv.subrange(0, 0).to_set() =~= Set::empty());
            assert(s0.players.remove_keys(dv.subrange(0, 0).to_set()) =~= s0.players);
        }
        let n = entry_removes.len();
        let mut i: usize = 0;
        while i < n
            invariant
                n == entry_removes@.len(),
                dv == entry_removes.deep_view(),
                i <= n,
                self.lobbies.wf(),
                self.lobbies@ == lob1,
                self.players.wf(),
                self.players@ == s0.players.remove_keys(dv.subrange(0, i as int).to_set()),
            decreases n - i,
        {
            self.players.remove(&entry_removes[i]);
            proof {
                lemma_prefix_set_step(dv, i as int);
                assert(s0.players.remove_keys(dv.subrange(0, i as int).to_set()).remove(
                    dv[i as int],
                ) =~= s0.players.remove_keys(dv.subrange(0, i as int + 1).to_set()));
            }
            i += 1;
        }
        proof {
            assert(dv.subrange(0, n as int) =~= dv);
        }
        if entry_put {
            self.players.insert(caller.clone(), channel.clone());
        }
        proof {
            assert(self@ =~= effects_applied(s0, channel@, caller@, e));
        }
    }

    /// The create command: one atomic read-decide-write.
    pub fn create_lobby(
        &mut self,
        channel: &String,
        caller: &String,
        hijack: bool,
        mask: u128,
    ) -> (r: Outcome)
        requires
            old(self).wf(),
        ensures
            final(self).wf(),
            r == create_step(old(self)@, channel@, caller@, hijack, mask).0,
            final(self)@ == create_step(old(self)@, channel@, caller@, hijack, mask).1,
            consistent(old(self)@) ==> consistent(final(self)@),
    {
        proof {
            if consistent(self@) {
                lemma_create_preserves_consistent(self@, channel@, caller@, hijack, mask);
            }
        }
        let ghost s0 = self@;
        let entry = self.players.get(caller);
        let cur = self.lobbies.get(channel);
        let e = decide_create(entry, cur, channel, caller, hijack, mask);
        let r = e.outcome;
        let ghost ge = e;
        proof {
            assert(create_step(s0, channel@, caller@, hijack, mask)
                == (ge.outcome, effects_applied(s0, channel@, caller@, ge)));
        }
        self.apply(channel, caller, e);
        r
    }

    /// The join command: one atomic read-decide-write.
    pub fn join_lobby(&mut self, channel: &String, caller: &String) -> (r: Outcome)
        requires
            old(self).wf(),
        ensures
            final(self).wf(),
            r == join_step(old(self)@, channel@, caller@).0,
            final(self)@ == join_step(old(self)@, channel@, caller@).1,
            consistent(old(self)@) ==> consistent(final(self)@),
    {
        proof {
            if consistent(self@) {
                lemma_join_preserves_consistent(self@, channel@, caller@);
            }
        }
        let ghost s0 = self@;
        let entry = self.players.get(caller);
        let cur = self.lobbies.get(channel);
        let e = decide_join(entry, cur, channel, caller);
        let r = e.outcome;
        let ghost ge = e;
        proof {
            assert(join_step(s0, channel@, caller@)
                == (ge.outcome, effects_applied(s0, channel@, caller@, ge)));
        }
        self.apply(channel, caller, e);
        r
    }

    /// The leave command: one atomic read-decide-write.
    pub fn leave_lobby(&mut self, channel: &String, caller: &String) -> (r: Outcome)
        requires
            old(self).wf(),
        ensures
            final(self).wf(),
            r == leave_step(old(self)@, channel@, caller@).0,
            final(self)@ == leave_step(old(self)@, channel@, caller@).1,
            consistent(old(self)@) ==> consistent(final(self)@),
    {
        proof {
            if consistent(self@) {
                lemma_leave_preserves_consistent(self@, channel@, caller@);
            }
        }
        let ghost s0 = self@;
        let entry = self.players.get(caller);
        let cur = self.lobbies.get(channel);
        let e = decide_leave(entry, cur, channel, caller);
        let r = e.outcome;
        let ghost ge = e;
        proof {
            assert(leave_step(s0, channel@, caller@)
                == (ge.outcome, effects_applied(s0, channel@, caller@, ge)));
        }
        self.apply(channel, caller, e);
        r
    }
}

} // verus!
