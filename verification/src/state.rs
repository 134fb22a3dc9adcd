//! Mathematical model of the lobby store.
//!
//! A store is two finite maps: `lobbies` sends a channel to its lobby record,
//! `players` is the reverse membership index sending a player to the channel
//! of the lobby they occupy.  The command operations are modelled as pure
//! transition functions from a store and the command's arguments to an
//! [`Outcome`] and the successor store; the executable store is proved to
//! follow these transitions exactly.

use vstd::prelude::*;

verus! {

/// Model of one lobby record: its creator and its members in join order.
#[verifier::ext_equal]
pub ghost struct LobbyView {
    pub creator: Seq<char>,
    pub players: Seq<Seq<char>>,
}

/// Model of the whole store: both key spaces.
#[verifier::ext_equal]
pub ghost struct StoreView {
    pub lobbies: Map<Seq<char>, LobbyView>,
    pub players: Map<Seq<char>, Seq<char>>,
}

/// The discriminated result of a lobby-store operation.  The router picks the
/// user-facing reply text from this value alone.
#[derive(Debug, Clone, Copy, PartialEq, Eq, Structural)]
pub enum Outcome {
    /// A fresh lobby was opened with the caller as creator and sole member.
    Created,
    /// The caller was appended to the channel's existing lobby.
    Joined,
    /// The caller, not the creator, was removed from the lobby.
    Left,
    /// The creator left: the lobby and every member's index entry are gone.
    Disbanded,
    /// The caller already occupies this channel's lobby.
    AlreadyInLobby,
    /// The caller already occupies a different channel's lobby.
    AlreadyInOtherLobby,
    /// The channel is occupied and hijacking was not in effect.
    LobbyExists,
    /// The channel has no lobby to join.
    NoLobby,
    /// The caller occupies no lobby in this channel, so cannot leave it.
    NotInLobby,
    /// Hijacking was requested without the required permission bit.
    PermissionDenied,
    /// The index pointed at a channel with no lobby record: a stale entry
    /// left by an earlier fault.  The stale entry is dropped and the
    /// inconsistency is surfaced instead of a panic.
    Corrupt,
}

/// The store before any command has run.
pub open spec fn empty_store() -> StoreView {
    StoreView { lobbies: Map::empty(), players: Map::empty() }
}

/// A lobby record is well formed when its creator is a member and no member
/// is listed twice.
pub open spec fn lobby_wf(l: LobbyView) -> bool {
    &&& l.players.contains(l.creator)
    &&& l.players.no_duplicates()
}

/// The store's invariant.
///
/// A player appears as an index key exactly when the lobby named by the
/// entry's value lists that player as a member: no dangling and no missing
/// reverse links.  Every lobby record is itself well formed.  That each map
/// is a function (one lobby per channel, one lobby per player) is inherent
/// in the map model.
pub open spec fn consistent(s: StoreView) -> bool {
    &&& forall|p: Seq<char>| #[trigger] s.players.contains_key(p) ==> {
        &&& s.lobbies.contains_key(s.players[p])
        &&& s.lobbies[s.players[p]].players.contains(p)
    }
    &&& forall|c: Seq<char>, p: Seq<char>|
        s.lobbies.contains_key(c) && #[trigger] s.lobbies[c].players.contains(p)
            ==> s.players.contains_key(p) && s.players[p] == c
    &&& forall|c: Seq<char>| #[trigger] s.lobbies.contains_key(c) ==> lobby_wf(s.lobbies[c])
}

/// The privileged "manage messages" capability sits at bit 13 of the
/// platform's permission mask.
pub open spec fn spec_has_manage_messages(mask: u128) -> bool {
    (mask >> 13) & 1 == 1
}

/// Transition of the create command.
///
/// Permission is checked before anything else: a hijack request without the
/// capability is denied without touching the store.  A caller already in a
/// lobby is turned away.  An occupied channel blocks creation unless
/// hijacking is in effect, in which case the caller is appended to the
/// existing lobby and its creator is kept.  On an empty channel a fresh
/// lobby is opened; the hijack flag has no effect there.
pub open spec fn create_step(
    s: StoreView,
    c: Seq<char>,
    p: Seq<char>,
    hijack: bool,
    mask: u128,
) -> (Outcome, StoreView) {
    if hijack && !spec_has_manage_messages(mask) {
        (Outcome::PermissionDenied, s)
    } else if s.players.contains_key(p) {
        if s.players[p] == c {
            (Outcome::AlreadyInLobby, s)
        } else {
            (Outcome::AlreadyInOtherLobby, s)
        }
    } else if s.lobbies.contains_key(c) {
        if hijack {
            let l = s.lobbies[c];
            (
                Outcome::Joined,
                StoreView {
                    lobbies: s.lobbies.insert(
                        c,
                        LobbyView { creator: l.creator, players: l.players.push(p) },
                    ),
                    players: s.players.insert(p, c),
                },
            )
        } else {
            (Outcome::LobbyExists, s)
        }
    } else {
        (
            Outcome::Created,
            StoreView {
                lobbies: s.lobbies.insert(c, LobbyView { creator: p, players: seq![p] }),
                players: s.players.insert(p, c),
            },
        )
    }
}

/// Transition of the join command: a free caller joins the channel's
/// existing lobby, anything else is a no-op with an explanatory outcome.
pub open spec fn join_step(s: StoreView, c: Seq<char>, p: Seq<char>) -> (Outcome, StoreView) {
    if s.players.contains_key(p) {
        (Outcome::AlreadyInLobby, s)
    } else if !s.lobbies.contains_key(c) {
        (Outcome::NoLobby, s)
    } else {
        let l = s.lobbies[c];
        (
            Outcome::Joined,
            StoreView {
                lobbies: s.lobbies.insert(
                    c,
                    LobbyView { creator: l.creator, players: l.players.push(p) },
                ),
                players: s.players.insert(p, c),
            },
        )
    }
}

/// Transition of the leave command.
///
/// A caller whose index entry is absent or names another channel is turned
/// away untouched.  Otherwise the entry is dropped first; if the lobby
/// record is then found missing the store was already inconsistent and the
/// command reports `Corrupt` instead of panicking.  The creator leaving
/// disbands the lobby and cascades removal of every member's entry; any
/// other member is removed from the roster alone.
pub open spec fn leave_step(s: StoreView, c: Seq<char>, p: Seq<char>) -> (Outcome, StoreView) {
    if !s.players.contains_key(p) || s.players[p] != c {
        (Outcome::NotInLobby, s)
    } else {
        let trimmed = s.players.remove(p);
        if !s.lobbies.contains_key(c) {
            (Outcome::Corrupt, StoreView { lobbies: s.lobbies, players: trimmed })
        } else {
            let l = s.lobbies[c];
            if l.creator == p {
                (
                    Outcome::Disbanded,
                    StoreView {
                        lobbies: s.lobbies.remove(c),
                        players: trimmed.remove_keys(l.players.to_set()),
                    },
                )
            } else {
                (
                    Outcome::Left,
                    StoreView {
                        lobbies: s.lobbies.insert(
                            c,
                            LobbyView { creator: l.creator, players: l.players.remove_value(p) },
                        ),
                        players: trimmed,
                    },
                )
            }
        }
    }
}

/// The empty store satisfies the invariant: the initial state is consistent.
pub proof fn lemma_empty_consistent()
    ensures
        consistent(empty_store()),
{
}

/// Removing the first occurrence of a value from a duplicate-free sequence
/// removes exactly that value and keeps the sequence duplicate free.
proof fn lemma_remove_value_distinct(s: Seq<Seq<char>>, p: Seq<char>)
    requires
        s.no_duplicates(),
        s.contains(p),
    ensures
        s.remove_value(p).no_duplicates(),
        forall|q: Seq<char>|
            #[trigger] s.remove_value(p).contains(q) <==> s.contains(q) && q != p,
{
    s.index_of_first_ensures(p);
    let i = s.index_of_first(p).unwrap();
    s.remove_ensures(i);
    let r = s.remove_value(p);
    assert forall|q: Seq<char>| #[trigger] r.contains(q) implies s.contains(q) && q != p by {
        let k = choose|k: int| 0 <= k < r.len() && r[k] == q;
        if k < i {
            assert(s[k] == q);
            assert(s[k] != s[i]);
        } else {
            assert(s[k + 1] == q);
            assert(s[k + 1] != s[i]);
        }
    }
    assert forall|q: Seq<char>| s.contains(q) && q != p implies #[trigger] r.contains(q) by {
        let j = choose|j: int| 0 <= j < s.len() && s[j] == q;
        if j < i {
            assert(r[j] == q);
        } else {
            assert(j != i);
            assert(r[j - 1] == q);
        }
    }
    assert forall|a: int, b: int|
        0 <= a < r.len() && 0 <= b < r.len() && a != b implies r[a] != r[b] by {
        let a0: int = if a < i { a } else { a + 1 };
        let b0: int = if b < i { b } else { b + 1 };
        assert(r[a] == s[a0] && r[b] == s[b0]);
    }
}

/// Appending a free player to an existing lobby, together with the matching
/// index entry, preserves the invariant.  This is the mutating case shared
/// by the join command and by a permitted hijack.
proof fn lemma_append_member_consistent(s: StoreView, c: Seq<char>, p: Seq<char>)
    requires
        consistent(s),
        s.lobbies.contains_key(c),
        !s.players.contains_key(p),
    ensures
        ({
            let l = s.lobbies[c];
            consistent(
                StoreView {
                    lobbies: s.lobbies.insert(
                        c,
                        LobbyView { creator: l.creator, players: l.players.push(p) },
                    ),
                    players: s.players.insert(p, c),
                },
            )
        }),
{
    let l = s.lobbies[c];
    let roster = l.players.push(p);
    let t = StoreView {
        lobbies: s.lobbies.insert(c, LobbyView { creator: l.creator, players: roster }),
        players: s.players.insert(p, c),
    };
    // A free player sits in no roster.
    assert forall|c0: Seq<char>| #[trigger] s.lobbies.contains_key(c0)
        implies !s.lobbies[c0].players.contains(p) by {
        if s.lobbies[c0].players.contains(p) {
            assert(s.players.contains_key(p));
        }
    }
    assert(roster[l.players.len() as int] == p);
    assert forall|q: Seq<char>| #[trigger] roster.contains(q)
        implies l.players.contains(q) || q == p by {
        let k = choose|k: int| 0 <= k < roster.len() && roster[k] == q;
        if k < l.players.len() {
            assert(l.players[k] == q);
        }
    }
    assert forall|q: Seq<char>| #[trigger] l.players.contains(q) implies roster.contains(q) by {
        let k = choose|k: int| 0 <= k < l.players.len() && l.players[k] == q;
        assert(roster[k] == q);
    }
    assert forall|q: Seq<char>| #[trigger] t.players.contains_key(q) implies {
        &&& t.lobbies.contains_key(t.players[q])
        &&& t.lobbies[t.players[q]].players.contains(q)
    } by {
        if q != p {
            assert(s.players.contains_key(q));
        }
    }
    assert forall|c0: Seq<char>, q: Seq<char>|
        t.lobbies.contains_key(c0) && #[trigger] t.lobbies[c0].players.contains(q)
        implies t.players.contains_key(q) && t.players[q] == c0 by {
        if c0 == c {
            if q != p {
                assert(l.players.contains(q));
            }
        }
    }
    assert forall|c0: Seq<char>| #[trigger] t.lobbies.contains_key(c0)
        implies lobby_wf(t.lobbies[c0]) by {
        if c0 == c {
            assert(roster.contains(l.creator));
            assert(!l.players.contains(p));
            assert forall|a: int, b: int|
                0 <= a < roster.len() && 0 <= b < roster.len() && a != b
                implies roster[a] != roster[b] by {
                if a < l.players.len() && b < l.players.len() {
                } else if a < l.players.len() {
                    assert(l.players[a] == roster[a]);
                    assert(l.players.contains(roster[a]));
                } else if b < l.players.len() {
                    assert(l.players[b] == roster[b]);
                    assert(l.players.contains(roster[b]));
                }
            }
        }
    }
}

/// The create command preserves the invariant.
pub proof fn lemma_create_preserves_consistent(
    s: StoreView,
    c: Seq<char>,
    p: Seq<char>,
    hijack: bool,
    mask: u128,
)
    requires
        consistent(s),
    ensures
        consistent(create_step(s, c, p, hijack, mask).1),
{
    if hijack && !spec_has_manage_messages(mask) {
    } else if s.players.contains_key(p) {
    } else if s.lobbies.contains_key(c) {
        if hijack {
            lemma_append_member_consistent(s, c, p);
        }
    } else {
        let roster = seq![p];
        let t = create_step(s, c, p, hijack, mask).1;
        assert(roster[0] == p);
        assert forall|q: Seq<char>| #[trigger] roster.contains(q) implies q == p by {}
        assert forall|q: Seq<char>| #[trigger] t.players.contains_key(q) implies {
            &&& t.lobbies.contains_key(t.players[q])
            &&& t.lobbies[t.players[q]].players.contains(q)
        } by {
            if q != p {
                assert(s.players.contains_key(q));
                assert(s.lobbies.contains_key(s.players[q]));
            }
        }
        assert forall|c0: Seq<char>, q: Seq<char>|
            t.lobbies.contains_key(c0) && #[trigger] t.lobbies[c0].players.contains(q)
            implies t.players.contains_key(q) && t.players[q] == c0 by {
            if c0 != c {
                assert(s.lobbies[c0].players.contains(q));
                assert(s.players.contains_key(q));
            }
        }
    }
}

/// The join command preserves the invariant.
pub proof fn lemma_join_preserves_consistent(s: StoreView, c: Seq<char>, p: Seq<char>)
    requires
        consistent(s),
    ensures
        consistent(join_step(s, c, p).1),
{
    if !s.players.contains_key(p) && s.lobbies.contains_key(c) {
        lemma_append_member_consistent(s, c, p);
    }
}

/// The leave command preserves the invariant.
pub proof fn lemma_leave_preserves_consistent(s: StoreView, c: Seq<char>, p: Seq<char>)
    requires
        consistent(s),
    ensures
        consistent(leave_step(s, c, p).1),
{
    if s.players.contains_key(p) && s.players[p] == c {
        assert(s.lobbies.contains_key(c));
        let l = s.lobbies[c];
        assert(l.players.contains(p));
        let trimmed = s.players.remove(p);
        if l.creator == p {
            let t = leave_step(s, c, p).1;
            assert forall|q: Seq<char>| #[trigger] t.players.contains_key(q) implies {
                &&& t.lobbies.contains_key(t.players[q])
                &&& t.lobbies[t.players[q]].players.contains(q)
            } by {
                assert(s.players.contains_key(q));
                assert(!l.players.to_set().contains(q));
                if s.players[q] == c {
                    assert(l.players.contains(q));
                }
            }
            assert forall|c0: Seq<char>, q: Seq<char>|
                t.lobbies.contains_key(c0) && #[trigger] t.lobbies[c0].players.contains(q)
                implies t.players.contains_key(q) && t.players[q] == c0 by {
                assert(c0 != c);
                assert(s.lobbies[c0].players.contains(q));
                assert(s.players[q] == c0);
                if l.players.contains(q) {
                    assert(s.players[q] == c);
                }
                assert(!l.players.to_set().contains(q));
            }
        } else {
            lemma_remove_value_distinct(l.players, p);
            let r = l.players.remove_value(p);
            let t = leave_step(s, c, p).1;
            assert forall|q: Seq<char>| #[trigger] t.players.contains_key(q) implies {
                &&& t.lobbies.contains_key(t.players[q])
                &&& t.lobbies[t.players[q]].players.contains(q)
            } by {
                assert(s.players.contains_key(q));
                if s.players[q] == c {
                    assert(l.players.contains(q));
                }
            }
            assert forall|c0: Seq<char>, q: Seq<char>|
                t.lobbies.contains_key(c0) && #[trigger] t.lobbies[c0].players.contains(q)
                implies t.players.contains_key(q) && t.players[q] == c0 by {
                if c0 == c {
                    assert(r.contains(q));
                    assert(l.players.contains(q) && q != p);
                } else {
                    assert(s.lobbies[c0].players.contains(q));
                    assert(s.players[q] == c0);
                }
            }
            assert(r.contains(l.creator));
        }
    }
}

/// One store command, with its arguments.
pub ghost enum StoreOp {
    Create { c: Seq<char>, p: Seq<char>, hijack: bool, mask: u128 },
    Join { c: Seq<char>, p: Seq<char> },
    Leave { c: Seq<char>, p: Seq<char> },
}

/// The store a command leaves behind.
pub open spec fn apply_op(s: StoreView, op: StoreOp) -> StoreView {
    match op {
        StoreOp::Create { c, p, hijack, mask } => create_step(s, c, p, hijack, mask).1,
        StoreOp::Join { c, p } => join_step(s, c, p).1,
        StoreOp::Leave { c, p } => leave_step(s, c, p).1,
    }
}

/// The store a sequence of commands leaves behind.
pub open spec fn run_ops(s: StoreView, ops: Seq<StoreOp>) -> StoreView
    decreases ops.len(),
{
    if ops.len() == 0 {
        s
    } else {
        run_ops(apply_op(s, ops[0]), ops.drop_first())
    }
}

/// A sequence of commands keeps a consistent store consistent.
pub proof fn lemma_run_ops_preserves_consistent(s: StoreView, ops: Seq<StoreOp>)
    requires
        consistent(s),
    ensures
        consistent(run_ops(s, ops)),
    decreases ops.len(),
{
    if ops.len() > 0 {
        match ops[0] {
            StoreOp::Create { c, p, hijack, mask } => {
                lemma_create_preserves_consistent(s, c, p, hijack, mask);
            },
            StoreOp::Join { c, p } => {
                lemma_join_preserves_consistent(s, c, p);
            },
            StoreOp::Leave { c, p } => {
                lemma_leave_preserves_consistent(s, c, p);
            },
        }
        lemma_run_ops_preserves_consistent(apply_op(s, ops[0]), ops.drop_first());
    }
}

/// Every reachable state is consistent: whatever commands run, in whatever
/// order, the store that grew from empty satisfies the invariant.
pub proof fn lemma_reachable_consistent(ops: Seq<StoreOp>)
    ensures
        consistent(run_ops(empty_store(), ops)),
{
    lemma_empty_consistent();
    lemma_run_ops_preserves_consistent(empty_store(), ops);
}

/// No player occupies two distinct channels' lobbies: with the invariant in
/// force, rosters of different channels are disjoint.
pub proof fn lemma_player_in_one_lobby(
    s: StoreView,
    c1: Seq<char>,
    c2: Seq<char>,
    p: Seq<char>,
)
    requires
        consistent(s),
        s.lobbies.contains_key(c1),
        s.lobbies.contains_key(c2),
        s.lobbies[c1].players.contains(p),
        s.lobbies[c2].players.contains(p),
    ensures
        c1 == c2,
{
}

/// Round trip: creating a lobby in an empty channel and then leaving it
/// returns the store to exactly the state it started from, with no residual
/// index entries.
pub proof fn lemma_create_leave_round_trip(
    s: StoreView,
    c: Seq<char>,
    p: Seq<char>,
    hijack: bool,
    mask: u128,
)
    requires
        consistent(s),
        !s.lobbies.contains_key(c),
        !s.players.contains_key(p),
        hijack ==> spec_has_manage_messages(mask),
    ensures
        ({
            let (o1, s1) = create_step(s, c, p, hijack, mask);
            let (o2, s2) = leave_step(s1, c, p);
            o1 == Outcome::Created && o2 == Outcome::Disbanded && s2 == s
        }),
{
    let (o1, s1) = create_step(s, c, p, hijack, mask);
    let (o2, s2) = leave_step(s1, c, p);
    let roster = seq![p];
    assert(roster[0] == p);
    assert forall|q: Seq<char>| #[trigger] roster.contains(q) implies q == p by {}
    assert(s2.lobbies =~= s.lobbies);
    assert(s2.players =~= s.players);
    assert(s2 =~= s);
}

/// Creating a lobby is not idempotent at the command layer: the same create
/// command issued again right after it succeeded reports the caller as
/// already present and leaves the store untouched.
pub proof fn lemma_create_not_idempotent(
    s: StoreView,
    c: Seq<char>,
    p: Seq<char>,
    hijack: bool,
    mask: u128,
)
    requires
        create_step(s, c, p, hijack, mask).0 == Outcome::Created,
    ensures
        ({
            let s1 = create_step(s, c, p, hijack, mask).1;
            create_step(s1, c, p, hijack, mask).0 == Outcome::AlreadyInLobby
                && create_step(s1, c, p, hijack, mask).1 == s1
        }),
{
}

/// Two create commands racing for the same empty channel, serialized by the
/// transaction provider in either order: the one applied first succeeds and
/// the other, issued without the hijack option, observes an occupied channel
/// and mutates nothing.  Exactly one create ever succeeds.
pub proof fn lemma_create_race_serialized(
    s: StoreView,
    c: Seq<char>,
    p1: Seq<char>,
    p2: Seq<char>,
    h1: bool,
    m1: u128,
    m2: u128,
)
    requires
        consistent(s),
        !s.lobbies.contains_key(c),
        p1 != p2,
        create_step(s, c, p1, h1, m1).0 == Outcome::Created,
    ensures
        ({
            let s1 = create_step(s, c, p1, h1, m1).1;
            let (o2, s2) = create_step(s1, c, p2, false, m2);
            (o2 == Outcome::LobbyExists || o2 == Outcome::AlreadyInOtherLobby)
                && o2 != Outcome::Created && s2 == s1
        }),
{
    let s1 = create_step(s, c, p1, h1, m1).1;
    if s1.players.contains_key(p2) {
        assert(s.players.contains_key(p2));
        assert(s.lobbies.contains_key(s.players[p2]));
    }
}

} // verus!
