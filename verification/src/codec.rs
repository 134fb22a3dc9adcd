//! The fixed binary encoding of persisted lobby records.
//!
//! A lobby is stored as its creator followed by its roster: each string is
//! its byte length as eight little-endian bytes followed by its UTF-8
//! bytes, and the roster is its count as eight little-endian bytes followed
//! by its members.  The decoder accepts exactly the encoder's output; a
//! verified round-trip law ties the two together, so any format change is a
//! breaking migration by construction.

use vstd::prelude::*;

use vstd::bytes::{
    lemma_auto_spec_u64_to_from_le_bytes, spec_u64_from_le_bytes, spec_u64_to_le_bytes,
    u64_from_le_bytes, u64_to_le_bytes,
};
use vstd::slice::{slice_subrange, slice_to_vec};
use vstd::string::StrSliceExecFns;
use vstd::utf8::{
    decode_utf8, encode_utf8, encode_utf8_decode_utf8, encode_utf8_valid_utf8, valid_utf8,
};

use crate::state::LobbyView;
use crate::store::Lobby;

verus! {

/// A length-prefixed string: eight little-endian bytes of UTF-8 byte
/// length, then the UTF-8 bytes.
pub open spec fn encode_str(s: Seq<char>) -> Seq<u8> {
    spec_u64_to_le_bytes(encode_utf8(s).len() as u64) + encode_utf8(s)
}

/// A roster's members, one length-prefixed string each.
pub open spec fn encode_roster(players: Seq<Seq<char>>) -> Seq<u8>
    decreases players.len(),
{
    if players.len() == 0 {
        Seq::empty()
    } else {
        encode_str(players[0]) + encode_roster(players.drop_first())
    }
}

/// The full encoding of a lobby record.
pub open spec fn spec_encode_lobby(l: LobbyView) -> Seq<u8> {
    encode_str(l.creator) + spec_u64_to_le_bytes(l.players.len() as u64)
        + encode_roster(l.players)
}

/// Parses one length-prefixed string off the front, returning it and the
/// remainder.
pub open spec fn take_str(bytes: Seq<u8>) -> Option<(Seq<char>, Seq<u8>)> {
    if bytes.len() < 8 {
        None
    } else {
        let n = spec_u64_from_le_bytes(bytes.take(8)) as int;
        if bytes.len() - 8 < n {
            None
        } else {
            let payload = bytes.subrange(8, 8 + n);
            if valid_utf8(payload) {
                Some((decode_utf8(payload), bytes.skip(8 + n)))
            } else {
                None
            }
        }
    }
}

/// Parses `count` length-prefixed strings off the front.
pub open spec fn take_roster(bytes: Seq<u8>, count: int) -> Option<(Seq<Seq<char>>, Seq<u8>)>
    decreases count,
{
    if count <= 0 {
        Some((Seq::empty(), bytes))
    } else {
        match take_str(bytes) {
            None => None,
            Some((s, rest)) => match take_roster(rest, count - 1) {
                None => None,
                Some((ss, rest2)) => Some((seq![s] + ss, rest2)),
            },
        }
    }
}

/// The record denoted by a byte string, if it is exactly an encoding.
pub open spec fn spec_decode_lobby(bytes: Seq<u8>) -> Option<LobbyView> {
    match take_str(bytes) {
        None => None,
        Some((creator, rest)) => {
            if rest.len() < 8 {
                None
            } else {
                let count = spec_u64_from_le_bytes(rest.take(8)) as int;
                match take_roster(rest.skip(8), count) {
                    None => None,
                    Some((players, rest2)) => {
                        if rest2.len() == 0 {
                            Some(LobbyView { creator, players })
                        } else {
                            None
                        }
                    },
                }
            }
        },
    }
}

/// Parsing an encoded string off any tail gives the string back.
proof fn lemma_take_str_encode(s: Seq<char>, rest: Seq<u8>)
    requires
        encode_utf8(s).len() < 0x1_0000_0000_0000_0000,
    ensures
        take_str(encode_str(s) + rest) == Some((s, rest)),
{
    lemma_auto_spec_u64_to_from_le_bytes();
    let payload = encode_utf8(s);
    let lenb = spec_u64_to_le_bytes(payload.len() as u64);
    let all = encode_str(s) + rest;
    assert(lenb.len() == 8);
    assert(all.take(8) =~= lenb);
    assert(spec_u64_from_le_bytes(lenb) == payload.len() as u64);
    assert(all.subrange(8, 8 + payload.len() as int) =~= payload);
    encode_utf8_valid_utf8(s);
    encode_utf8_decode_utf8(s);
    assert(all.skip(8 + payload.len() as int) =~= rest);
}

/// Parsing an encoded roster off any tail gives the roster back.
proof fn lemma_take_roster_encode(players: Seq<Seq<char>>, rest: Seq<u8>)
    requires
        forall|i: int|
            0 <= i < players.len() ==> #[trigger] encode_utf8(players[i]).len()
                < 0x1_0000_0000_0000_0000,
    ensures
        take_roster(encode_roster(players) + rest, players.len() as int) == Some((players, rest)),
    decreases players.len(),
{
    if players.len() == 0 {
        assert(encode_roster(players) + rest =~= rest);
        assert(players =~= Seq::<Seq<char>>::empty());
    } else {
        let p0 = players[0];
        let tail = players.drop_first();
        assert((encode_str(p0) + encode_roster(tail)) + rest
            =~= encode_str(p0) + (encode_roster(tail) + rest));
        lemma_take_str_encode(p0, encode_roster(tail) + rest);
        assert forall|i: int| 0 <= i < tail.len()
            implies #[trigger] encode_utf8(tail[i]).len() < 0x1_0000_0000_0000_0000 by {
            assert(tail[i] == players[i + 1]);
        }
        lemma_take_roster_encode(tail, rest);
        assert(seq![p0] + tail =~= players);
    }
}

/// Round trip: decoding an encoded lobby record gives the record back.
///
/// The bounds only rule out strings and rosters too long for the format's
/// eight-byte lengths; every record held in memory satisfies them.
pub proof fn lemma_lobby_codec_round_trip(l: LobbyView)
    requires
        encode_utf8(l.creator).len() < 0x1_0000_0000_0000_0000,
        l.players.len() < 0x1_0000_0000_0000_0000,
        forall|i: int|
            0 <= i < l.players.len() ==> #[trigger] encode_utf8(l.players[i]).len()
                < 0x1_0000_0000_0000_0000,
    ensures
        spec_decode_lobby(spec_encode_lobby(l)) == Some(l),
{
    lemma_auto_spec_u64_to_from_le_bytes();
    let countb = spec_u64_to_le_bytes(l.players.len() as u64);
    let roster = encode_roster(l.players);
    let all = spec_encode_lobby(l);
    assert(all =~= encode_str(l.creator) + (countb + roster));
    lemma_take_str_encode(l.creator, countb + roster);
    let rest = countb + roster;
    assert(countb.len() == 8);
    assert(rest.take(8) =~= countb);
    assert(spec_u64_from_le_bytes(countb) == l.players.len() as u64);
    assert(rest.skip(8) =~= roster);
    assert(roster + Seq::<u8>::empty() =~= roster);
    lemma_take_roster_encode(l.players, Seq::empty());
    assert(spec_decode_lobby(all) == Some(LobbyView { creator: l.creator, players: l.players }));
    assert(LobbyView { creator: l.creator, players: l.players } =~= l);
}

/// Appending an element to a roster appends its encoding.
proof fn lemma_encode_roster_push(a: Seq<Seq<char>>, x: Seq<char>)
    ensures
        encode_roster(a.push(x)) == encode_roster(a) + encode_str(x),
    decreases a.len(),
{
    if a.len() == 0 {
        assert(a.push(x).drop_first() =~= Seq::<Seq<char>>::empty());
        assert(a.push(x)[0] == x);
        assert(encode_str(x) + encode_roster(Seq::<Seq<char>>::empty()) =~= encode_str(x));
        assert(encode_roster(a) + encode_str(x) =~= encode_str(x));
    } else {
        assert(a.push(x).drop_first() =~= a.drop_first().push(x));
        assert(a.push(x)[0] == a[0]);
        lemma_encode_roster_push(a.drop_first(), x);
        assert((encode_str(a[0]) + encode_roster(a.drop_first())) + encode_str(x)
            =~= encode_str(a[0]) + (encode_roster(a.drop_first()) + encode_str(x)));
    }
}

/// Appends one length-prefixed string.
fn encode_string(out: &mut Vec<u8>, s: &String)
    ensures
        final(out)@ == old(out)@ + encode_str(s@),
{
    let bytes = s.as_str().as_bytes_vec();
    let mut len_bytes = u64_to_le_bytes(bytes.len() as u64);
    out.append(&mut len_bytes);
    let mut payload = bytes;
    out.append(&mut payload);
    proof {
        assert(final(out)@ =~= old(out)@ + encode_str(s@));
    }
}

/// Encodes a lobby record into its persisted bytes.
pub fn encode_lobby(lobby: &Lobby) -> (r: Vec<u8>)
    ensures
        r@ == spec_encode_lobby(lobby@),
{
    let mut out: Vec<u8> = Vec::new();
    encode_string(&mut out, &lobby.creator);
    let mut count_bytes = u64_to_le_bytes(lobby.players.len() as u64);
    out.append(&mut count_bytes);
    let ghost base = out@;
    let ghost dv = lobby.players.deep_view();
    proof {
        assert(dv.take(0) =~= Seq::<Seq<char>>::empty());
        assert(base + encode_roster(dv.take(0)) =~= base);
    }
    let n = lobby.players.len();
    let mut i: usize = 0;
    while i < n
        invariant
            n == lobby.players@.len(),
            dv == lobby.players.deep_view(),
            i <= n,
            out@ == base + encode_roster(dv.take(i as int)),
        decreases n - i,
    {
        encode_string(&mut out, &lobby.players[i]);
        proof {
            lemma_encode_roster_push(dv.take(i as int), dv[i as int]);
            assert(dv.take(i as int + 1) =~= dv.take(i as int).push(dv[i as int]));
            assert((base + encode_roster(dv.take(i as int))) + encode_str(dv[i as int])
                =~= base + encode_roster(dv.take(i as int + 1)));
        }
        i += 1;
    }
    proof {
        assert(dv.take(n as int) =~= dv);
        assert(out@ =~= spec_encode_lobby(lobby@));
    }
    out
}

/// Relies on `String::from_utf8`: it succeeds exactly on valid UTF-8 input
/// and returns the string those bytes encode.
#[verifier::external_body]
fn string_from_utf8(bytes: Vec<u8>) -> (r: Option<String>)
    ensures
        r is Some <==> valid_utf8(bytes@),
        r is Some ==> r->0@ == decode_utf8(bytes@),
{
    String::from_utf8(bytes).ok()
}

/// Parses one length-prefixed string at `pos`.
fn take_string(bytes: &[u8], pos: usize) -> (r: Option<(String, usize)>)
    requires
        pos <= bytes@.len(),
    ensures
        match r {
            Some(p) => {
                &&& pos < p.1 <= bytes@.len()
                &&& take_str(bytes@.skip(pos as int)) == Some((p.0@, bytes@.skip(p.1 as int)))
            },
            None => take_str(bytes@.skip(pos as int)) is None,
        },
{
    let ghost suffix = bytes@.skip(pos as int);
    let len_total = bytes.len();
    if len_total - pos < 8 {
        return None;
    }
    let len_slice = slice_subrange(bytes, pos, pos + 8);
    let n64 = u64_from_le_bytes(len_slice);
    proof {
        assert(len_slice@ =~= suffix.take(8));
    }
    if n64 > (len_total - pos - 8) as u64 {
        return None;
    }
    let n = n64 as usize;
    let payload = slice_subrange(bytes, pos + 8, pos + 8 + n);
    proof {
        assert(payload@ =~= suffix.subrange(8, 8 + n64 as int));
    }
    let v = slice_to_vec(payload);
    match string_from_utf8(v) {
        None => None,
        Some(s) => {
            proof {
                assert(bytes@.skip((pos + 8 + n) as int) =~= suffix.skip(8 + n64 as int));
            }
            Some((s, pos + 8 + n))
        },
    }
}

/// Decodes a lobby record from its persisted bytes; `None` on anything but
/// an exact encoding.
#[verifier::loop_isolation(false)]
pub fn decode_lobby(bytes: &[u8]) -> (r: Option<Lobby>)
    ensures
        match r {
            Some(l) => spec_decode_lobby(bytes@) == Some(l@),
            None => spec_decode_lobby(bytes@) is None,
        },
{
    proof {
        assert(bytes@.skip(0) =~= bytes@);
    }
    let (creator, pos1) = match take_string(bytes, 0) {
        None => {
            return None;
        },
        Some(p) => p,
    };
    let ghost rest = bytes@.skip(pos1 as int);
    let len_total = bytes.len();
    if len_total - pos1 < 8 {
        return None;
    }
    let count_slice = slice_subrange(bytes, pos1, pos1 + 8);
    let count64 = u64_from_le_bytes(count_slice);
    proof {
        assert(count_slice@ =~= rest.take(8));
    }
    let base = pos1 + 8;
    let ghost rest0 = bytes@.skip(base as int);
    proof {
        assert(rest0 =~= rest.skip(8));
    }
    let mut players: Vec<String> = Vec::new();
    let mut pos = base;
    let mut k: u64 = 0;
    proof {
        assert(players.deep_view() =~= Seq::<Seq<char>>::empty());
        match take_roster(rest0, count64 as int) {
            Some(pr) => {
                assert(players.deep_view() + pr.0 =~= pr.0);
            },
            None => {},
        }
    }
    while k < count64
        invariant
            pos <= bytes@.len(),
            k <= count64,
            ({
                let tail = take_roster(bytes@.skip(pos as int), count64 as int - k as int);
                let full = take_roster(rest0, count64 as int);
                match tail {
                    Some(pr) => full == Some((players.deep_view() + pr.0, pr.1)),
                    None => full is None,
                }
            }),
        decreases count64 - k,
    {
        let ghost old_players = players.deep_view();
        let ghost remaining = count64 as int - k as int;
        let (s, newpos) = match take_string(bytes, pos) {
            None => {
                proof {
                    assert(take_roster(bytes@.skip(pos as int), remaining) is None);
                    assert(spec_decode_lobby(bytes@) is None);
                }
                return None;
            },
            Some(p) => p,
        };
        players.push(s);
        proof {
            assert(players.deep_view() =~= old_players.push(s@));
        }
        pos = newpos;
        k = k + 1;
        proof {
            let tail2 = take_roster(bytes@.skip(pos as int), count64 as int - k as int);
            match tail2 {
                Some(pr2) => {
                    assert(old_players + (seq![s@] + pr2.0) =~= players.deep_view() + pr2.0);
                },
                None => {},
            }
        }
    }
    proof {
        assert(take_roster(bytes@.skip(pos as int), 0) == Some(
            (Seq::<Seq<char>>::empty(), bytes@.skip(pos as int)),
        ));
        assert(players.deep_view() + Seq::<Seq<char>>::empty() =~= players.deep_view());
    }
    if len_total - pos != 0 {
        return None;
    }
    proof {
        assert(bytes@.skip(pos as int).len() == 0);
    }
    let l = Lobby::make(creator, players);
    proof {
        assert(spec_decode_lobby(bytes@) == Some(l@));
    }
    Some(l)
}

} // verus!
