use magic::codec::{decode_lobby, encode_lobby};
use magic::store::Lobby;

fn s(x: &str) -> String {
    x.to_string()
}

fn lobby(creator: &str, players: &[&str]) -> Lobby {
    Lobby { creator: s(creator), players: players.iter().map(|p| s(p)).collect() }
}

#[test]
fn encoding_is_length_prefixed_little_endian() {
    let bytes = encode_lobby(&lobby("ab", &["ab"]));
    let expected: Vec<u8> = vec![
        2, 0, 0, 0, 0, 0, 0, 0, // creator byte length
        97, 98, // "ab"
        1, 0, 0, 0, 0, 0, 0, 0, // roster count
        2, 0, 0, 0, 0, 0, 0, 0, // member byte length
        97, 98, // "ab"
    ];
    assert_eq!(bytes, expected);
}

#[test]
fn round_trip_plain() {
    let l = lobby("alice", &["alice", "bob"]);
    let decoded = decode_lobby(&encode_lobby(&l)).expect("own encoding should decode");
    assert_eq!(decoded.creator, s("alice"));
    assert_eq!(decoded.players, vec![s("alice"), s("bob")]);
}

#[test]
fn round_trip_empty_roster() {
    let l = lobby("", &[]);
    let decoded = decode_lobby(&encode_lobby(&l)).expect("own encoding should decode");
    assert_eq!(decoded.creator, s(""));
    assert!(decoded.players.is_empty());
}

#[test]
fn round_trip_multibyte_characters() {
    let l = lobby("àβ🦀", &["みんな", "🦀"]);
    let decoded = decode_lobby(&encode_lobby(&l)).expect("own encoding should decode");
    assert_eq!(decoded.creator, s("àβ🦀"));
    assert_eq!(decoded.players, vec![s("みんな"), s("🦀")]);
}

#[test]
fn truncated_input_is_rejected() {
    let bytes = encode_lobby(&lobby("alice", &["alice", "bob"]));
    for cut in 0..bytes.len() {
        assert!(decode_lobby(&bytes[..cut]).is_none(), "cut at {} should fail", cut);
    }
}

#[test]
fn trailing_bytes_are_rejected() {
    let mut bytes = encode_lobby(&lobby("alice", &["alice"]));
    bytes.push(0);
    assert!(decode_lobby(&bytes).is_none());
}

#[test]
fn oversized_length_prefix_is_rejected() {
    // Claims a 255-byte creator with only two bytes following.
    let bytes: Vec<u8> = vec![255, 0, 0, 0, 0, 0, 0, 0, 97, 98];
    assert!(decode_lobby(&bytes).is_none());
}

#[test]
fn invalid_utf8_payload_is_rejected() {
    // One-byte creator that is not UTF-8, then an empty roster.
    let bytes: Vec<u8> = vec![1, 0, 0, 0, 0, 0, 0, 0, 0xFF, 0, 0, 0, 0, 0, 0, 0, 0];
    assert!(decode_lobby(&bytes).is_none());
}

#[test]
fn roster_count_must_match() {
    // Creator "a", count says two members, only one follows.
    let mut bytes: Vec<u8> = vec![1, 0, 0, 0, 0, 0, 0, 0, 97];
    bytes.extend_from_slice(&[2, 0, 0, 0, 0, 0, 0, 0]);
    bytes.extend_from_slice(&[1, 0, 0, 0, 0, 0, 0, 0, 98]);
    assert!(decode_lobby(&bytes).is_none());
}
