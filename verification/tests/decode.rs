use relay_server::request::{decode_relay_request, REQUEST_TAG};
use relay_server::session::{HandshakeOutcome, SessionStep, Supervisor};
use relay_server::table::PairingTable;

fn frame(tag: u8, token: &[u8], key: &[u8]) -> Vec<u8> {
    let mut f = vec![tag];
    f.extend_from_slice(&(token.len() as u32).to_le_bytes());
    f.extend_from_slice(token);
    f.extend_from_slice(key);
    f
}

#[test]
fn decode_valid_frame() {
    let req = decode_relay_request(&frame(REQUEST_TAG, b"abc", b"k1")).expect("well-formed frame");
    assert_eq!(req.token, "abc");
    assert_eq!(req.presented_key, "k1");
}

#[test]
fn decode_empty_key() {
    let req = decode_relay_request(&frame(REQUEST_TAG, b"abc", b"")).expect("well-formed frame");
    assert_eq!(req.token, "abc");
    assert_eq!(req.presented_key, "");
}

#[test]
fn decode_wrong_tag() {
    assert!(decode_relay_request(&frame(2, b"abc", b"")).is_none());
}

#[test]
fn decode_short_frame() {
    assert!(decode_relay_request(&[REQUEST_TAG, 0, 0]).is_none());
    assert!(decode_relay_request(&[]).is_none());
}

#[test]
fn decode_overlong_token_length() {
    // The frame states a token longer than the frame itself.
    let mut f = vec![REQUEST_TAG];
    f.extend_from_slice(&7u32.to_le_bytes());
    f.extend_from_slice(b"abc");
    assert!(decode_relay_request(&f).is_none());
}

#[test]
fn decode_invalid_utf8_token() {
    assert!(decode_relay_request(&frame(REQUEST_TAG, &[0xff, 0xfe], b"")).is_none());
    assert!(decode_relay_request(&frame(REQUEST_TAG, b"abc", &[0xff])).is_none());
}

#[test]
fn decode_multibyte_token() {
    // Multi-byte UTF-8: six bytes decode to five characters, so a decoder
    // that handed the bytes through unconverted would fail this.
    let token = "h\u{e9}llo";
    let req = decode_relay_request(&frame(REQUEST_TAG, token.as_bytes(), b""))
        .expect("well-formed frame");
    assert_eq!(token.as_bytes().len(), 6);
    assert_eq!(req.token.chars().count(), 5);
    assert_eq!(req.token, token);
}

#[test]
fn decoded_request_pairs_end_to_end() {
    let mut table = PairingTable::new();
    let key = String::new();
    let mut sup1 = Supervisor::new(1);
    let mut sup2 = Supervisor::new(2);
    let outcome1 = match decode_relay_request(&frame(REQUEST_TAG, b"abc", b"")) {
        Some(req) => HandshakeOutcome::Request(req),
        None => HandshakeOutcome::NoValidMessage,
    };
    let outcome2 = match decode_relay_request(&frame(REQUEST_TAG, b"abc", b"")) {
        Some(req) => HandshakeOutcome::Request(req),
        None => HandshakeOutcome::NoValidMessage,
    };
    assert_eq!(sup1.handle_handshake(&mut table, outcome1, 0, &key), SessionStep::Wait);
    assert_eq!(
        sup2.handle_handshake(&mut table, outcome2, 10, &key),
        SessionStep::Relay { peer: 1 }
    );
}
