use relay_server::pump::{relay_step, PumpAction, PumpEvent, Side};
use relay_server::request::RelayRequest;
use relay_server::session::{HandshakeOutcome, SessionStep, Supervisor};
use relay_server::table::PairingTable;

fn forwarded(action: PumpAction) -> (Side, Vec<u8>) {
    match action {
        PumpAction::Forward(dest, bytes) => (dest, bytes),
        PumpAction::Shutdown => panic!("expected a forward, got a shutdown"),
    }
}

#[test]
fn data_from_a_forwards_to_b() {
    let payload = vec![1u8, 2, 3];
    let (dest, bytes) = forwarded(relay_step(PumpEvent::Data(Side::A, payload.clone())));
    assert_eq!(dest, Side::B);
    assert_eq!(bytes, payload);
}

#[test]
fn data_from_b_forwards_to_a() {
    let payload = vec![9u8, 8];
    let (dest, bytes) = forwarded(relay_step(PumpEvent::Data(Side::B, payload.clone())));
    assert_eq!(dest, Side::A);
    assert_eq!(bytes, payload);
}

#[test]
fn close_on_either_side_shuts_down() {
    assert!(matches!(relay_step(PumpEvent::Closed(Side::A)), PumpAction::Shutdown));
    assert!(matches!(relay_step(PumpEvent::Closed(Side::B)), PumpAction::Shutdown));
}

#[test]
fn small_payload_byte_exact() {
    let payload: Vec<u8> = (0u8..10).collect();
    let (dest, bytes) = forwarded(relay_step(PumpEvent::Data(Side::A, payload.clone())));
    assert_eq!(dest, Side::B);
    assert_eq!(bytes, payload);
}

#[test]
fn large_payload_byte_exact() {
    // Well past typical network buffer sizes: ten megabytes.
    let payload: Vec<u8> = (0..10 * 1024 * 1024).map(|i| (i % 251) as u8).collect();
    let (dest, bytes) = forwarded(relay_step(PumpEvent::Data(Side::B, payload.clone())));
    assert_eq!(dest, Side::A);
    assert_eq!(bytes, payload);
}

#[test]
fn forwarding_preserves_order() {
    let first = vec![1u8, 2];
    let second = vec![3u8, 4, 5];
    let mut received: Vec<u8> = Vec::new();
    for chunk in [first.clone(), second.clone()] {
        let (dest, bytes) = forwarded(relay_step(PumpEvent::Data(Side::A, chunk)));
        assert_eq!(dest, Side::B);
        received.extend_from_slice(&bytes);
    }
    let mut expected = first;
    expected.extend_from_slice(&second);
    assert_eq!(received, expected);
}

#[test]
fn paired_relay_scenario() {
    // Server key unset. Two clients present the token "abc"; the second is
    // paired immediately and its bytes reach the first verbatim.
    let mut table = PairingTable::new();
    let key = String::new();
    let mut client1 = Supervisor::new(1);
    let mut client2 = Supervisor::new(2);
    let step1 = client1.handle_handshake(
        &mut table,
        HandshakeOutcome::Request(RelayRequest {
            token: "abc".to_string(),
            presented_key: String::new(),
        }),
        0,
        &key,
    );
    assert_eq!(step1, SessionStep::Wait);
    let step2 = client2.handle_handshake(
        &mut table,
        HandshakeOutcome::Request(RelayRequest {
            token: "abc".to_string(),
            presented_key: String::new(),
        }),
        5_000,
        &key,
    );
    assert_eq!(step2, SessionStep::Relay { peer: 1 });
    // client1 is the claimed leg (side A), client2 the claimer (side B):
    // client2 writes "ping" and client1's socket yields "ping".
    let (dest, bytes) = forwarded(relay_step(PumpEvent::Data(Side::B, b"ping".to_vec())));
    assert_eq!(dest, Side::A);
    assert_eq!(bytes, b"ping".to_vec());
}
