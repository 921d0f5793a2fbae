use hmac::{Hmac, Mac};
use mmorpg::bytes::Bytes;
use mmorpg::codec::{Incoming, Outgoing};
use mmorpg::gatekeeper::{handle_packet, Gate};
use mmorpg::job_handler::handle_welcome;
use mmorpg::math::{AutoIncrement, Vector3};
use mmorpg::token::{check_token, verify, TokenError};
use mmorpg::world::{Tile, World};
use sha2::Sha256;

const SECRET: &str = "shared-secret";
const ID: [u8; 16] = [0x11, 0x22, 0x33, 0x44, 0x55, 0x66, 0x77, 0x88, 0x99, 0xAA, 0xBB, 0xCC, 0xDD, 0xEE, 0xF0, 0x01];

fn sign(payload: &[u8], secret: &str) -> String {
    let mut mac = <Hmac<Sha256> as Mac>::new_from_slice(secret.as_bytes()).unwrap();
    mac.update(payload);
    base64::encode_config(mac.finalize().into_bytes(), base64::URL_SAFE_NO_PAD)
}

fn make_token(id: [u8; 16], timestamp: i64, secret: &str) -> String {
    let mut payload = id.to_vec();
    payload.extend_from_slice(&timestamp.to_le_bytes());
    let head = base64::encode_config(&payload, base64::URL_SAFE_NO_PAD);
    assert_eq!(head.len(), 32);
    head + &sign(&payload, secret)
}

#[test]
fn valid_token_verifies() {
    let t = verify(&make_token(ID, 1_700_000_000_123, SECRET), SECRET).unwrap();
    assert_eq!(t.id, ID);
    assert_eq!(t.timestamp, 1_700_000_000_123);
}

#[test]
fn negative_timestamp_survives() {
    let t = verify(&make_token(ID, -5, SECRET), SECRET).unwrap();
    assert_eq!(t.timestamp, -5);
}

#[test]
fn wrong_secret_is_refused() {
    let token = make_token(ID, 7, SECRET);
    assert!(matches!(verify(&token, "other"), Err(TokenError::BadSignature)));
}

#[test]
fn tampered_payload_is_refused() {
    let token = make_token(ID, 7, SECRET);
    let mut bytes = token.into_bytes();
    bytes[3] = if bytes[3] == b'A' { b'B' } else { b'A' };
    let token = String::from_utf8(bytes).unwrap();
    assert!(matches!(verify(&token, SECRET), Err(TokenError::BadSignature)));
}

#[test]
fn short_token_is_refused() {
    assert!(matches!(verify("abc", SECRET), Err(TokenError::TooShort)));
    assert!(matches!(verify("", SECRET), Err(TokenError::TooShort)));
}

#[test]
fn non_base64_payload_is_refused() {
    let token = "!!!!!!!!!!!!!!!!!!!!!!!!!!!!!!!!signature";
    assert!(matches!(verify(token, SECRET), Err(TokenError::Malformed)));
}

#[test]
fn check_token_on_given_values() {
    let mut payload = ID.to_vec();
    payload.extend_from_slice(&258i64.to_le_bytes());
    let input = b"0123456789abcdef0123456789abcdefSIG";
    let t = check_token(input, Some(payload.clone()), b"SIG").unwrap();
    assert_eq!(t.id, ID);
    assert_eq!(t.timestamp, 258);
    assert!(matches!(check_token(input, Some(payload.clone()), b"SIH"), Err(TokenError::BadSignature)));
    assert!(matches!(check_token(input, Some(payload[..20].to_vec()), b"SIG"), Err(TokenError::Malformed)));
    assert!(matches!(check_token(input, None, b"SIG"), Err(TokenError::Malformed)));
    assert!(matches!(check_token(b"short", Some(payload), b"SIG"), Err(TokenError::TooShort)));
}

#[test]
fn gateway_accepts_valid_greeting() {
    let body = Incoming::Hello { token: make_token(ID, 99, SECRET) }.serialize();
    match handle_packet(&body, SECRET) {
        Gate::Accept { id, ack } => {
            assert_eq!(id, ID);
            let mut want = vec![2, 0];
            want.extend_from_slice(&ID);
            assert_eq!(ack, want);
            assert_eq!(ack, Outgoing::Hello { id: ID }.serialize());
        }
        other => panic!("unexpected {:?}", other),
    }
}

#[test]
fn gateway_rejects_bad_greeting() {
    let body = Incoming::Hello { token: make_token(ID, 99, "wrong") }.serialize();
    assert!(matches!(handle_packet(&body, SECRET), Gate::Reject));
}

#[test]
fn gateway_answers_ping_and_ignores_the_rest() {
    let body = Incoming::Ping { timestamp: 123456 }.serialize();
    match handle_packet(&body, SECRET) {
        Gate::Reply(r) => assert_eq!(r, Outgoing::Pong { timestamp: 123456 }.serialize()),
        other => panic!("unexpected {:?}", other),
    }
    let body = Incoming::Move { direction: 1 }.serialize();
    assert!(matches!(handle_packet(&body, SECRET), Gate::Ignore));
    assert!(matches!(handle_packet(&[7, 7], SECRET), Gate::Ignore));
}

#[test]
fn truncate_last_drops_trailing_zeros() {
    let b: &[u8] = &[1, 0, 2, 0, 0];
    assert_eq!(b.truncate_last(), &[1, 0, 2]);
    let z: &[u8] = &[0, 0];
    assert_eq!(z.truncate_last(), &[0, 0]);
    let e: &[u8] = &[];
    assert_eq!(e.truncate_last(), &[] as &[u8]);
}

#[test]
fn to_sized_pads_and_cuts() {
    let b: &[u8] = &[1, 2, 3];
    assert_eq!(b.to_sized(5), vec![1, 2, 3, 0, 0]);
    assert_eq!(b.to_sized(2), vec![1, 2]);
    assert_eq!(b.to_sized(0), Vec::<u8>::new());
}

#[test]
fn vector_constructors() {
    assert_eq!(Vector3::new(1, -2, 3), Vector3 { x: 1, y: -2, z: 3 });
    assert_eq!(Vector3::zero(), Vector3 { x: 0, y: 0, z: 0 });
}

#[test]
fn auto_increment_counts_from_one() {
    let mut a = AutoIncrement::new();
    assert_eq!(a.take(), 1);
    assert_eq!(a.take(), 2);
    assert_eq!(a.take(), 3);
}

#[test]
fn greeting_then_welcome_scenario() {
    let mut tiles = Vec::new();
    for x in 0..3 {
        tiles.push(Tile { position: Vector3::new(x, 0, 0), id: 1, rotation: 0, object: None });
    }
    let mut world = World::new(tiles);
    let peer = [0x77u8; 16];
    handle_welcome(peer, &mut world).unwrap();

    let body = Incoming::Hello { token: make_token(ID, 5, SECRET) }.serialize();
    let id = match handle_packet(&body, SECRET) {
        Gate::Accept { id, ack } => {
            assert_eq!(&ack[..2], &[2, 0]);
            assert_eq!(&ack[2..], &ID);
            id
        }
        other => panic!("unexpected {:?}", other),
    };
    let out = handle_welcome(id, &mut world).unwrap();
    assert_eq!(out.len(), 2);
    assert_eq!(out[0].to, peer);
    assert_eq!(out[0].body, Outgoing::Connect { id: ID, x: 1, y: 0, z: 0 }.serialize());
    assert_eq!(out[1].to, ID);
    assert_eq!(
        out[1].body,
        Outgoing::Introduce { users: vec![(ID, 1, 0, 0), (peer, 0, 0, 0)] }.serialize()
    );
    assert_eq!(world.connections.iter().find(|c| c.id == ID).unwrap().position, Vector3::new(1, 0, 0));
}
