use bytes::Bytes;
use jupyter_transport::command::build_ready_command;
use jupyter_transport::frame::{write_frame, Frame};
use jupyter_transport::router::{assign_identity, assigned_identity};
use jupyter_transport::zmtp::{Opening, SocketType, ZmtpError};

fn command(body: Vec<u8>) -> Frame {
    Frame { body: Bytes::from(body), more: false, command: true }
}

fn opening(identity: &[u8]) -> Opening {
    Opening { socket_type: SocketType::Router, identity: identity.to_vec() }
}

#[test]
fn socket_type_names() {
    assert_eq!(SocketType::Rep.name(), "REP");
    assert_eq!(SocketType::Router.name(), "ROUTER");
    assert_eq!(SocketType::Pub.name(), "PUB");
}

#[test]
fn greeting_layout() {
    let greeting = opening(b"").greeting();
    assert_eq!(&greeting[..10], &[0xFF, 0, 0, 0, 0, 0, 0, 0, 0, 0x7F]);
    assert_eq!(&greeting[10..12], &[3, 1]);
    assert_eq!(&greeting[12..16], b"NULL");
    assert_eq!(&greeting[16..32], &[0; 16]);
    assert_eq!(greeting[32], 1);
    assert_eq!(&greeting[33..], &[0; 31]);
}

#[test]
fn own_greeting_is_accepted() {
    let greeting = opening(b"").greeting();
    assert_eq!(opening(b"abc").on_greeting(&greeting), Ok(()));
}

#[test]
fn only_the_signature_counts() {
    // A connecting peer of an older version, with another mechanism.
    let mut peer = [0u8; 64];
    peer[0] = 0xFF;
    peer[9] = 0x7F;
    peer[10] = 2;
    peer[12..17].copy_from_slice(b"PLAIN");
    assert!(opening(b"").on_greeting(&peer).is_ok());
}

#[test]
fn bad_greetings() {
    let good = opening(b"").greeting();
    let mut bad = good;
    bad[0] = 0;
    assert_eq!(opening(b"").on_greeting(&bad), Err(ZmtpError::BadGreeting));
    let mut bad = good;
    bad[9] = 0x7E;
    assert_eq!(opening(b"").on_greeting(&bad), Err(ZmtpError::BadGreeting));
    assert_eq!(ZmtpError::BadGreeting.message(), "bad zmtp greeting");
}

#[test]
fn ready_bytes() {
    let body = build_ready_command(&[("Socket-Type", "ROUTER"), ("Identity", "abc")]);
    assert_eq!(opening(b"abc").ready(), write_frame(&body, false, true));
}

#[test]
fn identity_travels_as_text() {
    let body = build_ready_command(&[("Socket-Type", "ROUTER"), ("Identity", "\u{0}\u{fffd}")]);
    assert_eq!(opening(&[0, 0x80]).ready(), write_frame(&body, false, true));
}

#[test]
fn announced_identity_is_found() {
    let frame = command(build_ready_command(&[("Socket-Type", "DEALER"), ("Identity", "peer")]));
    assert_eq!(opening(b"").on_ready(&frame), Ok(Some(b"peer".to_vec())));
}

#[test]
fn empty_identity_is_an_identity() {
    let frame = command(build_ready_command(&[("Identity", "")]));
    assert_eq!(opening(b"").on_ready(&frame), Ok(Some(Vec::new())));
}

#[test]
fn no_identity_is_found() {
    let without = command(build_ready_command(&[("Socket-Type", "DEALER")]));
    assert_eq!(opening(b"").on_ready(&without), Ok(None));
    let other = command(b"\x05ERROR\x08Identity\x00\x00\x00\x01x".to_vec());
    assert_eq!(opening(b"").on_ready(&other), Ok(None));
    let malformed = command(b"\x05READY\x08Ident".to_vec());
    assert_eq!(opening(b"").on_ready(&malformed), Ok(None));
}

#[test]
fn handshake_needs_a_command() {
    let mut frame = command(build_ready_command(&[]));
    frame.command = false;
    assert_eq!(opening(b"").on_ready(&frame), Err(ZmtpError::ExpectedCommand));
    assert_eq!(ZmtpError::ExpectedCommand.message(), "expected command frame in handshake");
}

#[test]
fn assigned_identities() {
    assert_eq!(assigned_identity([1, 2, 3, 4]), vec![0, 1, 2, 3, 4]);
    let drawn: Vec<Vec<u8>> = (0..16).map(|_| assign_identity()).collect();
    assert!(drawn.iter().all(|identity| identity.len() == 5 && identity[0] == 0));
    assert!(drawn.iter().any(|identity| *identity != drawn[0]));
}
