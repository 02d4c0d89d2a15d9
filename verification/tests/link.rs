use bytes::Bytes;
use jupyter_transport::command::build_ready_command;
use jupyter_transport::frame::write_frame;
use jupyter_transport::link::{LinkEvent, PeerLink};
use jupyter_transport::multipart::{write_multipart, Multipart};
use jupyter_transport::zmtp::{Opening, SocketType, ZmtpError};

#[derive(Debug, PartialEq)]
enum Seen {
    Greeted(Vec<u8>),
    Ready(Option<Vec<u8>>),
    Message(Multipart),
    Failed(ZmtpError),
}

/// What a link says of a peer that sends these bytes.
fn conversation(socket_type: SocketType, stream: &[u8]) -> Vec<Seen> {
    let (mut link, greeting) = PeerLink::open(socket_type, b"me".to_vec());
    assert_eq!(&greeting[12..16], b"NULL");
    let mut seen = Vec::new();
    let mut taken = 0;
    loop {
        let wanted = link.wanted();
        if wanted == 0 || stream.len() - taken < wanted {
            return seen;
        }
        let event = link.feed(stream[taken..taken + wanted].to_vec());
        taken += wanted;
        match event {
            Some(LinkEvent::Greeted(ready)) => seen.push(Seen::Greeted(ready)),
            Some(LinkEvent::Ready(identity)) => seen.push(Seen::Ready(identity)),
            Some(LinkEvent::Message(message)) => seen.push(Seen::Message(message)),
            Some(LinkEvent::Failed(error)) => seen.push(Seen::Failed(error)),
            None => {}
        }
    }
}

/// The greeting of a connecting peer.
fn greeting() -> Vec<u8> {
    let mut greeting = vec![0u8; 64];
    greeting[0] = 0xFF;
    greeting[9] = 0x7F;
    greeting[10] = 3;
    greeting[11] = 1;
    greeting[12..16].copy_from_slice(b"NULL");
    greeting
}

fn ready(metadata: &[(&str, &str)]) -> Vec<u8> {
    write_frame(&build_ready_command(metadata), false, true)
}

fn own_ready(socket_type: SocketType) -> Vec<u8> {
    Opening { socket_type, identity: b"me".to_vec() }.ready()
}

#[test]
fn messages_are_delivered_in_order() {
    let first = vec![Bytes::from_static(b"a"), Bytes::new()];
    let second = vec![Bytes::new()];
    let third = vec![Bytes::from(vec![1u8; 1000])];
    let mut stream = greeting();
    stream.extend(ready(&[("Socket-Type", "DEALER"), ("Identity", "peer")]));
    for message in [&first, &second, &third] {
        stream.extend(write_multipart(message));
    }
    assert_eq!(
        conversation(SocketType::Router, &stream),
        vec![
            Seen::Greeted(own_ready(SocketType::Router)),
            Seen::Ready(Some(b"peer".to_vec())),
            Seen::Message(first),
            Seen::Message(second),
            Seen::Message(third),
        ]
    );
}

#[test]
fn nothing_comes_of_an_incomplete_stream() {
    let full = greeting();
    assert_eq!(conversation(SocketType::Rep, &full[..63]), vec![]);
    assert_eq!(
        conversation(SocketType::Rep, &full),
        vec![Seen::Greeted(own_ready(SocketType::Rep))]
    );
}

#[test]
fn bad_greeting_ends_the_link() {
    let mut stream = greeting();
    stream[9] = 0;
    stream.extend(ready(&[]));
    assert_eq!(
        conversation(SocketType::Router, &stream),
        vec![Seen::Failed(ZmtpError::BadGreeting)]
    );
}

#[test]
fn handshake_without_a_command_ends_the_link() {
    let mut stream = greeting();
    stream.extend(write_multipart(&[Bytes::from_static(b"x")]));
    stream.extend(ready(&[]));
    assert_eq!(
        conversation(SocketType::Router, &stream),
        vec![
            Seen::Greeted(own_ready(SocketType::Router)),
            Seen::Failed(ZmtpError::ExpectedCommand)
        ]
    );
}

#[test]
fn command_within_a_message_ends_the_link() {
    let mut stream = greeting();
    stream.extend(ready(&[]));
    stream.extend(write_frame(b"part", true, false));
    stream.extend(ready(&[]));
    stream.extend(write_multipart(&[Bytes::from_static(b"x")]));
    assert_eq!(
        conversation(SocketType::Router, &stream),
        vec![
            Seen::Greeted(own_ready(SocketType::Router)),
            Seen::Ready(None),
            Seen::Failed(ZmtpError::CommandWithinMessage)
        ]
    );
}

#[test]
fn publisher_drops_what_subscribers_send() {
    let mut stream = greeting();
    stream.extend(ready(&[("Socket-Type", "SUB")]));
    stream.extend(write_frame(b"\x09SUBSCRIBE", false, true));
    stream.extend(write_frame(b"part", true, false));
    stream.extend(write_frame(b"\x09SUBSCRIBE", false, true));
    assert_eq!(
        conversation(SocketType::Pub, &stream),
        vec![Seen::Greeted(own_ready(SocketType::Pub)), Seen::Ready(None)]
    );
}
