use bytes::Bytes;
use jupyter_transport::command::{build_ready_command, parse_command};
use jupyter_transport::endian::{push_be, read_be};
use jupyter_transport::frame::{
    frame_header, write_frame, Frame, FrameReader, FLAG_COMMAND, FLAG_LONG, FLAG_MORE,
};
use jupyter_transport::multipart::{write_multipart, Multipart, MultipartReader};
use jupyter_transport::zmtp::ZmtpError;

/// Reads the first frame of some bytes, and says how many bytes it took.
fn first_frame(bytes: &[u8]) -> Option<(Frame, usize)> {
    let mut reader = FrameReader::new();
    let mut taken = 0;
    loop {
        let wanted = reader.wanted();
        if bytes.len() - taken < wanted {
            return None;
        }
        let chunk = bytes[taken..taken + wanted].to_vec();
        taken += wanted;
        if let Some(frame) = reader.feed(chunk) {
            return Some((frame, taken));
        }
    }
}

/// Reads messages from some bytes until they end or break the protocol.
fn messages(bytes: &[u8]) -> (Vec<Multipart>, Option<ZmtpError>) {
    let mut reader = MultipartReader::new();
    let mut found = Vec::new();
    let mut rest = bytes;
    while let Some((frame, taken)) = first_frame(rest) {
        rest = &rest[taken..];
        match reader.accept(frame) {
            Ok(Some(message)) => found.push(message),
            Ok(None) => {}
            Err(error) => return (found, Some(error)),
        }
    }
    (found, None)
}

#[test]
fn test_frame_header_short() {
    let h = frame_header(5, false, false);
    assert_eq!(h, vec![0x00, 5]);
}

#[test]
fn test_frame_header_more() {
    let h = frame_header(5, true, false);
    assert_eq!(h, vec![0x01, 5]);
}

#[test]
fn test_frame_header_long() {
    let h = frame_header(256, false, false);
    assert_eq!(h[0], FLAG_LONG);
    assert_eq!(&h[1..], &(256u64).to_be_bytes());
}

#[test]
fn test_frame_header_command() {
    let h = frame_header(5, false, true);
    assert_eq!(h[0], FLAG_COMMAND);
}

#[test]
fn test_parse_ready_command() {
    let body = build_ready_command(&[("Socket-Type", "ROUTER"), ("Identity", "abc")]);
    let (name, map) = parse_command(&body).unwrap();
    assert_eq!(name, "READY");
    assert_eq!(map.get("Socket-Type").unwrap(), b"ROUTER");
    assert_eq!(map.get("Identity").unwrap(), b"abc");
}

#[test]
fn header_width_changes_after_255() {
    assert_eq!(frame_header(0, false, false), vec![0, 0]);
    assert_eq!(frame_header(255, false, false), vec![0, 255]);
    assert_eq!(
        frame_header(256, true, true),
        vec![FLAG_MORE | FLAG_LONG | FLAG_COMMAND, 0, 0, 0, 0, 0, 0, 1, 0]
    );
}

#[test]
fn big_endian_fields() {
    let mut out = vec![9];
    push_be(&mut out, 0x0102_0304, 4);
    assert_eq!(out, vec![9, 1, 2, 3, 4]);
    push_be(&mut out, 0x1ff, 1);
    assert_eq!(out, vec![9, 1, 2, 3, 4, 0xff]);
    assert_eq!(read_be(&[1, 2, 3, 4]), 0x0102_0304);
    assert_eq!(read_be(&[0xff; 8]), u64::MAX);
    assert_eq!(read_be(&[]), 0);
}

#[test]
fn ready_command_bytes() {
    assert_eq!(
        build_ready_command(&[("Identity", "ab")]),
        b"\x05READY\x08Identity\x00\x00\x00\x02ab".to_vec()
    );
    assert_eq!(build_ready_command(&[]), b"\x05READY".to_vec());
}

#[test]
fn key_length_is_cut_to_one_byte() {
    let key = "k".repeat(257);
    let body = build_ready_command(&[(key.as_str(), "")]);
    assert_eq!(body[6], 1);
    assert_eq!(body.len(), 6 + 1 + 257 + 4);
}

#[test]
fn commands_that_are_cut_short() {
    let body = build_ready_command(&[("Identity", "abc")]);
    assert!(parse_command(&[]).is_none());
    assert!(parse_command(&body[..3]).is_none());
    // The name stands alone.
    let (name, map) = parse_command(&body[..6]).unwrap();
    assert_eq!(name, "READY");
    assert_eq!(map.len(), 0);
    // Within the key, the value size and the value.
    assert!(parse_command(&body[..9]).is_none());
    assert!(parse_command(&body[..16]).is_none());
    assert!(parse_command(&body[..body.len() - 1]).is_none());
    assert!(parse_command(&body).is_some());
}

#[test]
fn later_property_counts() {
    let body = build_ready_command(&[("a", "1"), ("b", "2"), ("a", "3")]);
    let (_, map) = parse_command(&body).unwrap();
    assert_eq!(map.get("a").unwrap(), b"3");
    assert_eq!(map.get("b").unwrap(), b"2");
    assert!(map.get("c").is_none());
}

#[test]
fn any_command_is_parsed() {
    let (name, map) = parse_command(b"\x04PING").unwrap();
    assert_eq!(name, "PING");
    assert_eq!(map.len(), 0);
}

#[test]
fn command_name_that_is_not_utf8() {
    let (name, _) = parse_command(&[2, b'a', 0xff]).unwrap();
    assert_eq!(name, "a\u{fffd}");
}

#[test]
fn frame_is_read_back() {
    for size in [0usize, 1, 255, 256, 70_000] {
        for (more, command) in [(false, false), (true, false), (false, true), (true, true)] {
            let body: Vec<u8> = (0..size).map(|i| i as u8).collect();
            let mut bytes = write_frame(&body, more, command);
            let length = bytes.len();
            bytes.extend_from_slice(b"rest");
            let (frame, taken) = first_frame(&bytes).unwrap();
            assert_eq!(&frame.body[..], &body[..]);
            assert_eq!((frame.more, frame.command), (more, command));
            assert_eq!(taken, length);
            assert!(first_frame(&bytes[..length - 1]).is_none());
        }
    }
}

#[test]
fn long_form_of_a_short_frame_is_read() {
    let (frame, taken) = first_frame(b"\x02\x00\x00\x00\x00\x00\x00\x00\x01x").unwrap();
    assert_eq!(&frame.body[..], b"x");
    assert!(!frame.more && !frame.command);
    assert_eq!(taken, 10);
}

#[test]
fn message_is_read_back() {
    let parts = vec![
        Bytes::from_static(b"id"),
        Bytes::new(),
        Bytes::from(vec![7u8; 300]),
    ];
    let mut bytes = write_multipart(&parts);
    bytes.extend(write_multipart(&[Bytes::from_static(b"next")]));
    let (found, error) = messages(&bytes);
    assert_eq!(found, vec![parts, vec![Bytes::from_static(b"next")]]);
    assert_eq!(error, None);
}

#[test]
fn message_bytes() {
    let parts = [Bytes::from_static(b"ab"), Bytes::from_static(b"c")];
    assert_eq!(write_multipart(&parts), b"\x01\x02ab\x00\x01c".to_vec());
    assert_eq!(write_multipart(&[]), Vec::<u8>::new());
}

#[test]
fn commands_between_messages_are_skipped() {
    let mut bytes = write_frame(b"\x09SUBSCRIBE", false, true);
    bytes.extend(write_multipart(&[Bytes::from_static(b"x")]));
    let (found, error) = messages(&bytes);
    assert_eq!(found, vec![vec![Bytes::from_static(b"x")]]);
    assert_eq!(error, None);
}

#[test]
fn command_within_a_message_is_an_error() {
    let mut bytes = write_frame(b"first", true, false);
    bytes.extend(write_frame(b"\x04PING", false, true));
    let (found, error) = messages(&bytes);
    assert!(found.is_empty());
    assert_eq!(error, Some(ZmtpError::CommandWithinMessage));
    assert_eq!(
        ZmtpError::CommandWithinMessage.message(),
        "unexpected command frame mid-message"
    );
}

#[test]
fn incomplete_message_is_not_delivered() {
    let bytes = write_multipart(&[Bytes::from_static(b"a"), Bytes::from_static(b"b")]);
    let (found, error) = messages(&bytes[..bytes.len() - 1]);
    assert!(found.is_empty());
    assert_eq!(error, None);
}
