//! The opening of a ZMTP 3.1 connection, seen from the side that binds: both peers send a
//! greeting of 64 bytes and then a `READY` command with metadata. Only the `NULL` security
//! mechanism is known.

use crate::command::{
    build_ready_command, command_bytes, law_absent_property, law_command_read_back,
    law_last_property_counts, lemma_command_name, parse_command, properties_fit, property_fits,
    read_command, utf8_properties, Property,
};
use crate::frame::{frame_bytes, write_frame, Frame, FrameModel};
use crate::text::{law_lossy_of_utf8, lossy, lossy_text, same_text};
use vstd::prelude::*;
use vstd::utf8::encode_utf8;

verus! {

/// The bytes of a greeting that mark it as ZMTP.
pub const SIGNATURE: [u8; 10] = [0xFF, 0, 0, 0, 0, 0, 0, 0, 0, 0x7F];

/// The protocol version that the greeting names.
pub const VERSION_MAJOR: u8 = 3;

/// The minor protocol version that the greeting names.
pub const VERSION_MINOR: u8 = 1;

/// The kinds of socket that a kernel binds.
#[derive(Debug, Clone, Copy, PartialEq, Eq, Structural)]
pub enum SocketType {
    Rep,
    Router,
    Pub,
}

impl SocketType {
    /// The name of the kind in the metadata of a handshake.
    pub open spec fn title(self) -> Seq<char> {
        match self {
            SocketType::Rep => "REP"@,
            SocketType::Router => "ROUTER"@,
            SocketType::Pub => "PUB"@,
        }
    }

    /// The name of the kind in the metadata of a handshake.
    pub fn name(self) -> (name: &'static str)
        ensures
            name@ == self.title(),
            self == SocketType::Rep ==> name@ == "REP"@,
            self == SocketType::Router ==> name@ == "ROUTER"@,
            self == SocketType::Pub ==> name@ == "PUB"@,
    {
        match self {
            SocketType::Rep => "REP",
            SocketType::Router => "ROUTER",
            SocketType::Pub => "PUB",
        }
    }
}

/// Ways in which a peer can break the protocol.
#[derive(Debug, Clone, Copy, PartialEq, Eq, Structural)]
pub enum ZmtpError {
    /// The greeting does not have the ZMTP signature.
    BadGreeting,
    /// The handshake frame is not a command.
    ExpectedCommand,
    /// A command frame came between the frames of a message.
    CommandWithinMessage,
}

impl ZmtpError {
    /// The text that describes the error.
    pub fn message(self) -> (text: &'static str)
        ensures
            text@ == match self {
                ZmtpError::BadGreeting => "bad zmtp greeting"@,
                ZmtpError::ExpectedCommand => "expected command frame in handshake"@,
                ZmtpError::CommandWithinMessage => "unexpected command frame mid-message"@,
            },
    {
        match self {
            ZmtpError::BadGreeting => "bad zmtp greeting",
            ZmtpError::ExpectedCommand => "expected command frame in handshake",
            ZmtpError::CommandWithinMessage => "unexpected command frame mid-message",
        }
    }
}

/// The greeting: the signature, the version, the mechanism `NULL` padded to 20 bytes, the
/// flag of the side that binds, and a filler.
pub open spec fn greeting_bytes() -> Seq<u8> {
    SIGNATURE@ + seq![VERSION_MAJOR, VERSION_MINOR] + seq![0x4eu8, 0x55, 0x4c, 0x4c] + Seq::new(
        16,
        |i: int| 0u8,
    ) + seq![1u8] + Seq::new(31, |i: int| 0u8)
}

/// Whether a greeting is accepted: only the first and the last byte of the signature count.
pub open spec fn greeting_accepted(peer: Seq<u8>) -> bool {
    peer[0] == 0xFF && peer[9] == 0x7F
}

/// The metadata that this side announces.
pub open spec fn ready_properties(socket_type: SocketType, identity: Seq<u8>) -> Seq<Property> {
    seq![
        (encode_utf8("Socket-Type"@), encode_utf8(socket_type.title())),
        (encode_utf8("Identity"@), encode_utf8(lossy(identity))),
    ]
}

/// The `READY` command that this side sends.
pub open spec fn ready_frame(socket_type: SocketType, identity: Seq<u8>) -> FrameModel {
    FrameModel {
        body: command_bytes(encode_utf8("READY"@), ready_properties(socket_type, identity)),
        more: false,
        command: true,
    }
}

/// The `Identity` that the command with this body carries, if it is a `READY` command and
/// carries one.
pub open spec fn announced_identity(body: Seq<u8>) -> Option<Seq<u8>> {
    match read_command(body) {
        Some((name, metadata)) => if name == "READY"@ && metadata.contains_key("Identity"@) {
            Some(metadata["Identity"@])
        } else {
            None
        },
        None => None,
    }
}

/// The greeting of the side that binds is one that it accepts itself.
pub proof fn law_greeting_is_accepted()
    ensures
        greeting_bytes().len() == 64,
        greeting_accepted(greeting_bytes()),
{
}

/// A peer that reads the `READY` command finds the identity of this side in it, as text;
/// an identity that is UTF-8 comes through unchanged.
pub proof fn law_identity_is_announced(socket_type: SocketType, identity: Seq<u8>)
    requires
        encode_utf8(lossy(identity)).len() < 0x1_0000_0000,
    ensures
        announced_identity(ready_frame(socket_type, identity).body) == Some(
            encode_utf8(lossy(identity)),
        ),
        vstd::utf8::valid_utf8(identity) ==> announced_identity(
            ready_frame(socket_type, identity).body,
        ) == Some(identity),
{
    reveal_strlit("READY");
    reveal_strlit("Socket-Type");
    reveal_strlit("Identity");
    reveal_strlit("REP");
    reveal_strlit("ROUTER");
    reveal_strlit("PUB");
    vstd::utf8::is_ascii_chars_encode_utf8("READY"@);
    vstd::utf8::is_ascii_chars_encode_utf8("Socket-Type"@);
    vstd::utf8::is_ascii_chars_encode_utf8("Identity"@);
    vstd::utf8::is_ascii_chars_encode_utf8(socket_type.title());
    let properties = ready_properties(socket_type, identity);
    assert(property_fits(properties[0]));
    assert(property_fits(properties[1]));
    assert(properties_fit(properties));
    law_command_read_back(encode_utf8("READY"@), properties);
    law_lossy_of_utf8("READY"@);
    law_lossy_of_utf8("Identity"@);
    if vstd::utf8::valid_utf8(identity) {
        vstd::utf8::decode_utf8_encode_utf8(identity);
    }
}

/// A command other than `READY` announces no identity, whatever its metadata.
pub proof fn law_other_commands_are_ignored(name: Seq<u8>, properties: Seq<Property>)
    requires
        name.len() < 0x100,
        lossy(name) != "READY"@,
    ensures
        announced_identity(command_bytes(name, properties)) is None,
{
    lemma_command_name(name, properties);
}

/// The opening of a connection, from this side: the kind of its socket, and the identity
/// that it announces.
pub struct Opening {
    pub socket_type: SocketType,
    pub identity: Vec<u8>,
}

impl Opening {
    /// The greeting to send.
    pub fn greeting(&self) -> (greeting: [u8; 64])
        ensures
            greeting@ == greeting_bytes(),
    {
        let mut out: [u8; 64] = [0u8; 64];
        out[0] = SIGNATURE[0];
        out[9] = SIGNATURE[9];
        out[10] = VERSION_MAJOR;
        out[11] = VERSION_MINOR;
        // Mechanism "NULL"
        out[12] = 0x4e;
        out[13] = 0x55;
        out[14] = 0x4c;
        out[15] = 0x4c;
        // as-server flag: this side always binds, so it is the ZMTP "server".
        out[32] = 1;
        assert(out@ =~= greeting_bytes());
        out
    }

    /// Checks the greeting of the peer.
    pub fn on_greeting(&self, peer: &[u8]) -> (checked: Result<(), ZmtpError>)
        requires
            peer@.len() == 64,
        ensures
            checked == if greeting_accepted(peer@) {
                Ok::<(), ZmtpError>(())
            } else {
                Err::<(), ZmtpError>(ZmtpError::BadGreeting)
            },
            checked is Ok <==> peer@[0] == 0xFF && peer@[9] == 0x7F,
    {
        if peer[0] != 0xFF || peer[9] != 0x7F {
            return Err(ZmtpError::BadGreeting);
        }
        Ok(())
    }

    /// The bytes of the `READY` command to send. The identity travels as text.
    pub fn ready(&self) -> (bytes: Vec<u8>)
        ensures
            bytes@ == frame_bytes(ready_frame(self.socket_type, self.identity@)),
    {
        let identity = lossy_text(&self.identity);
        let metadata: [(&str, &str); 2] = [
            ("Socket-Type", self.socket_type.name()),
            ("Identity", identity.as_str()),
        ];
        let body = build_ready_command(&metadata);
        assert(utf8_properties(metadata@) =~= ready_properties(self.socket_type, self.identity@));
        write_frame(&body, false, true)
    }

    /// The identity that the peer announces in its `READY` command, if any.
    pub fn on_ready(&self, frame: &Frame) -> (identity: Result<Option<Vec<u8>>, ZmtpError>)
        ensures
            match identity {
                Ok(identity) => {
                    &&& frame.command
                    &&& match identity {
                        Some(identity) => announced_identity(frame@.body) == Some(identity@),
                        None => announced_identity(frame@.body) is None,
                    }
                },
                Err(error) => !frame.command && error == ZmtpError::ExpectedCommand,
            },
            identity matches Ok(Some(identity)) ==> {
                &&& read_command(frame@.body) matches Some((name, metadata))
                &&& name == "READY"@
                &&& metadata.contains_key("Identity"@)
                &&& metadata["Identity"@] == identity@
            },
            identity matches Ok(None) ==> {
                ||| read_command(frame@.body) is None
                ||| {
                    &&& read_command(frame@.body) matches Some((name, metadata))
                    &&& name != "READY"@ || !metadata.contains_key("Identity"@)
                }
            },
    {
        if !frame.command {
            return Err(ZmtpError::ExpectedCommand);
        }
        match parse_command(&frame.body) {
            Some((name, table)) => {
                if !same_text(name.as_str(), "READY") {
                    return Ok(None);
                }
                match table.get("Identity") {
                    Some(identity) => Ok(Some(identity.clone())),
                    None => Ok(None),
                }
            },
            None => Ok(None),
        }
    }
}

/// The greeting byte by byte: the signature, version 3.1, `NULL` and nothing more in the
/// field of the mechanism, the flag of the side that binds, and zeros.
pub proof fn law_greeting_layout(i: int)
    requires
        0 <= i < 64,
    ensures
        greeting_bytes().len() == 64,
        greeting_bytes()[i] == if i == 0 {
            0xFFu8
        } else if i == 9 {
            0x7F
        } else if i == 10 {
            3
        } else if i == 11 {
            1
        } else if i == 12 {
            0x4e
        } else if i == 13 {
            0x55
        } else if i == 14 || i == 15 {
            0x4c
        } else if i == 32 {
            1
        } else {
            0
        },
{
}

/// A greeting is accepted if and only if its first byte is `0xFF` and its tenth is `0x7F`:
/// of two greetings that agree in these, both are accepted or both refused, whatever their
/// padding, version and mechanism are.
pub proof fn law_two_bytes_decide(peer: Seq<u8>, other: Seq<u8>)
    ensures
        greeting_accepted(peer) <==> peer[0] == 0xFF && peer[9] == 0x7F,
        peer[0] == other[0] && peer[9] == other[9] ==> greeting_accepted(peer)
            == greeting_accepted(other),
{
}

/// What a peer reads from the `READY` command of this side: the kind of the socket and the
/// identity, and nothing else.
pub proof fn law_ready_is_read(socket_type: SocketType, identity: Seq<u8>)
    requires
        encode_utf8(lossy(identity)).len() < 0x1_0000_0000,
    ensures
        ready_frame(socket_type, identity).command,
        !ready_frame(socket_type, identity).more,
        ready_frame(socket_type, identity).body == command_bytes(
            encode_utf8("READY"@),
            seq![
                (
                    encode_utf8("Socket-Type"@),
                    encode_utf8(
                        match socket_type {
                            SocketType::Rep => "REP"@,
                            SocketType::Router => "ROUTER"@,
                            SocketType::Pub => "PUB"@,
                        },
                    ),
                ),
                (encode_utf8("Identity"@), encode_utf8(lossy(identity))),
            ],
        ),
        read_command(ready_frame(socket_type, identity).body) matches Some((name, metadata)) && {
            &&& name == "READY"@
            &&& metadata == map![
                "Socket-Type"@ => encode_utf8(
                    match socket_type {
                        SocketType::Rep => "REP"@,
                        SocketType::Router => "ROUTER"@,
                        SocketType::Pub => "PUB"@,
                    },
                ),
                "Identity"@ => encode_utf8(lossy(identity)),
            ]
        },
{
    reveal_strlit("READY");
    reveal_strlit("Socket-Type");
    reveal_strlit("Identity");
    reveal_strlit("REP");
    reveal_strlit("ROUTER");
    reveal_strlit("PUB");
    vstd::utf8::is_ascii_chars_encode_utf8("READY"@);
    vstd::utf8::is_ascii_chars_encode_utf8("Socket-Type"@);
    vstd::utf8::is_ascii_chars_encode_utf8("Identity"@);
    vstd::utf8::is_ascii_chars_encode_utf8(socket_type.title());
    let properties = ready_properties(socket_type, identity);
    assert(property_fits(properties[0]));
    assert(property_fits(properties[1]));
    assert(properties_fit(properties));
    law_command_read_back(encode_utf8("READY"@), properties);
    law_lossy_of_utf8("READY"@);
    law_lossy_of_utf8("Identity"@);
    law_lossy_of_utf8("Socket-Type"@);
    assert(properties.drop_last().drop_last() =~= Seq::empty());
    reveal_with_fuel(crate::command::property_map, 3);
    assert(crate::command::property_map(properties) =~= map![
        "Socket-Type"@ => encode_utf8(socket_type.title()),
        "Identity"@ => encode_utf8(lossy(identity)),
    ]);
}

/// The `READY` command of a peer announces the value of the last property whose key is
/// `Identity`.
pub proof fn law_peer_identity(properties: Seq<Property>, i: int)
    requires
        properties_fit(properties),
        0 <= i < properties.len(),
        lossy(properties[i].0) == "Identity"@,
        forall|j: int|
            i < j < properties.len() ==> lossy((#[trigger] properties[j]).0) != "Identity"@,
    ensures
        announced_identity(command_bytes(encode_utf8("READY"@), properties)) == Some(
            properties[i].1,
        ),
{
    reveal_strlit("READY");
    vstd::utf8::is_ascii_chars_encode_utf8("READY"@);
    law_command_read_back(encode_utf8("READY"@), properties);
    law_lossy_of_utf8("READY"@);
    law_last_property_counts(properties, "Identity"@, i);
}

/// The `READY` command of a peer announces nothing if no property has the key `Identity`.
pub proof fn law_peer_without_identity(properties: Seq<Property>)
    requires
        properties_fit(properties),
        forall|i: int|
            0 <= i < properties.len() ==> lossy((#[trigger] properties[i]).0) != "Identity"@,
    ensures
        announced_identity(command_bytes(encode_utf8("READY"@), properties)) is None,
{
    reveal_strlit("READY");
    vstd::utf8::is_ascii_chars_encode_utf8("READY"@);
    law_command_read_back(encode_utf8("READY"@), properties);
    law_lossy_of_utf8("READY"@);
    law_absent_property(properties, "Identity"@);
}

/// An identity is announced only by a well-formed command that is named `READY` and has it
/// as its `Identity`.
pub proof fn law_only_ready_announces(body: Seq<u8>)
    ensures
        announced_identity(body) matches Some(identity) ==> {
            &&& read_command(body) matches Some((name, metadata))
            &&& name == "READY"@
            &&& metadata.contains_key("Identity"@)
            &&& metadata["Identity"@] == identity
        },
        read_command(body) is None ==> announced_identity(body) is None,
        read_command(body) matches Some((name, metadata)) ==> (name == "READY"@
            && metadata.contains_key("Identity"@) ==> announced_identity(body) == Some(
            metadata["Identity"@],
        )),
{
}

} // verus!
