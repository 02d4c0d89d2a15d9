//! The five sockets of a kernel.

use crate::json::{json_as_str, json_document, json_get, json_of, member, parse_json, Json};
use crate::multipart::Multipart;
use crate::octets::{frames, octets, same_bytes};
use crate::text::same_text;
use crate::zmtp::SocketType;
use bytes::Bytes;
use serde_json::Value;
use vstd::prelude::*;

verus! {

/// How a client reaches the kernel, as the connection file says it.
#[derive(Debug)]
pub struct ConnectionInfo {
    pub ip: String,
    pub transport: String,
    pub hb_port: u16,
    pub control_port: u16,
    pub shell_port: u16,
    pub stdin_port: u16,
    pub iopub_port: u16,
    pub signature_scheme: String,
    pub key: String,
    pub kernel_name: String,
}

impl Clone for ConnectionInfo {
    fn clone(&self) -> (copy: Self)
        ensures
            copy == *self,
    {
        ConnectionInfo {
            ip: self.ip.clone(),
            transport: self.transport.clone(),
            hb_port: self.hb_port,
            control_port: self.control_port,
            shell_port: self.shell_port,
            stdin_port: self.stdin_port,
            iopub_port: self.iopub_port,
            signature_scheme: self.signature_scheme.clone(),
            key: self.key.clone(),
            kernel_name: self.kernel_name.clone(),
        }
    }
}

/// The sockets of a kernel.
#[derive(Debug, Clone, Copy, PartialEq, Eq, Structural)]
pub enum Channel {
    Heartbeat,
    Control,
    Shell,
    Stdin,
    Iopub,
}

/// Bidirectional channel handle for one socket: `R` receives what comes in, `S` sends what
/// goes out.
pub struct ChannelHandle<R, S> {
    pub incoming_rx: R,
    pub outgoing_tx: S,
}

/// The ports that the sockets of a kernel are bound to.
#[derive(Debug, Clone, Copy, PartialEq, Eq, Structural)]
pub struct BoundPorts {
    pub heartbeat: u16,
    pub control: u16,
    pub shell: u16,
    pub stdin: u16,
    pub iopub: u16,
}

/// Set of handles for all five Jupyter sockets, plus the ports actually bound (in case the
/// connection file requested an ephemeral port).
pub struct SocketHandles<R, S> {
    pub heartbeat: ChannelHandle<R, S>,
    pub control: ChannelHandle<R, S>,
    pub shell: ChannelHandle<R, S>,
    pub stdin: ChannelHandle<R, S>,
    pub iopub: ChannelHandle<R, S>,
    pub ports: BoundPorts,
}

/// One socket to bind.
pub struct Binding {
    pub channel: Channel,
    pub socket_type: SocketType,
    /// Whether interrupt requests are looked for among the incoming messages.
    pub interrupts: bool,
    pub port: u16,
}

/// The sockets of a kernel, in the order in which they are bound.
pub open spec fn bindings(info: ConnectionInfo) -> Seq<Binding> {
    seq![
        Binding {
            channel: Channel::Heartbeat,
            socket_type: SocketType::Rep,
            interrupts: false,
            port: info.hb_port,
        },
        Binding {
            channel: Channel::Control,
            socket_type: SocketType::Router,
            interrupts: true,
            port: info.control_port,
        },
        Binding {
            channel: Channel::Shell,
            socket_type: SocketType::Router,
            interrupts: false,
            port: info.shell_port,
        },
        Binding {
            channel: Channel::Stdin,
            socket_type: SocketType::Router,
            interrupts: false,
            port: info.stdin_port,
        },
        Binding {
            channel: Channel::Iopub,
            socket_type: SocketType::Pub,
            interrupts: false,
            port: info.iopub_port,
        },
    ]
}

/// Why a socket with this transport is not bound, if it is not.
pub open spec fn transport_error(transport: Seq<char>) -> Option<Seq<char>> {
    if transport == "tcp"@ {
        None
    } else {
        Some("unsupported transport '"@ + transport + "', only 'tcp' is supported"@)
    }
}

/// Checks that a socket can be bound with this transport.
pub fn check_transport(transport: &str) -> (checked: Result<(), String>)
    ensures
        match checked {
            Ok(()) => transport_error(transport@) is None,
            Err(error) => transport_error(transport@) == Some(error@),
        },
        checked is Ok <==> transport@ == "tcp"@,
        checked matches Err(error) ==> error@ == "unsupported transport '"@ + transport@
            + "', only 'tcp' is supported"@,
{
    if same_text(transport, "tcp") {
        return Ok(());
    }
    let mut error = "unsupported transport '".to_owned();
    error.append(transport);
    error.append("', only 'tcp' is supported");
    Err(error)
}

/// The sockets of a kernel, in the order in which they are bound.
fn socket_plan(info: &ConnectionInfo) -> (plan: Vec<Binding>)
    ensures
        plan@ == bindings(*info),
{
    let mut plan: Vec<Binding> = Vec::new();
    plan.push(
        Binding {
            channel: Channel::Heartbeat,
            socket_type: SocketType::Rep,
            interrupts: false,
            port: info.hb_port,
        },
    );
    plan.push(
        Binding {
            channel: Channel::Control,
            socket_type: SocketType::Router,
            interrupts: true,
            port: info.control_port,
        },
    );
    plan.push(
        Binding {
            channel: Channel::Shell,
            socket_type: SocketType::Router,
            interrupts: false,
            port: info.shell_port,
        },
    );
    plan.push(
        Binding {
            channel: Channel::Stdin,
            socket_type: SocketType::Router,
            interrupts: false,
            port: info.stdin_port,
        },
    );
    plan.push(
        Binding {
            channel: Channel::Iopub,
            socket_type: SocketType::Pub,
            interrupts: false,
            port: info.iopub_port,
        },
    );
    assert(plan@ =~= bindings(*info));
    plan
}

/// The sockets to bind, in that order, or why none can be bound.
pub fn start(info: &ConnectionInfo) -> (plan: Result<Vec<Binding>, String>)
    ensures
        match plan {
            Ok(plan) => transport_error(info.transport@) is None && plan@ == bindings(*info),
            Err(error) => transport_error(info.transport@) == Some(error@),
        },
        plan is Ok <==> info.transport@ == "tcp"@,
        plan matches Err(error) ==> error@ == "unsupported transport '"@ + info.transport@
            + "', only 'tcp' is supported"@,
{
    match check_transport(info.transport.as_str()) {
        Ok(()) => Ok(socket_plan(info)),
        Err(error) => Err(error),
    }
}

/// A socket that was bound: what it was bound for, its listener (or, once it is served, the
/// handle to it), and the port that it has. The port differs from the requested one where
/// that was ephemeral.
pub struct Bound<L> {
    pub binding: Binding,
    pub listener: L,
    pub port: u16,
}

/// All sockets of a kernel, bound.
pub struct BoundSockets<L> {
    pub heartbeat: Bound<L>,
    pub control: Bound<L>,
    pub shell: Bound<L>,
    pub stdin: Bound<L>,
    pub iopub: Bound<L>,
}

impl<L> BoundSockets<L> {
    /// The sockets in the order in which they were bound.
    pub open spec fn in_order(self) -> Seq<Bound<L>> {
        seq![self.heartbeat, self.control, self.shell, self.stdin, self.iopub]
    }

    /// The ports actually bound.
    pub fn ports(&self) -> (ports: BoundPorts)
        ensures
            ports == (BoundPorts {
                heartbeat: self.heartbeat.port,
                control: self.control.port,
                shell: self.shell.port,
                stdin: self.stdin.port,
                iopub: self.iopub.port,
            }),
    {
        BoundPorts {
            heartbeat: self.heartbeat.port,
            control: self.control.port,
            shell: self.shell.port,
            stdin: self.stdin.port,
            iopub: self.iopub.port,
        }
    }
}

impl<R, S> BoundSockets<ChannelHandle<R, S>> {
    /// The handles of sockets that are served, with the ports that they have.
    pub fn into_handles(self) -> (handles: SocketHandles<R, S>)
        ensures
            handles == (SocketHandles {
                heartbeat: self.heartbeat.listener,
                control: self.control.listener,
                shell: self.shell.listener,
                stdin: self.stdin.listener,
                iopub: self.iopub.listener,
                ports: BoundPorts {
                    heartbeat: self.heartbeat.port,
                    control: self.control.port,
                    shell: self.shell.port,
                    stdin: self.stdin.port,
                    iopub: self.iopub.port,
                },
            }),
    {
        let ports = self.ports();
        SocketHandles {
            heartbeat: self.heartbeat.listener,
            control: self.control.listener,
            shell: self.shell.listener,
            stdin: self.stdin.listener,
            iopub: self.iopub.listener,
            ports,
        }
    }
}

/// The error of the first bind that failed, if one did.
pub open spec fn first_failure<L, E>(outcomes: Seq<Result<(L, u16), E>>) -> Option<E>
    decreases outcomes.len(),
{
    if outcomes.len() == 0 {
        None
    } else {
        match outcomes[0] {
            Ok(_) => first_failure(outcomes.skip(1)),
            Err(error) => Some(error),
        }
    }
}

/// The socket that an outcome of a bind gives, if it is not an error.
pub open spec fn bound_by<L, E>(binding: Binding, outcome: Result<(L, u16), E>) -> Bound<L> {
    Bound { binding, listener: (outcome->Ok_0).0, port: (outcome->Ok_0).1 }
}

/// Success needs every bind: there is no failure exactly where all succeeded, and otherwise
/// it is the error before which all succeeded.
pub proof fn law_all_binds_needed<L, E>(outcomes: Seq<Result<(L, u16), E>>)
    ensures
        first_failure(outcomes) is None <==> forall|i: int|
            0 <= i < outcomes.len() ==> (#[trigger] outcomes[i]) is Ok,
        forall|i: int|
            0 <= i < outcomes.len() && (#[trigger] outcomes[i]) is Err && (forall|j: int|
                0 <= j < i ==> (#[trigger] outcomes[j]) is Ok) ==> first_failure(outcomes) == Some(
                outcomes[i]->Err_0,
            ),
    decreases outcomes.len(),
{
    if outcomes.len() > 0 {
        let rest = outcomes.skip(1);
        law_all_binds_needed(rest);
        assert forall|i: int| 0 <= i < rest.len() implies #[trigger] rest[i] == outcomes[i + 1] by {
        }
        assert forall|i: int| 1 <= i < outcomes.len() implies #[trigger] outcomes[i] == rest[i
            - 1] by {}
        if first_failure(outcomes) is Some && outcomes[0] is Ok {
            let i = choose|i: int| 0 <= i < rest.len() && !((#[trigger] rest[i]) is Ok);
            assert(!(outcomes[i + 1] is Ok));
        }
        assert forall|i: int|
            0 <= i < outcomes.len() && (#[trigger] outcomes[i]) is Err && (forall|j: int|
                0 <= j < i ==> (#[trigger] outcomes[j]) is Ok) implies first_failure(outcomes)
            == Some(outcomes[i]->Err_0) by {
            if i > 0 {
                assert(outcomes[0] is Ok);
                assert forall|j: int| 0 <= j < i - 1 implies (#[trigger] rest[j]) is Ok by {
                    assert(rest[j] == outcomes[j + 1]);
                }
                assert(rest[i - 1] is Err);
            }
        }
    }
}

/// What comes of binding the sockets in order: all of them, or the error of the first bind
/// that failed. After a failure no other bind needs to be tried, and nothing is left to
/// serve. An outcome is the listener with the port that it has.
#[verifier::loop_isolation(false)]
pub fn bind_all<L, E>(info: &ConnectionInfo, outcomes: Vec<Result<(L, u16), E>>) -> (bound: Result<
    BoundSockets<L>,
    E,
>)
    requires
        outcomes@.len() <= bindings(*info).len(),
        first_failure(outcomes@) is None ==> outcomes@.len() == bindings(*info).len(),
    ensures
        match first_failure(outcomes@) {
            Some(error) => bound == Err::<BoundSockets<L>, E>(error),
            None => {
                &&& bound matches Ok(sockets)
                &&& sockets.in_order() == Seq::new(
                    outcomes@.len(),
                    |i: int| bound_by(bindings(*info)[i], outcomes@[i]),
                )
            },
        },
{
    let ghost all = outcomes@;
    let mut outcomes = outcomes;
    let mut plan = socket_plan(info);
    let mut bound: Vec<Bound<L>> = Vec::new();
    assert(all.skip(0) =~= all);
    assert(bindings(*info).skip(0) =~= bindings(*info));
    while outcomes.len() > 0
        invariant
            bound@.len() + outcomes@.len() == all.len(),
            all.len() <= bindings(*info).len(),
            outcomes@ == all.skip(bound@.len() as int),
            plan@ == bindings(*info).skip(bound@.len() as int),
            first_failure(all) == first_failure(outcomes@),
            bound@ == Seq::new(
                bound@.len(),
                |i: int| bound_by(bindings(*info)[i], all[i]),
            ),
        decreases outcomes@.len(),
    {
        let ghost done = bound@.len() as int;
        let ghost before = bound@;
        let binding = plan.remove(0);
        assert(outcomes@[0] == all[done]);
        let ghost left = outcomes@;
        match outcomes.remove(0) {
            Ok((listener, port)) => {
                bound.push(Bound { binding, listener, port });
                proof {
                    assert(outcomes@ =~= left.skip(1));
                    assert(outcomes@ =~= all.skip(done + 1));
                    assert(plan@ =~= bindings(*info).skip(done + 1));
                    assert(bound@ =~= Seq::new(
                        bound@.len(),
                        |i: int| bound_by(bindings(*info)[i], all[i]),
                    ));
                }
            },
            Err(error) => {
                return Err(error);
            },
        }
    }
    assert(first_failure(all) is None);
    let ghost sockets = bound@;
    let iopub = bound.pop().unwrap();
    let stdin = bound.pop().unwrap();
    let shell = bound.pop().unwrap();
    let control = bound.pop().unwrap();
    let heartbeat = bound.pop().unwrap();
    let result = BoundSockets { heartbeat, control, shell, stdin, iopub };
    assert(result.in_order() =~= sockets);
    Ok(result)
}

/// The frame `<IDS|MSG>` between the routing identities and the message proper.
pub const DELIMITER: [u8; 9] = [0x3c, 0x49, 0x44, 0x53, 0x7c, 0x4d, 0x53, 0x47, 0x3e];

/// The header frame of a wire message: the second one after the first delimiter.
pub open spec fn header_frame(parts: Seq<Seq<u8>>) -> Option<Seq<u8>> {
    match parts.index_of_first(DELIMITER@) {
        Some(index) => if index + 2 < parts.len() {
            Some(parts[index + 2])
        } else {
            None
        },
        None => None,
    }
}

/// Whether the first `<IDS|MSG>` frame of a message stands at an index.
pub open spec fn delimited_at(parts: Seq<Bytes>, index: int) -> bool {
    &&& 0 <= index < parts.len()
    &&& octets(parts[index]) == seq![0x3cu8, 0x49, 0x44, 0x53, 0x7c, 0x4d, 0x53, 0x47, 0x3e]
    &&& forall|i: int|
        0 <= i < index ==> octets(#[trigger] parts[i]) != seq![
            0x3cu8,
            0x49,
            0x44,
            0x53,
            0x7c,
            0x4d,
            0x53,
            0x47,
            0x3e,
        ]
}

/// Whether a header announces an interrupt.
pub open spec fn announces_interrupt(header: Json) -> bool {
    member(header, "msg_type"@) == Some(Json::Text("interrupt_request"@))
}

/// Whether a message is an interrupt request.
pub open spec fn interrupts(parts: Seq<Seq<u8>>) -> bool {
    match header_frame(parts) {
        Some(header) => match json_document(header) {
            Some(header) => announces_interrupt(header),
            None => false,
        },
        None => false,
    }
}

/// The header decides whether a message is an interrupt request, whatever identities stand
/// before the delimiter and whatever follows.
pub proof fn law_header_decides(
    identities: Seq<Seq<u8>>,
    signature: Seq<u8>,
    header: Seq<u8>,
    rest: Seq<Seq<u8>>,
)
    requires
        !identities.contains(DELIMITER@),
    ensures
        interrupts(identities + seq![DELIMITER@, signature, header] + rest) == match json_document(
            header,
        ) {
            Some(header) => announces_interrupt(header),
            None => false,
        },
{
    let parts = identities + seq![DELIMITER@, signature, header] + rest;
    let index = identities.len() as int;
    assert(parts[index] == DELIMITER@);
    parts.index_of_first_ensures(DELIMITER@);
    let found = parts.index_of_first(DELIMITER@)->0;
    assert(found == index) by {
        if found < index {
            assert(parts[found] == identities[found]);
        }
    }
    assert(parts[index + 2] == header);
}

/// Whether a header announces `msg_type: "interrupt_request"`.
pub fn is_interrupt_header(header: &Value) -> (interrupt: bool)
    ensures
        interrupt == announces_interrupt(json_of(*header)),
        interrupt <==> {
            &&& json_of(*header) matches Json::Object(members)
            &&& members.contains_key("msg_type"@)
            &&& members["msg_type"@] == Json::Text("interrupt_request"@)
        },
{
    match json_get(header, "msg_type") {
        Some(value) => match json_as_str(value) {
            Some(text) => same_text(text, "interrupt_request"),
            None => false,
        },
        None => false,
    }
}

/// Returns true if `parts` is a Jupyter wire message whose header announces
/// `msg_type: "interrupt_request"`.
pub fn is_interrupt_request(parts: &[Bytes]) -> (interrupt: bool)
    ensures
        interrupt == interrupts(frames(parts@)),
        interrupt <==> exists|index: int|
            {
                &&& #[trigger] delimited_at(parts@, index)
                &&& index + 2 < parts@.len()
                &&& json_document(octets(parts@[index + 2])) matches Some(Json::Object(members))
                &&& members.contains_key("msg_type"@)
                &&& members["msg_type"@] == Json::Text("interrupt_request"@)
            },
{
    // Layout: [router_identity?, ...zmq_identities, "<IDS|MSG>", signature,
    //          header, parent_header, metadata, content, ...buffers].
    let ghost model = frames(parts@);
    proof {
        model.index_of_first_ensures(DELIMITER@);
    }
    let delimiter: [u8; 9] = DELIMITER;
    let mut index: usize = 0;
    assert(DELIMITER@ =~= seq![0x3cu8, 0x49, 0x44, 0x53, 0x7c, 0x4d, 0x53, 0x47, 0x3e]);
    assert forall|i: int| 0 <= i < parts@.len() implies #[trigger] octets(parts@[i])
        == model[i] by {}
    while index < parts.len()
        invariant
            index <= parts@.len(),
            model == frames(parts@),
            delimiter@ == DELIMITER@,
            forall|i: int| 0 <= i < index ==> model[i] != DELIMITER@,
            DELIMITER@ == seq![0x3cu8, 0x49, 0x44, 0x53, 0x7c, 0x4d, 0x53, 0x47, 0x3e],
            forall|i: int| 0 <= i < parts@.len() ==> #[trigger] octets(parts@[i]) == model[i],
            model.index_of_first(DELIMITER@) matches Some(first) ==> {
                &&& 0 <= first < model.len()
                &&& model[first] == DELIMITER@
                &&& forall|i: int| 0 <= i < first ==> model[i] != DELIMITER@
            },
            model.index_of_first(DELIMITER@) is None ==> !model.contains(DELIMITER@),
        decreases parts@.len() - index,
    {
        assert(model[index as int] == octets(parts@[index as int]));
        if same_bytes(&parts[index], &delimiter) {
            assert(model.contains(DELIMITER@));
            assert(delimited_at(parts@, index as int));
            assert forall|other: int| #[trigger] delimited_at(parts@, other) implies other
                == index by {
                assert(octets(parts@[other]) == DELIMITER@);
                if index < other {
                    assert(octets(parts@[index as int]) == DELIMITER@);
                }
            }
            if parts.len() - index <= 2 {
                return false;
            }
            assert(model[index + 2] == octets(parts@[index + 2]));
            return match parse_json(&parts[index + 2]) {
                Ok(header) => is_interrupt_header(&header),
                Err(_) => false,
            };
        }
        index += 1;
    }
    false
}

/// What becomes of a message on the control socket: whether user code is terminated, and
/// the message to forward. Every message is forwarded, interrupt requests too.
pub fn on_control_message(message: Multipart) -> (filtered: (bool, Multipart))
    ensures
        filtered.0 == interrupts(frames(message@)),
        filtered.0 <==> exists|index: int|
            {
                &&& #[trigger] delimited_at(message@, index)
                &&& index + 2 < message@.len()
                &&& json_document(octets(message@[index + 2])) matches Some(Json::Object(members))
                &&& members.contains_key("msg_type"@)
                &&& members["msg_type"@] == Json::Text("interrupt_request"@)
            },
        filtered.1 == message,
{
    let terminate = is_interrupt_request(&message);
    (terminate, message)
}

/// A header announces an interrupt if and only if it is an object whose member `msg_type` is
/// the text `interrupt_request`, whatever its other members are: headers with the same
/// `msg_type` get the same answer.
pub proof fn law_message_type_decides(
    members: Map<Seq<char>, Json>,
    others: Map<Seq<char>, Json>,
    header: Json,
)
    ensures
        announces_interrupt(Json::Object(members)) <==> members.contains_key("msg_type"@)
            && members["msg_type"@] == Json::Text("interrupt_request"@),
        members.contains_key("msg_type"@) && others.contains_key("msg_type"@)
            && members["msg_type"@] == others["msg_type"@] ==> announces_interrupt(
            Json::Object(members),
        ) == announces_interrupt(Json::Object(others)),
        !(header is Object) ==> !announces_interrupt(header),
{
}

/// A message is an interrupt request if and only if the second frame behind its first
/// delimiter is a header with that message type. Without a delimiter, or with fewer frames
/// behind it, it is none.
pub proof fn law_which_messages_interrupt(parts: Seq<Seq<u8>>, index: int)
    ensures
        DELIMITER@ == seq![0x3cu8, 0x49, 0x44, 0x53, 0x7c, 0x4d, 0x53, 0x47, 0x3e],
        (forall|i: int| 0 <= i < parts.len() ==> #[trigger] parts[i] != DELIMITER@) ==> !interrupts(
            parts,
        ),
        0 <= index < parts.len() && parts[index] == DELIMITER@ && (forall|i: int|
            0 <= i < index ==> #[trigger] parts[i] != DELIMITER@) ==> (interrupts(parts) <==> {
            &&& index + 2 < parts.len()
            &&& json_document(parts[index + 2]) matches Some(Json::Object(members))
            &&& members.contains_key("msg_type"@)
            &&& members["msg_type"@] == Json::Text("interrupt_request"@)
        }),
{
    assert(DELIMITER@ =~= seq![0x3cu8, 0x49, 0x44, 0x53, 0x7c, 0x4d, 0x53, 0x47, 0x3e]);
    parts.index_of_first_ensures(DELIMITER@);
    if 0 <= index < parts.len() && parts[index] == DELIMITER@ && (forall|i: int|
        0 <= i < index ==> #[trigger] parts[i] != DELIMITER@) {
        assert(parts.contains(DELIMITER@));
        let first = parts.index_of_first(DELIMITER@)->0;
        assert(parts[first] == DELIMITER@);
        assert(first == index);
    }
}

/// The five sockets, in order: their kinds, their ports, and that interrupts are looked for
/// on the control socket alone.
pub proof fn law_bindings(info: ConnectionInfo)
    ensures
        bindings(info).len() == 5,
        bindings(info)[0].channel == Channel::Heartbeat,
        bindings(info)[1].channel == Channel::Control,
        bindings(info)[2].channel == Channel::Shell,
        bindings(info)[3].channel == Channel::Stdin,
        bindings(info)[4].channel == Channel::Iopub,
        bindings(info)[0].socket_type == SocketType::Rep,
        bindings(info)[1].socket_type == SocketType::Router,
        bindings(info)[2].socket_type == SocketType::Router,
        bindings(info)[3].socket_type == SocketType::Router,
        bindings(info)[4].socket_type == SocketType::Pub,
        bindings(info)[0].port == info.hb_port,
        bindings(info)[1].port == info.control_port,
        bindings(info)[2].port == info.shell_port,
        bindings(info)[3].port == info.stdin_port,
        bindings(info)[4].port == info.iopub_port,
        forall|i: int|
            0 <= i < 5 ==> (#[trigger] bindings(info)[i]).interrupts == (bindings(info)[i].channel
                == Channel::Control),
{
}

/// Sockets are bound with `tcp` and with no other transport; the error names the one that
/// was asked for.
pub proof fn law_only_tcp(transport: Seq<char>)
    ensures
        transport_error(transport) is None <==> transport == "tcp"@,
        transport != "tcp"@ ==> transport_error(transport) == Some(
            "unsupported transport '"@ + transport + "', only 'tcp' is supported"@,
        ),
{
}

/// What a successful bind gives is the socket that was asked for, with its listener and the
/// port that it has.
pub proof fn law_bound_by<L, E>(binding: Binding, listener: L, port: u16)
    ensures
        bound_by(binding, Ok::<(L, u16), E>((listener, port))).binding == binding,
        bound_by(binding, Ok::<(L, u16), E>((listener, port))).listener == listener,
        bound_by(binding, Ok::<(L, u16), E>((listener, port))).port == port,
{
}

/// The sockets in order are the five of the kernel, each in its place.
pub proof fn law_sockets_in_order<L>(sockets: BoundSockets<L>)
    ensures
        sockets.in_order().len() == 5,
        sockets.in_order()[0] == sockets.heartbeat,
        sockets.in_order()[1] == sockets.control,
        sockets.in_order()[2] == sockets.shell,
        sockets.in_order()[3] == sockets.stdin,
        sockets.in_order()[4] == sockets.iopub,
{
}

/// A message is delimited at an index if its frame there is `<IDS|MSG>` and no earlier one
/// is.
pub proof fn law_delimited_at(parts: Seq<Bytes>, index: int)
    ensures
        delimited_at(parts, index) <==> {
            &&& 0 <= index < parts.len()
            &&& octets(parts[index]) == DELIMITER@
            &&& forall|i: int| 0 <= i < index ==> octets(#[trigger] parts[i]) != DELIMITER@
        },
{
    assert(DELIMITER@ =~= seq![0x3cu8, 0x49, 0x44, 0x53, 0x7c, 0x4d, 0x53, 0x47, 0x3e]);
}

} // verus!
