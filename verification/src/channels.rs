//! What the script side of the kernel sees of the sockets and of the output of user code.

use crate::multipart::Multipart;
use crate::octets::{frames, octets};
use crate::server::{Channel, ChannelHandle, SocketHandles};
use crate::text::{lossy, lossy_text, same_text};
use bytes::Bytes;
use vstd::prelude::*;

verus! {

/// How an error is shown to a script.
#[derive(Debug, Clone, Copy, PartialEq, Eq, Structural)]
pub enum ErrorClass {
    Type,
    Generic,
}

/// An error that a script gets.
#[derive(Debug)]
pub struct OpError {
    pub class: ErrorClass,
    pub message: String,
}

/// Captured chunk of user-code output.
#[derive(Debug)]
pub struct StreamContent {
    pub name: &'static str,
    pub text: String,
}

impl Clone for StreamContent {
    fn clone(&self) -> (copy: Self)
        ensures
            copy == *self,
    {
        StreamContent { name: self.name, text: self.text.clone() }
    }
}

impl StreamContent {
    /// A chunk of standard output.
    pub fn stdout(s: &str) -> (chunk: Self)
        ensures
            chunk.name@ == "stdout"@,
            chunk.text@ == s@,
    {
        StreamContent { name: "stdout", text: s.to_owned() }
    }

    /// A chunk of standard error.
    pub fn stderr(s: &str) -> (chunk: Self)
        ensures
            chunk.name@ == "stderr"@,
            chunk.text@ == s@,
    {
        StreamContent { name: "stderr", text: s.to_owned() }
    }
}

/// The stream that a print goes to.
pub open spec fn stream_name(is_err: bool) -> Seq<char> {
    if is_err {
        "stderr"@
    } else {
        "stdout"@
    }
}

/// Whether a chunk of output is what a print makes.
pub open spec fn printed(chunk: StreamContent, msg: Seq<char>, is_err: bool) -> bool {
    chunk.name@ == stream_name(is_err) && chunk.text@ == msg
}

/// The chunk of output that a print makes.
pub fn op_print(msg: &str, is_err: bool) -> (chunk: StreamContent)
    ensures
        printed(chunk, msg@, is_err),
        chunk.text@ == msg@,
        is_err ==> chunk.name@ == "stderr"@,
        !is_err ==> chunk.name@ == "stdout"@,
{
    if is_err {
        StreamContent::stderr(msg)
    } else {
        StreamContent::stdout(msg)
    }
}

/// The chunk of output that the report of a test run makes.
pub fn test_report(buf: &[u8]) -> (chunk: StreamContent)
    ensures
        chunk.name@ == "stdout"@,
        chunk.text@ == lossy(buf@),
{
    let text = lossy_text(buf);
    StreamContent::stdout(text.as_str())
}

/// The stream and the text that a script gets.
pub open spec fn output(chunk: Option<(String, String)>) -> Option<(Seq<char>, Seq<char>)> {
    match chunk {
        Some((name, text)) => Some((name@, text@)),
        None => None,
    }
}

/// The stream and the text of a chunk of output, if there is one.
pub open spec fn content(item: Option<StreamContent>) -> Option<(Seq<char>, Seq<char>)> {
    match item {
        Some(item) => Some((item.name@, item.text@)),
        None => None,
    }
}

/// What is left in a queue of chunks after so many receives.
pub open spec fn left_after(queue: Seq<StreamContent>, receives: nat) -> Seq<StreamContent>
    decreases receives,
{
    if receives == 0 {
        queue
    } else {
        let left = left_after(queue, (receives - 1) as nat);
        if left.len() > 0 {
            left.skip(1)
        } else {
            left
        }
    }
}

/// The chunk that the next receive takes from a queue, if there is one.
pub open spec fn next_chunk(queue: Seq<StreamContent>) -> Option<StreamContent> {
    if queue.len() > 0 {
        Some(queue[0])
    } else {
        None
    }
}

/// The chunks that were not received yet are the last ones.
proof fn lemma_left_after(queue: Seq<StreamContent>, receives: nat)
    ensures
        left_after(queue, receives) == queue.skip(
            if receives <= queue.len() {
                receives as int
            } else {
                queue.len() as int
            },
        ),
    decreases receives,
{
    if receives == 0 {
        assert(queue.skip(0) =~= queue);
    } else {
        lemma_left_after(queue, (receives - 1) as nat);
        if receives <= queue.len() {
            assert(queue.skip(receives - 1).skip(1) =~= queue.skip(receives as int));
        }
    }
}

/// Output comes back in the order of the prints, on the same stream and with the same text;
/// nothing is merged or lost, and nothing comes after the last print.
pub proof fn law_output_in_print_order(
    prints: Seq<(Seq<char>, bool)>,
    queue: Seq<StreamContent>,
    received: Seq<Option<(String, String)>>,
)
    requires
        queue.len() == prints.len(),
        forall|i: int|
            0 <= i < prints.len() ==> printed(#[trigger] queue[i], prints[i].0, prints[i].1),
        forall|i: int|
            0 <= i < received.len() ==> output(#[trigger] received[i]) == content(
                next_chunk(left_after(queue, i as nat)),
            ),
    ensures
        forall|i: int|
            0 <= i < received.len() ==> output(#[trigger] received[i]) == if i < prints.len() {
                Some((stream_name(prints[i].1), prints[i].0))
            } else {
                None
            },
{
    assert forall|i: int| 0 <= i < received.len() implies output(#[trigger] received[i]) == if i
        < prints.len() {
        Some((stream_name(prints[i].1), prints[i].0))
    } else {
        None
    } by {
        lemma_left_after(queue, i as nat);
        if i < prints.len() {
            assert(queue.skip(i)[0] == queue[i]);
            assert(printed(queue[i], prints[i].0, prints[i].1));
        }
    }
}

/// The stream and the text of a chunk of output, if there is one.
pub fn op_jupyter_recv_stdio(item: Option<StreamContent>) -> (chunk: Option<(String, String)>)
    ensures
        output(chunk) == content(item),
        chunk is Some <==> item is Some,
        chunk matches Some((name, text)) ==> {
            &&& item matches Some(item)
            &&& name@ == item.name@
            &&& text@ == item.text@
        },
{
    match item {
        Some(item) => Some((item.name.to_owned(), item.text)),
        None => None,
    }
}

/// The send and receive handles of one socket.
pub struct ChannelState<R, S> {
    pub recv: R,
    pub send: S,
}

impl<R, S> ChannelState<R, S> {
    /// Takes over the handles of a socket.
    pub fn from_handle(h: ChannelHandle<R, S>) -> (state: Self)
        ensures
            state.recv == h.incoming_rx,
            state.send == h.outgoing_tx,
    {
        ChannelState { recv: h.incoming_rx, send: h.outgoing_tx }
    }
}

/// Per-channel send and receive handles.
pub struct JupyterSockets<R, S> {
    pub heartbeat: ChannelState<R, S>,
    pub control: ChannelState<R, S>,
    pub shell: ChannelState<R, S>,
    pub stdin: ChannelState<R, S>,
    pub iopub: ChannelState<R, S>,
}

/// The state that takes over the handles of a socket.
pub open spec fn state_of<R, S>(h: ChannelHandle<R, S>) -> ChannelState<R, S> {
    ChannelState { recv: h.incoming_rx, send: h.outgoing_tx }
}

impl<R, S> From<SocketHandles<R, S>> for JupyterSockets<R, S> {
    fn from(h: SocketHandles<R, S>) -> (sockets: Self) {
        JupyterSockets {
            heartbeat: ChannelState::from_handle(h.heartbeat),
            control: ChannelState::from_handle(h.control),
            shell: ChannelState::from_handle(h.shell),
            stdin: ChannelState::from_handle(h.stdin),
            iopub: ChannelState::from_handle(h.iopub),
        }
    }
}

impl<R, S> vstd::std_specs::convert::FromSpecImpl<SocketHandles<R, S>> for JupyterSockets<R, S> {
    open spec fn obeys_from_spec() -> bool {
        true
    }

    open spec fn from_spec(h: SocketHandles<R, S>) -> Self {
        JupyterSockets {
            heartbeat: state_of(h.heartbeat),
            control: state_of(h.control),
            shell: state_of(h.shell),
            stdin: state_of(h.stdin),
            iopub: state_of(h.iopub),
        }
    }
}

impl<R, S> JupyterSockets<R, S> {
    /// The handles of a socket.
    pub open spec fn channel(self, channel: Channel) -> ChannelState<R, S> {
        match channel {
            Channel::Heartbeat => self.heartbeat,
            Channel::Control => self.control,
            Channel::Shell => self.shell,
            Channel::Stdin => self.stdin,
            Channel::Iopub => self.iopub,
        }
    }
}

/// The name that a script knows a socket by.
pub open spec fn channel_name(channel: Channel) -> Seq<char> {
    match channel {
        Channel::Heartbeat => "heartbeat"@,
        Channel::Control => "control"@,
        Channel::Shell => "shell"@,
        Channel::Stdin => "stdin"@,
        Channel::Iopub => "iopub"@,
    }
}

/// The socket with this name, if a socket has it.
pub open spec fn channel_named(name: Seq<char>) -> Option<Channel> {
    if name == "heartbeat"@ {
        Some(Channel::Heartbeat)
    } else if name == "control"@ {
        Some(Channel::Control)
    } else if name == "shell"@ {
        Some(Channel::Shell)
    } else if name == "stdin"@ {
        Some(Channel::Stdin)
    } else if name == "iopub"@ {
        Some(Channel::Iopub)
    } else {
        None
    }
}

/// The name of a socket picks that socket, and no other name does.
pub proof fn law_channel_names(channel: Channel, name: Seq<char>)
    ensures
        channel_named(name) == Some(channel) <==> name == channel_name(channel),
{
    reveal_strlit("heartbeat");
    reveal_strlit("control");
    reveal_strlit("shell");
    reveal_strlit("stdin");
    reveal_strlit("iopub");
    assert("heartbeat"@.len() == 9 && "control"@.len() == 7);
    assert("shell"@.len() == 5 && "stdin"@.len() == 5 && "iopub"@.len() == 5);
    assert("shell"@[1] == 'h' && "stdin"@[1] == 't' && "iopub"@[1] == 'o');
}

/// The handles of the socket with this name, if a socket has it.
pub fn pick_channel<'a, R, S>(sockets: &'a JupyterSockets<R, S>, name: &str) -> (state: Option<
    &'a ChannelState<R, S>,
>)
    ensures
        match channel_named(name@) {
            Some(channel) => state == Some(&sockets.channel(channel)),
            None => state is None,
        },
        name@ == "heartbeat"@ ==> state == Some(&sockets.heartbeat),
        name@ == "control"@ ==> state == Some(&sockets.control),
        name@ == "shell"@ ==> state == Some(&sockets.shell),
        name@ == "stdin"@ ==> state == Some(&sockets.stdin),
        name@ == "iopub"@ ==> state == Some(&sockets.iopub),
        state is None <==> name@ != "heartbeat"@ && name@ != "control"@ && name@ != "shell"@
            && name@ != "stdin"@ && name@ != "iopub"@,
{
    proof {
        law_channel_names(Channel::Heartbeat, name@);
        law_channel_names(Channel::Control, name@);
        law_channel_names(Channel::Shell, name@);
        law_channel_names(Channel::Stdin, name@);
        law_channel_names(Channel::Iopub, name@);
    }
    if same_text(name, "heartbeat") {
        Some(&sockets.heartbeat)
    } else if same_text(name, "control") {
        Some(&sockets.control)
    } else if same_text(name, "shell") {
        Some(&sockets.shell)
    } else if same_text(name, "stdin") {
        Some(&sockets.stdin)
    } else if same_text(name, "iopub") {
        Some(&sockets.iopub)
    } else {
        None
    }
}

/// The handles of the socket that a script names, or the error that it gets.
pub fn open_channel<'a, R, S>(sockets: &'a JupyterSockets<R, S>, name: &str) -> (state: Result<
    &'a ChannelState<R, S>,
    OpError,
>)
    ensures
        match state {
            Ok(state) => {
                &&& channel_named(name@) matches Some(channel)
                &&& *state == sockets.channel(channel)
            },
            Err(error) => {
                &&& channel_named(name@) is None
                &&& error.class == ErrorClass::Type
                &&& error.message@ == "unknown channel "@ + name@
            },
        },
        name@ == "heartbeat"@ ==> state == Ok::<&ChannelState<R, S>, OpError>(&sockets.heartbeat),
        name@ == "control"@ ==> state == Ok::<&ChannelState<R, S>, OpError>(&sockets.control),
        name@ == "shell"@ ==> state == Ok::<&ChannelState<R, S>, OpError>(&sockets.shell),
        name@ == "stdin"@ ==> state == Ok::<&ChannelState<R, S>, OpError>(&sockets.stdin),
        name@ == "iopub"@ ==> state == Ok::<&ChannelState<R, S>, OpError>(&sockets.iopub),
        state is Err <==> name@ != "heartbeat"@ && name@ != "control"@ && name@ != "shell"@
            && name@ != "stdin"@ && name@ != "iopub"@,
{
    match pick_channel(sockets, name) {
        Some(state) => Ok(state),
        None => {
            let mut message = "unknown channel ".to_owned();
            message.append(name);
            Err(OpError { class: ErrorClass::Type, message })
        },
    }
}

/// The bytes of every buffer.
pub open spec fn buffers(parts: Seq<Vec<u8>>) -> Seq<Seq<u8>> {
    parts.map_values(|part: Vec<u8>| part@)
}

/// A received message as a script gets it; nothing once the socket is gone.
pub fn op_jupyter_recv(message: Option<Multipart>) -> (parts: Option<Vec<Vec<u8>>>)
    ensures
        match parts {
            Some(parts) => {
                &&& message matches Some(message)
                &&& buffers(parts@) == frames(message@)
            },
            None => message is None,
        },
        message is Some <==> parts is Some,
        parts matches Some(parts) ==> {
            &&& message matches Some(message)
            &&& parts@.len() == message@.len()
            &&& forall|i: int|
                0 <= i < parts@.len() ==> (#[trigger] parts@[i])@ == octets(message@[i])
        },
{
    let message = match message {
        Some(message) => message,
        None => return None,
    };
    let mut parts: Vec<Vec<u8>> = Vec::new();
    let mut i: usize = 0;
    assert(buffers(parts@) =~= frames(message@).take(0));
    while i < message.len()
        invariant
            i <= message@.len(),
            buffers(parts@) == frames(message@).take(i as int),
        decreases message@.len() - i,
    {
        let ghost before = parts@;
        parts.push(vstd::slice::slice_to_vec(&message[i]));
        assert(buffers(parts@) =~= buffers(before).push(octets(message@[i as int])));
        assert(frames(message@).take(i + 1) =~= frames(message@).take(i as int).push(
            octets(message@[i as int]),
        ));
        i += 1;
    }
    assert(frames(message@).take(i as int) =~= frames(message@));
    assert forall|j: int| 0 <= j < parts@.len() implies (#[trigger] parts@[j])@ == octets(
        message@[j],
    ) by {
        assert(buffers(parts@)[j] == frames(message@)[j]);
    }
    assert(buffers(parts@).len() == frames(message@).len());
    Some(parts)
}

/// What a script gets of a message that was put into the queue of a socket, or that could
/// not be because the queue is closed, for the reason that the queue gives.
pub fn queued(outcome: Result<(), String>) -> (sent: Result<(), OpError>)
    ensures
        match outcome {
            Ok(()) => sent is Ok,
            Err(reason) => {
                &&& sent matches Err(error)
                &&& error.class == ErrorClass::Generic
                &&& error.message@ == reason@
            },
        },
{
    match outcome {
        Ok(()) => Ok(()),
        Err(message) => Err(OpError { class: ErrorClass::Generic, message }),
    }
}

/// The message that the buffers of a script make.
pub fn op_jupyter_send(parts: Vec<Vec<u8>>) -> (message: Multipart)
    ensures
        frames(message@) == buffers(parts@),
        message@.len() == parts@.len(),
        forall|i: int| 0 <= i < parts@.len() ==> octets(#[trigger] message@[i]) == parts@[i]@,
{
    let mut message: Multipart = Vec::new();
    let mut i: usize = 0;
    assert(frames(message@) =~= buffers(parts@).take(0));
    while i < parts.len()
        invariant
            i <= parts@.len(),
            frames(message@) == buffers(parts@).take(i as int),
        decreases parts@.len() - i,
    {
        let ghost before = message@;
        message.push(Bytes::from(parts[i].clone()));
        assert(frames(message@) =~= frames(before).push(parts@[i as int]@));
        assert(buffers(parts@).take(i + 1) =~= buffers(parts@).take(i as int).push(
            parts@[i as int]@,
        ));
        i += 1;
    }
    assert(buffers(parts@).take(i as int) =~= buffers(parts@));
    assert(buffers(parts@).len() == frames(message@).len());
    assert forall|j: int| 0 <= j < parts@.len() implies octets(#[trigger] message@[j])
        == parts@[j]@ by {
        assert(buffers(parts@)[j] == frames(message@)[j]);
    }
    message
}

/// A chunk of output is what a print makes if it has the text of the print and names the
/// stream that the print went to, which is `stderr` for errors and `stdout` for the rest.
pub proof fn law_printed(chunk: StreamContent, msg: Seq<char>, is_err: bool)
    ensures
        printed(chunk, msg, is_err) <==> chunk.text@ == msg && chunk.name@ == (if is_err {
            "stderr"@
        } else {
            "stdout"@
        }),
        stream_name(true) == "stderr"@,
        stream_name(false) == "stdout"@,
{
}

/// Every receive takes the first chunk of what is left, and leaves the others in their
/// places.
pub proof fn law_receives_take_in_order(queue: Seq<StreamContent>, receives: nat, i: int)
    ensures
        left_after(queue, receives).len() == if receives <= queue.len() {
            queue.len() - receives
        } else {
            0
        },
        receives <= queue.len() && 0 <= i < queue.len() - receives ==> left_after(
            queue,
            receives,
        )[i] == queue[receives + i],
        receives < queue.len() ==> next_chunk(left_after(queue, receives)) == Some(
            queue[receives as int],
        ),
        receives >= queue.len() ==> next_chunk(left_after(queue, receives)) is None,
{
    lemma_left_after(queue, receives);
}

/// What a script gets of a chunk is its stream and its text.
pub proof fn law_content(item: StreamContent, name: String, text: String)
    ensures
        content(Some(item)) == Some((item.name@, item.text@)),
        content(None) is None,
        output(Some((name, text))) == Some((name@, text@)),
        output(None) is None,
{
}

/// The handles of the sockets are taken over, each under its own name.
pub proof fn law_sockets_take_over_handles<R, S>(h: SocketHandles<R, S>)
    ensures
        <JupyterSockets<R, S> as vstd::std_specs::convert::FromSpec<
            SocketHandles<R, S>,
        >>::obeys_from_spec(),
        ({
            let sockets = <JupyterSockets<R, S> as vstd::std_specs::convert::FromSpec<
                SocketHandles<R, S>,
            >>::from_spec(h);
            &&& sockets.heartbeat.recv == h.heartbeat.incoming_rx
            &&& sockets.heartbeat.send == h.heartbeat.outgoing_tx
            &&& sockets.control.recv == h.control.incoming_rx
            &&& sockets.control.send == h.control.outgoing_tx
            &&& sockets.shell.recv == h.shell.incoming_rx
            &&& sockets.shell.send == h.shell.outgoing_tx
            &&& sockets.stdin.recv == h.stdin.incoming_rx
            &&& sockets.stdin.send == h.stdin.outgoing_tx
            &&& sockets.iopub.recv == h.iopub.incoming_rx
            &&& sockets.iopub.send == h.iopub.outgoing_tx
        }),
{
}

/// Each socket has the handles of its own name.
pub proof fn law_channels_by_name<R, S>(sockets: JupyterSockets<R, S>)
    ensures
        sockets.channel(Channel::Heartbeat) == sockets.heartbeat,
        sockets.channel(Channel::Control) == sockets.control,
        sockets.channel(Channel::Shell) == sockets.shell,
        sockets.channel(Channel::Stdin) == sockets.stdin,
        sockets.channel(Channel::Iopub) == sockets.iopub,
        channel_named("heartbeat"@) == Some(Channel::Heartbeat),
        channel_named("control"@) == Some(Channel::Control),
        channel_named("shell"@) == Some(Channel::Shell),
        channel_named("stdin"@) == Some(Channel::Stdin),
        channel_named("iopub"@) == Some(Channel::Iopub),
{
    law_channel_names(Channel::Heartbeat, "heartbeat"@);
    law_channel_names(Channel::Control, "control"@);
    law_channel_names(Channel::Shell, "shell"@);
    law_channel_names(Channel::Stdin, "stdin"@);
    law_channel_names(Channel::Iopub, "iopub"@);
}

/// A message has as many buffers as frames, and each holds its bytes.
pub proof fn law_buffers_by_index(parts: Seq<Vec<u8>>, i: int)
    requires
        0 <= i < parts.len(),
    ensures
        buffers(parts).len() == parts.len(),
        buffers(parts)[i] == parts[i]@,
{
}

} // verus!
