use bytes::Bytes;
use jupyter_transport::channels::{
    op_jupyter_recv, op_jupyter_recv_stdio, op_jupyter_send, op_print, open_channel, pick_channel,
    queued, test_report, ChannelState, ErrorClass, JupyterSockets, StreamContent,
};
use jupyter_transport::kernel::{
    bootstrap_script, bound_sockets, cwd_error, kernel, main_module, ConnectionInfoForJs,
    JupyterFlags, KernelAction,
};
use jupyter_transport::multipart::write_multipart;
use jupyter_transport::publish::PubPeers;
use jupyter_transport::rep::{strip_envelope, write_reply, PendingReplies};
use jupyter_transport::router::RouterPeers;
use jupyter_transport::server::{
    bind_all, check_transport, is_interrupt_header, is_interrupt_request, on_control_message,
    start, Bound, BoundPorts, BoundSockets, Channel, ChannelHandle, ConnectionInfo, SocketHandles,
    DELIMITER,
};
use jupyter_transport::zmtp::SocketType;
use serde_json::Value;

fn message_of_type(msg_type: &str) -> Vec<u8> {
    let mut header = serde_json::Map::new();
    header.insert("msg_type".to_string(), Value::from(msg_type));
    serde_json::to_vec(&Value::Object(header)).unwrap()
}

fn parts(list: &[&'static [u8]]) -> Vec<Bytes> {
    list.iter().map(|part| Bytes::from_static(part)).collect()
}

#[test]
fn detects_interrupt_request() {
    let parts = vec![
        Bytes::from_static(b"id"),
        Bytes::from_static(&DELIMITER),
        Bytes::from_static(b"sig"),
        Bytes::from(message_of_type("interrupt_request")),
        Bytes::from_static(b"{}"),
        Bytes::from_static(b"{}"),
        Bytes::from_static(b"{}"),
    ];
    assert!(is_interrupt_request(&parts));
}

#[test]
fn ignores_non_interrupt() {
    let parts = vec![
        Bytes::from_static(b"id"),
        Bytes::from_static(&DELIMITER),
        Bytes::from_static(b"sig"),
        Bytes::from(message_of_type("execute_request")),
        Bytes::from_static(b"{}"),
        Bytes::from_static(b"{}"),
        Bytes::from_static(b"{}"),
    ];
    assert!(!is_interrupt_request(&parts));
}

#[test]
fn delimiter_text() {
    assert_eq!(&DELIMITER, b"<IDS|MSG>");
}

#[test]
fn header_stands_after_the_first_delimiter() {
    let header: &'static [u8] = b"{\"msg_type\":\"interrupt_request\"}";
    assert!(is_interrupt_request(&parts(&[b"<IDS|MSG>", b"", header])));
    assert!(is_interrupt_request(&parts(&[b"a", b"b", b"<IDS|MSG>", b"", header])));
    assert!(!is_interrupt_request(&parts(&[b"<IDS|MSG>", b"<IDS|MSG>", b"", header])));
    assert!(!is_interrupt_request(&parts(&[b"a", b"", header])));
    assert!(!is_interrupt_request(&parts(&[b"<IDS|MSG>", header])));
    assert!(!is_interrupt_request(&parts(&[b"<IDS|MSG>"])));
    assert!(!is_interrupt_request(&[]));
}

#[test]
fn header_that_announces_nothing() {
    for header in [
        &b"not json"[..],
        b"[]",
        b"{}",
        b"\"interrupt_request\"",
        b"{\"msg_type\":1}",
        b"{\"msg_type\":null}",
        b"{\"msg_type\":\"interrupt_requests\"}",
        b"{\"other\":\"interrupt_request\"}",
    ] {
        assert!(!is_interrupt_request(&parts(&[b"<IDS|MSG>", b"", header])));
    }
    assert!(!is_interrupt_header(&Value::Null));
    assert!(!is_interrupt_header(&Value::from("interrupt_request")));
}

#[test]
fn control_messages_are_forwarded() {
    let interrupt = parts(&[b"<IDS|MSG>", b"", b"{\"msg_type\":\"interrupt_request\"}"]);
    assert_eq!(on_control_message(interrupt.clone()), (true, interrupt));
    let other = parts(&[b"<IDS|MSG>", b"", b"{\"msg_type\":\"shutdown_request\"}"]);
    assert_eq!(on_control_message(other.clone()), (false, other));
}

fn connection_info() -> ConnectionInfo {
    ConnectionInfo {
        ip: "127.0.0.1".to_string(),
        transport: "tcp".to_string(),
        hb_port: 1,
        control_port: 2,
        shell_port: 3,
        stdin_port: 4,
        iopub_port: 5,
        signature_scheme: "hmac-sha256".to_string(),
        key: "secret".to_string(),
        kernel_name: "deno".to_string(),
    }
}

#[test]
fn sockets_to_bind() {
    let plan = start(&connection_info()).unwrap();
    let listed: Vec<_> =
        plan.iter().map(|b| (b.channel, b.socket_type, b.interrupts, b.port)).collect();
    assert_eq!(
        listed,
        vec![
            (Channel::Heartbeat, SocketType::Rep, false, 1),
            (Channel::Control, SocketType::Router, true, 2),
            (Channel::Shell, SocketType::Router, false, 3),
            (Channel::Stdin, SocketType::Router, false, 4),
            (Channel::Iopub, SocketType::Pub, false, 5),
        ]
    );
}

#[test]
fn other_transports_are_refused() {
    let info = ConnectionInfo { transport: "ipc".to_string(), ..connection_info() };
    let error = "unsupported transport 'ipc', only 'tcp' is supported".to_string();
    assert_eq!(start(&info).err(), Some(error.clone()));
    assert_eq!(check_transport("ipc"), Err(error));
    assert_eq!(check_transport("tcp"), Ok(()));
    assert!(check_transport("TCP").is_err());
}

#[test]
fn all_sockets_are_bound() {
    let outcomes: Vec<Result<(char, u16), String>> =
        vec![Ok(('h', 101)), Ok(('c', 2)), Ok(('s', 3)), Ok(('i', 104)), Ok(('o', 5))];
    let bound = bind_all(&connection_info(), outcomes).ok().unwrap();
    for (socket, channel, socket_type, requested, listener, port) in [
        (&bound.heartbeat, Channel::Heartbeat, SocketType::Rep, 1, 'h', 101),
        (&bound.control, Channel::Control, SocketType::Router, 2, 'c', 2),
        (&bound.shell, Channel::Shell, SocketType::Router, 3, 's', 3),
        (&bound.stdin, Channel::Stdin, SocketType::Router, 4, 'i', 104),
        (&bound.iopub, Channel::Iopub, SocketType::Pub, 5, 'o', 5),
    ] {
        assert_eq!((socket.binding.channel, socket.binding.socket_type), (channel, socket_type));
        assert_eq!(socket.binding.interrupts, channel == Channel::Control);
        assert_eq!(socket.binding.port, requested);
        assert_eq!((socket.listener, socket.port), (listener, port));
    }
    assert_eq!(
        bound.ports(),
        BoundPorts { heartbeat: 101, control: 2, shell: 3, stdin: 104, iopub: 5 }
    );
}

#[test]
fn first_failing_bind_is_the_result() {
    let none = || Err::<(char, u16), String>("in use".to_string());
    let other = || Err::<(char, u16), String>("denied".to_string());
    let info = connection_info();
    assert_eq!(bind_all(&info, vec![none()]).err().as_deref(), Some("in use"));
    let outcomes = vec![Ok(('h', 1)), Ok(('c', 2)), other()];
    assert_eq!(bind_all(&info, outcomes).err().as_deref(), Some("denied"));
    let outcomes = vec![Ok(('h', 1)), none(), Ok(('s', 3)), other(), Ok(('o', 5))];
    assert_eq!(bind_all(&info, outcomes).err().as_deref(), Some("in use"));
}

#[test]
fn served_sockets_keep_their_ports() {
    let outcomes: Vec<Result<(u8, u16), String>> =
        (1..=5).map(|i| Ok((i, 100 + i as u16))).collect();
    let bound = bind_all(&connection_info(), outcomes).ok().unwrap();
    let serve = |bound: Bound<u8>| Bound {
        binding: bound.binding,
        listener: ChannelHandle { incoming_rx: bound.listener, outgoing_tx: 'x' },
        port: bound.port,
    };
    let handles = BoundSockets {
        heartbeat: serve(bound.heartbeat),
        control: serve(bound.control),
        shell: serve(bound.shell),
        stdin: serve(bound.stdin),
        iopub: serve(bound.iopub),
    }
    .into_handles();
    assert_eq!(handles.shell.incoming_rx, 3);
    assert_eq!(handles.iopub.incoming_rx, 5);
    assert_eq!(
        handles.ports,
        BoundPorts { heartbeat: 101, control: 102, shell: 103, stdin: 104, iopub: 105 }
    );
}

#[test]
fn closed_queue_is_a_generic_error() {
    assert!(queued(Ok(())).is_ok());
    let error = queued(Err("channel closed".to_string())).err().unwrap();
    assert_eq!(error.class, ErrorClass::Generic);
    assert_eq!(error.message, "channel closed");
}

fn sockets() -> JupyterSockets<u8, char> {
    JupyterSockets::from(SocketHandles {
        heartbeat: ChannelHandle { incoming_rx: 1, outgoing_tx: 'h' },
        control: ChannelHandle { incoming_rx: 2, outgoing_tx: 'c' },
        shell: ChannelHandle { incoming_rx: 3, outgoing_tx: 's' },
        stdin: ChannelHandle { incoming_rx: 4, outgoing_tx: 'i' },
        iopub: ChannelHandle { incoming_rx: 5, outgoing_tx: 'o' },
        ports: BoundPorts { heartbeat: 11, control: 12, shell: 13, stdin: 14, iopub: 15 },
    })
}

#[test]
fn channels_by_name() {
    let sockets = sockets();
    for (name, recv, send) in [
        ("heartbeat", 1, 'h'),
        ("control", 2, 'c'),
        ("shell", 3, 's'),
        ("stdin", 4, 'i'),
        ("iopub", 5, 'o'),
    ] {
        let state = pick_channel(&sockets, name).unwrap();
        assert_eq!((state.recv, state.send), (recv, send));
        let state = open_channel(&sockets, name).ok().unwrap();
        assert_eq!((state.recv, state.send), (recv, send));
    }
}

#[test]
fn unknown_channel() {
    let sockets = sockets();
    assert!(pick_channel(&sockets, "shells").is_none());
    let error = open_channel(&sockets, "sell").err().unwrap();
    assert_eq!(error.class, ErrorClass::Type);
    assert_eq!(error.message, "unknown channel sell");
}

#[test]
fn channel_state_takes_over_the_handle() {
    let state = ChannelState::from_handle(ChannelHandle { incoming_rx: 7, outgoing_tx: 8 });
    assert_eq!((state.recv, state.send), (7, 8));
}

#[test]
fn buffers_pass_unchanged() {
    let buffers = vec![b"ab".to_vec(), Vec::new(), vec![0xff]];
    let message = op_jupyter_send(buffers.clone());
    assert_eq!(message, vec![&b"ab"[..], b"", b"\xff"]);
    assert_eq!(op_jupyter_recv(Some(message)), Some(buffers));
    assert_eq!(op_jupyter_recv(Some(Vec::new())), Some(Vec::new()));
    assert_eq!(op_jupyter_recv(None), None);
}

#[test]
fn output_chunks() {
    let out = op_print("a", false);
    assert_eq!((out.name, out.text.as_str()), ("stdout", "a"));
    let err = op_print("b", true);
    assert_eq!((err.name, err.text.as_str()), ("stderr", "b"));
    assert_eq!(StreamContent::stdout("c").name, "stdout");
    assert_eq!(StreamContent::stderr("c").name, "stderr");
    assert_eq!(
        op_jupyter_recv_stdio(Some(err.clone())),
        Some(("stderr".to_string(), "b".to_string()))
    );
    assert_eq!(op_jupyter_recv_stdio(None), None);
}

#[test]
fn output_comes_back_in_print_order() {
    let prints = [("a", false), ("b", true), ("b", true), ("", false), ("c\n", false)];
    let mut queue: std::collections::VecDeque<StreamContent> =
        prints.iter().map(|(msg, is_err)| op_print(msg, *is_err)).collect();
    for (msg, is_err) in prints {
        let stream = if is_err { "stderr" } else { "stdout" };
        assert_eq!(
            op_jupyter_recv_stdio(queue.pop_front()),
            Some((stream.to_string(), msg.to_string()))
        );
    }
    assert_eq!(op_jupyter_recv_stdio(queue.pop_front()), None);
}

#[test]
fn test_reports_are_repaired() {
    let chunk = test_report("ok \u{2713}".as_bytes());
    assert_eq!((chunk.name, chunk.text.as_str()), ("stdout", "ok \u{2713}"));
    assert_eq!(test_report(b"a\xffb").text, "a\u{fffd}b");
}

#[test]
fn heartbeat_is_echoed() {
    let mut pending = PendingReplies::new();
    let request = parts(&[b"", b"ping"]);
    let body = pending.on_request(1, &request);
    assert_eq!(body, parts(&[b"ping"]));
    assert_eq!(pending.on_reply(), Some(1));
    assert_eq!(write_reply(body), write_multipart(&request));
}

#[test]
fn envelope_frames_are_stripped() {
    assert_eq!(strip_envelope(&parts(&[b"", b"", b"a", b"", b"b"])), parts(&[b"a", b"", b"b"]));
    assert_eq!(strip_envelope(&parts(&[b"a", b""])), parts(&[b"a", b""]));
    assert_eq!(strip_envelope(&parts(&[b"", b""])), parts(&[]));
    assert_eq!(strip_envelope(&parts(&[])), parts(&[]));
}

#[test]
fn replies_go_out_in_order() {
    let mut pending = PendingReplies::new();
    assert_eq!(pending.on_reply(), None);
    pending.on_request("first", &parts(&[b"1"]));
    pending.on_request("second", &parts(&[b"2"]));
    assert_eq!(pending.on_reply(), Some("first"));
    pending.on_request("third", &parts(&[b"3"]));
    assert_eq!(pending.on_reply(), Some("second"));
    assert_eq!(pending.on_reply(), Some("third"));
    assert_eq!(pending.on_reply(), None);
}

#[test]
fn empty_reply_is_the_envelope() {
    assert_eq!(write_reply(Vec::new()), vec![0, 0]);
}

#[test]
fn router_delivers_and_routes() {
    let mut peers = RouterPeers::new();
    assert!(peers.has_room());
    let named = peers.enter(Some(b"abc".to_vec()), b"unused".to_vec(), 1);
    let nameless = peers.enter(None, vec![0, 9, 9, 9, 9], 2);
    assert_eq!(named.identity(), b"abc");
    assert_eq!(nameless.identity(), &[0, 9, 9, 9, 9]);

    let message = named.on_message(parts(&[b"x", b"y"]));
    assert_eq!(message, parts(&[b"abc", b"x", b"y"]));
    assert_eq!(peers.route(&message), Some((&1, parts(&[b"x", b"y"]))));
    let message = nameless.on_message(Vec::new());
    assert_eq!(peers.route(&message), Some((&2, Vec::new())));
    assert_eq!(peers.route(&parts(&[b"unknown", b"x"])), None);
    assert_eq!(peers.route(&Vec::new()), None);
}

#[test]
fn first_of_two_equal_identities_is_reached() {
    let mut peers = RouterPeers::new();
    peers.enter(Some(b"a".to_vec()), Vec::new(), 1);
    let second = peers.enter(Some(b"a".to_vec()), Vec::new(), 2);
    peers.enter(Some(b"b".to_vec()), Vec::new(), 3);
    assert_eq!(peers.find(b"a"), Some(&1));
    // Only the connection that ended is removed.
    peers.leave(&second);
    assert_eq!(peers.find(b"a"), Some(&1));
    assert_eq!(peers.find(b"b"), Some(&3));
}

#[test]
fn reconnected_peer_stays_when_its_old_connection_ends() {
    let mut peers = RouterPeers::new();
    let old = peers.enter(Some(b"a".to_vec()), Vec::new(), 1);
    let new = peers.enter(Some(b"a".to_vec()), Vec::new(), 2);
    peers.leave(&old);
    assert_eq!(peers.find(b"a"), Some(&2));
    // The number is not given out again.
    peers.enter(Some(b"c".to_vec()), Vec::new(), 3);
    peers.leave(&old);
    assert_eq!(peers.find(b"c"), Some(&3));
    peers.leave(&new);
    assert_eq!(peers.find(b"a"), None);
    assert_eq!(peers.find(b"c"), Some(&3));
}

#[test]
fn leaving_subscriber_takes_nobody_along() {
    let mut peers = PubPeers::new();
    assert!(peers.has_room());
    let first = peers.enter('a');
    let second = peers.enter('b');
    let third = peers.enter('c');
    peers.leave(first);
    peers.leave(second);
    assert_eq!(peers.len(), 1);
    assert_eq!(*peers.handle(0), 'c');
    // The number is not given out again.
    let fourth = peers.enter('d');
    peers.leave(third);
    assert_eq!(peers.len(), 1);
    assert_eq!(*peers.handle(0), 'd');
    peers.leave(fourth);
    peers.leave(fourth);
    assert_eq!(peers.len(), 0);
}

#[test]
fn broadcast_removes_the_unreachable() {
    let mut peers = PubPeers::new();
    for handle in ['a', 'b', 'c', 'd'] {
        peers.enter(handle);
    }
    peers.on_broadcast(&[true, true, true, true]);
    assert_eq!(peers.len(), 4);
    peers.on_broadcast(&[false, true, false, true]);
    assert_eq!(peers.len(), 2);
    assert_eq!((*peers.handle(0), *peers.handle(1)), ('b', 'd'));
}

#[test]
fn every_subscriber_gets_the_whole_message() {
    let mut peers = PubPeers::new();
    assert!(peers.deliveries(&parts(&[b"x"])).is_empty());
    peers.enter('a');
    let second = peers.enter('b');
    peers.enter('c');
    let message = parts(&[b"topic", b"", b"body"]);
    let copy = || message.clone();
    assert_eq!(
        peers.deliveries(&message),
        vec![(&'a', copy()), (&'b', copy()), (&'c', copy())]
    );
    peers.leave(second);
    assert_eq!(peers.deliveries(&message), vec![(&'a', copy()), (&'c', copy())]);
    assert_eq!(peers.deliveries(&Vec::new()), vec![(&'a', Vec::new()), (&'c', Vec::new())]);
}

#[test]
fn broadcasts_fill_the_queues_in_order() {
    let mut peers = PubPeers::new();
    let mut queues: Vec<Vec<Vec<Bytes>>> = vec![Vec::new(); 3];
    let messages = [parts(&[b"1"]), parts(&[b"2", b""]), parts(&[b"3"])];
    peers.enter(0usize);
    peers.enter(1usize);
    for (round, message) in messages.iter().enumerate() {
        if round == 1 {
            peers.enter(2usize);
        }
        // The queue of the second subscriber closes after the first message.
        let mut delivered = Vec::new();
        for (queue, copy) in peers.deliveries(message) {
            let open = *queue != 1 || round == 0;
            if open {
                queues[*queue].push(copy);
            }
            delivered.push(open);
        }
        peers.on_broadcast(&delivered);
    }
    assert_eq!(queues[0], messages.to_vec());
    assert_eq!(queues[1], messages[..1].to_vec());
    assert_eq!(queues[2], messages[1..].to_vec());
    assert_eq!(peers.len(), 2);
}

fn flags(install: bool, kernel: bool) -> JupyterFlags {
    JupyterFlags {
        install,
        kernel,
        conn_file: Some("conn.json".to_string()),
        name: Some("deno".to_string()),
        display: Some("Deno".to_string()),
        force: true,
    }
}

#[test]
fn kernel_command() {
    assert!(matches!(
        kernel(flags(false, false)),
        KernelAction::Status { name } if name.as_deref() == Some("deno")
    ));
    for run in [false, true] {
        assert!(matches!(
            kernel(flags(true, run)),
            KernelAction::Install { name, display, force: true }
                if name.as_deref() == Some("deno") && display.as_deref() == Some("Deno")
        ));
    }
    assert!(matches!(
        kernel(flags(false, true)),
        KernelAction::Run { conn_file } if conn_file == "conn.json"
    ));
}

#[test]
fn connection_info_for_scripts() {
    let info = connection_info();
    let copy = ConnectionInfoForJs::from(&info.clone());
    assert_eq!((copy.ip, copy.transport), (info.ip, info.transport));
    assert_eq!(
        (copy.hb_port, copy.control_port, copy.shell_port, copy.stdin_port, copy.iopub_port),
        (1, 2, 3, 4, 5)
    );
    assert_eq!(
        (copy.signature_scheme, copy.key, copy.kernel_name),
        (info.signature_scheme, info.key, info.kernel_name)
    );
}

#[test]
fn waiting_for_sockets() {
    assert_eq!(bound_sockets(Some(Ok(1))), Ok(1));
    assert_eq!(bound_sockets::<u8>(Some(Err("in use".to_string()))), Err("in use".to_string()));
    assert_eq!(
        bound_sockets::<u8>(None),
        Err("socket thread aborted before binding".to_string())
    );
}

#[test]
fn modules_and_directories() {
    assert_eq!(main_module(), "./$deno$jupyter.mts");
    assert_eq!(cwd_error("rel"), "Unable to construct URL from cwd: rel");
}

#[test]
fn bootstrap() {
    assert_eq!(
        bootstrap_script("{}"),
        "Deno[Deno.internal].enableJupyter(); Deno[Deno.internal].startJupyterKernel({});"
    );
}
