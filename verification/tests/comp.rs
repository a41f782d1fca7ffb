use std::collections::HashMap;

use cosmic_session::comp::{
    create_privileged_socket, new_privileged_client, on_compositor_exit, run_compositor, send_fd,
    serve_socket, Handled, IpcState, Message, Outgoing, SocketEvent, SocketStep,
};
use cosmic_session::service::SessionRequest;

fn variables() -> HashMap<String, String> {
    let mut map = HashMap::new();
    map.insert("WAYLAND_DISPLAY".to_string(), "wayland-1".to_string());
    map
}

fn written(acts: &[Outgoing<u8>]) -> Vec<u8> {
    let mut bytes = Vec::new();
    for act in acts {
        if let Outgoing::Write(b) = act {
            bytes.extend_from_slice(b);
        }
    }
    bytes
}

/// The messages in a stream whose reads bring `sizes` bytes in turn, as far as so many are wanted.
fn messages(low_first: bool, stream: &[u8], sizes: &[usize]) -> Vec<Vec<u8>> {
    let mut state = IpcState::new((), low_first);
    let mut bodies = Vec::new();
    let mut rest = stream;
    let mut turn = 0;
    loop {
        let wanted = state.bytes_wanted();
        if rest.is_empty() && wanted > 0 {
            return bodies;
        }
        let n = wanted.min(rest.len()).min(sizes[turn % sizes.len()]);
        turn += 1;
        bodies.extend(state.receive_ipc(&rest[..n]));
        rest = &rest[n..];
    }
}

#[test]
fn length_and_body_are_read_in_turn() {
    let mut state = IpcState::new(7u8, true);
    assert_eq!(state.bytes_wanted(), 2);
    assert_eq!(state.receive_ipc(&[5, 0]), None);
    assert_eq!(state.bytes_wanted(), 5);
    assert_eq!(state.receive_ipc(b"hello"), Some(b"hello".to_vec()));
    assert_eq!(state.bytes_wanted(), 2);
    assert_eq!(state.receive_ipc(&[44, 1]), None);
    assert_eq!(state.bytes_wanted(), 300);
}

#[test]
fn length_has_the_order_of_the_machine() {
    for number in [1u16, 255, 256, 300, 65535] {
        let mut state = IpcState::new((), u16::from_ne_bytes([1, 0]) == 1);
        assert_eq!(state.receive_ipc(&number.to_ne_bytes()), None);
        assert_eq!(state.bytes_wanted(), number as usize);
        let mut low = IpcState::new((), true);
        assert_eq!(low.receive_ipc(&number.to_le_bytes()), None);
        assert_eq!(low.bytes_wanted(), number as usize);
        let mut high = IpcState::new((), false);
        assert_eq!(high.receive_ipc(&number.to_be_bytes()), None);
        assert_eq!(high.bytes_wanted(), number as usize);
    }
}

#[test]
fn length_that_is_cut_is_resumed() {
    let mut state = IpcState::new((), true);
    assert_eq!(state.receive_ipc(&[43]), None);
    assert_eq!(state.bytes_wanted(), 1);
    assert_eq!(state.receive_ipc(&[]), None);
    assert_eq!(state.bytes_wanted(), 1);
    assert_eq!(state.receive_ipc(&[1]), None);
    assert_eq!(state.bytes_wanted(), 43 + 256);
}

#[test]
fn body_that_is_cut_is_resumed() {
    let mut state = IpcState::new((), true);
    assert_eq!(state.receive_ipc(&[4, 0]), None);
    assert_eq!(state.receive_ipc(b"ab"), None);
    assert_eq!(state.bytes_wanted(), 2);
    assert_eq!(state.receive_ipc(b"c"), None);
    assert_eq!(state.receive_ipc(b"d"), Some(b"abcd".to_vec()));
    assert_eq!(state.bytes_wanted(), 2);
}

#[test]
fn messages_survive_every_cut() {
    for low_first in [true, false] {
        let bodies = vec![b"first".to_vec(), Vec::new(), vec![7; 300], b"x".to_vec()];
        let mut stream = Vec::new();
        for body in &bodies {
            let length = body.len() as u16;
            stream.extend(if low_first { length.to_le_bytes() } else { length.to_be_bytes() });
            stream.extend(body);
        }
        for sizes in [vec![1], vec![2], vec![3, 1], vec![1000], vec![1, 7, 2]] {
            assert_eq!(messages(low_first, &stream, &sizes), bodies);
        }
    }
}

#[test]
fn empty_message_has_empty_body() {
    let mut state = IpcState::new((), true);
    assert_eq!(state.receive_ipc(&[0, 0]), None);
    assert_eq!(state.bytes_wanted(), 0);
    assert_eq!(state.receive_ipc(&[]), Some(Vec::new()));
    assert_eq!(state.bytes_wanted(), 2);
}

#[test]
fn longest_body_is_read() {
    let mut state = IpcState::new((), false);
    assert_eq!(state.receive_ipc(&[255, 255]), None);
    assert_eq!(state.bytes_wanted(), 65535);
    assert_eq!(state.receive_ipc(&[1; 65535]).map(|b| b.len()), Some(65535));
}

#[test]
fn written_frame_is_read_back() {
    let json = "{\"message\":\"new_privileged_client\",\"count\":2}";
    let bytes = written(&send_fd(json, vec![1u8, 2]));
    assert_eq!(messages(true, &bytes, &[1]), vec![json.as_bytes().to_vec()]);
}

#[test]
fn environment_goes_to_the_receiver_once() {
    let mut state = IpcState::new("receiver", true);
    match state.parse_and_handle_ipc(None) {
        Handled::Unknown => {}
        _ => panic!("a message that cannot be read is unknown"),
    }
    match state.parse_and_handle_ipc(Some(Message::SetEnv { variables: variables() })) {
        Handled::DeliverEnv(tx, map) => {
            assert_eq!(tx, "receiver");
            assert_eq!(map, variables());
        }
        _ => panic!("the first environment is delivered"),
    }
    match state.parse_and_handle_ipc(Some(Message::SetEnv { variables: variables() })) {
        Handled::Ignored => {}
        _ => panic!("a later environment is ignored"),
    }
}

#[test]
fn sockets_are_announced_and_sent() {
    let streams = vec![10u8, 11, 12];
    match new_privileged_client(&streams) {
        Message::NewPrivilegedClient { count } => assert_eq!(count, 3),
        _ => panic!("the message announces clients"),
    }
    let acts = send_fd("{}", streams);
    assert_eq!(acts.len(), 4);
    assert!(matches!(&acts[0], Outgoing::Write(b) if b == &vec![2u8, 0]));
    assert!(matches!(&acts[1], Outgoing::Write(b) if b == b"{}"));
    assert!(matches!(&acts[2], Outgoing::Pause { micros: 100 }));
    assert!(matches!(
        &acts[3],
        Outgoing::SendFds { bytes, streams } if bytes == &vec![0u8] && streams == &vec![10u8, 11, 12]
    ));
}

#[test]
fn length_is_cut_to_sixteen_bits() {
    let json = "x".repeat(65536 + 300);
    let bytes = written(&send_fd(&json, Vec::new()));
    assert_eq!(bytes[0..2], [44, 1]);
    assert_eq!(bytes.len(), 2 + json.len());
}

#[test]
fn privileged_socket_is_named_last() {
    let mut sockets = vec!["old"];
    let env = [("A".to_string(), "b".to_string())];
    let named = create_privileged_socket(&mut sockets, "new", 42, &env);
    assert_eq!(sockets, vec!["old", "new"]);
    assert_eq!(
        named,
        vec![
            ("A".to_string(), "b".to_string()),
            ("WAYLAND_SOCKET".to_string(), "42".to_string())
        ]
    );
}

#[test]
fn compositor_gets_its_socket() {
    let launch = run_compositor("cosmic-comp".to_string(), vec!["-v".to_string()], 9);
    assert_eq!(launch.executable, "cosmic-comp");
    assert_eq!(launch.args, vec!["-v".to_string()]);
    assert_eq!(
        launch.env_vars,
        vec![("COSMIC_SESSION_SOCK".to_string(), "9".to_string())]
    );
}

#[test]
fn compositor_exit_asks_for_exit_or_restart() {
    assert_eq!(on_compositor_exit(Some(0)), SessionRequest::Exit);
    assert_eq!(on_compositor_exit(Some(1)), SessionRequest::Restart);
    assert_eq!(on_compositor_exit(Some(-1)), SessionRequest::Restart);
    assert_eq!(on_compositor_exit(None), SessionRequest::Restart);
}

#[test]
fn socket_loop_ends_on_failure() {
    assert!(matches!(serve_socket::<u8>(SocketEvent::Read(true)), SocketStep::Wait));
    assert!(matches!(serve_socket::<u8>(SocketEvent::Read(false)), SocketStep::Stop));
    assert!(matches!(serve_socket::<u8>(SocketEvent::Sent(true)), SocketStep::Wait));
    assert!(matches!(serve_socket::<u8>(SocketEvent::Sent(false)), SocketStep::Fail));
    assert!(matches!(
        serve_socket(SocketEvent::Streams(vec![1u8, 2])),
        SocketStep::Send(s) if s == vec![1u8, 2]
    ));
}
