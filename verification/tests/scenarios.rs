//! The transfer pipeline end to end, with the transport simulated: what
//! one side's builders put on the wire is handed to the other side's
//! handlers as one connection's bytes.

use rv_raven::daemon::{control_reply, control_request, receive, Arrival, ControlStep};
use rv_raven::front::{read_reply, send_request};
use rv_raven::mailbox::MailBox;
use rv_raven::raven::{decode_sys_raven, SysRaven};
use rv_raven::send::{send, send_file};
use rv_raven::timestamp::Timestamp;

fn arrival_time() -> Timestamp {
    Timestamp { year: 2024, month: 5, day: 1, hour: 12, minute: 30, second: 0 }
}

#[test]
fn text_reaches_the_mailbox() {
    // Sender side: "hello" for the receiver at 127.0.0.1:23456.
    let wire = send("127.0.0.1", "hello".to_string()).unwrap();
    // Receiver side: one connection's bytes, the sender's address observed.
    let mut mb = MailBox::new();
    let existing: Vec<String> = vec![];
    let arrival = receive(
        &mut mb,
        &wire,
        "127.0.0.1:51234".to_string(),
        arrival_time(),
        "/home/u/.raven/data",
        &existing,
    )
    .unwrap();
    assert_eq!(arrival, Arrival::SaveText);
    assert_eq!(mb.messages.len(), 1);
    assert_eq!(mb.messages[0].text, "hello");
    assert_eq!(mb.messages[0].from, "127.0.0.1:51234");
    assert!(mb.files.is_empty());
}

#[test]
fn files_are_stored_under_a_fresh_name() {
    // Sender side: notes.txt with content "abc".
    let wire = send_file("127.0.0.1", "/home/u/notes.txt", vec![97, 98, 99]).unwrap();
    // Receiver side: the attachment directory already holds notes.txt.
    let existing = vec!["/home/u/.raven/data/notes.txt".to_string()];
    let mut mb = MailBox::new();
    let arrival = receive(
        &mut mb,
        &wire,
        "127.0.0.1:51235".to_string(),
        arrival_time(),
        "/home/u/.raven/data",
        &existing,
    )
    .unwrap();
    let (path, content) = match arrival {
        Arrival::StoreFile { path, content } => (path, content),
        other => panic!("expected a file arrival, got {:?}", other),
    };
    assert_eq!(path, "/home/u/.raven/data/notes_1.txt");
    assert_eq!(content, vec![97, 98, 99]);
    // The original notes.txt is untouched and nothing is recorded until
    // the bytes are written; then the record points at the fresh name.
    assert_eq!(mb, MailBox::new());
    mb.add_file("127.0.0.1:51235".to_string(), arrival_time(), path.clone());
    assert_eq!(mb.files.len(), 1);
    assert_eq!(mb.files[0].name, "/home/u/.raven/data/notes_1.txt");
}

#[test]
fn unreachable_destinations_come_back_as_errors() {
    // Front end: ask the daemon to send to an unreachable peer.
    let request = send_request("10.255.255.1", 23456, "hi".to_string().as_str()).unwrap();
    // Daemon: the request is well-formed, so exactly one envelope is built.
    let step = control_request(&request);
    let (to, port, envelope) = match step {
        ControlStep::Dispatch { to, port, envelope } => (to, port, envelope),
        other => panic!("expected a dispatch, got {:?}", other),
    };
    assert_eq!(to, "10.255.255.1");
    assert_eq!(port, 23456);
    assert_eq!(envelope, send("10.255.255.1", "hi".to_string()).unwrap());
    // The connect fails; the daemon replies with the cause.
    let reply = control_reply(Err("Connecting to the target client failed".to_string()));
    let decoded = decode_sys_raven(&reply).unwrap();
    assert!(matches!(decoded, SysRaven::Error { .. }));
    assert_ne!(decoded, SysRaven::Okay);
    // The front end surfaces it; and no mailbox was involved at all.
    let outcome = read_reply(&reply);
    assert_eq!(
        outcome,
        Err("Error sending message: Connecting to the target client failed".to_string())
    );
}

#[test]
fn malformed_destinations_are_refused_before_any_network_work() {
    let refused = send_request("not-an-address", 23456, "hi");
    assert_eq!(refused, Err("Invalid ipv4 address not-an-address".to_string()));
    // A request that carries a malformed address anyway is answered
    // with an error reply, never a dispatch.
    let raw = rv_raven::raven::encode_sys_raven(&SysRaven::Send {
        to: "999.0.0.1".to_string(),
        port: 1,
        message: "hi".to_string(),
    });
    match control_request(&raw) {
        ControlStep::Reply { reply } => {
            assert!(matches!(decode_sys_raven(&reply).unwrap(), SysRaven::Error { .. }));
        },
        other => panic!("expected a reply, got {:?}", other),
    }
}

#[test]
fn garbage_on_the_control_socket_gets_an_error_reply() {
    match control_request(&[42, 1, 2, 3]) {
        ControlStep::Reply { reply } => {
            assert!(matches!(decode_sys_raven(&reply).unwrap(), SysRaven::Error { .. }));
        },
        other => panic!("expected a reply, got {:?}", other),
    }
}

#[test]
fn successful_dispatches_are_acknowledged() {
    let reply = control_reply(Ok(()));
    assert_eq!(decode_sys_raven(&reply), Ok(SysRaven::Okay));
    assert_eq!(read_reply(&reply), Ok(()));
}

#[test]
fn garbage_from_the_network_changes_nothing() {
    let mut mb = MailBox::new();
    mb.add_message("a:1".to_string(), arrival_time(), "kept".to_string());
    let before = mb.clone();
    let existing: Vec<String> = vec![];
    let r = receive(
        &mut mb,
        &[7, 7, 7],
        "127.0.0.1:51236".to_string(),
        arrival_time(),
        "/home/u/.raven/data",
        &existing,
    );
    assert!(r.is_err());
    assert_eq!(mb, before);
}
