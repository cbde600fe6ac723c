use chat_relay_core::protocol::Frame;
use chat_relay_core::protocol::join_marker_bytes;
use chat_relay_core::protocol::join_notice_bytes;
use chat_relay_core::protocol::parse_frame;
use chat_relay_core::protocol::rejection_notice_bytes;
use chat_relay_core::registry::JoinOutcome;
use chat_relay_core::registry::Registry;
use chat_relay_core::registry::RegistryError;
use chat_relay_core::session::handle_frame;
use futures_channel::mpsc::unbounded;
use futures_channel::mpsc::UnboundedReceiver;
use futures_channel::mpsc::UnboundedSender;

fn recv(rx: &mut UnboundedReceiver<Vec<u8>>) -> Vec<u8> {
    match rx.try_next() {
        Ok(Some(v)) => v,
        Ok(None) => panic!("channel closed"),
        Err(_) => panic!("no message queued"),
    }
}

fn assert_no_message(rx: &mut UnboundedReceiver<Vec<u8>>) {
    assert!(rx.try_next().is_err(), "expected no queued message");
}

fn join_payload(name: &str) -> Vec<u8> {
    let mut p = b"[JOIN_ATTEMPT] ".to_vec();
    p.extend_from_slice(name.as_bytes());
    p
}

fn pair() -> (UnboundedSender<Vec<u8>>, UnboundedReceiver<Vec<u8>>) {
    unbounded()
}

#[test]
fn register_then_duplicate_id_refused() {
    let mut reg = Registry::new();
    let (tx, _rx) = pair();
    let (tx2, _rx2) = pair();
    assert!(reg.register(1, tx).is_ok());
    assert!(reg.has_connection(1));
    assert_eq!(reg.register(1, tx2), Err(RegistryError::DuplicateId));
}

#[test]
fn deregister_is_idempotent_and_removes_claims() {
    let mut reg = Registry::new();
    let (tx, _rx) = pair();
    reg.register(1, tx).unwrap();
    assert_eq!(reg.try_claim_username(1, &b"alice".to_vec()), JoinOutcome::Admitted);
    reg.deregister(1);
    assert!(!reg.has_connection(1));
    // a second removal is a no-op, not an error
    reg.deregister(1);
    assert!(!reg.has_connection(1));
    // the name is free again for another connection
    let (tx2, _rx2) = pair();
    reg.register(2, tx2).unwrap();
    assert_eq!(reg.try_claim_username(2, &b"alice".to_vec()), JoinOutcome::Admitted);
}

#[test]
fn parse_join_frame_extracts_username() {
    match parse_frame(&join_payload("alice")) {
        Frame::Join { username } => assert_eq!(username, b"alice".to_vec()),
        Frame::Chat { .. } => panic!("join payload parsed as chat"),
    }
}

#[test]
fn parse_chat_frame_passes_text_through() {
    match parse_frame(&b"hello there".to_vec()) {
        Frame::Chat { text } => assert_eq!(text, b"hello there".to_vec()),
        Frame::Join { .. } => panic!("chat payload parsed as join"),
    }
}

#[test]
fn parse_needs_marker_with_trailing_space() {
    // without the space after the marker the payload is plain chat
    match parse_frame(&b"[JOIN_ATTEMPT]alice".to_vec()) {
        Frame::Chat { text } => assert_eq!(text, b"[JOIN_ATTEMPT]alice".to_vec()),
        Frame::Join { .. } => panic!("marker without space accepted as join"),
    }
}

#[test]
fn wire_texts_are_exact() {
    assert_eq!(join_marker_bytes(), b"[JOIN_ATTEMPT] ".to_vec());
    assert_eq!(
        join_notice_bytes(&b"alice".to_vec()),
        b"[SERVER]: User alice has joined.".to_vec()
    );
    assert_eq!(
        rejection_notice_bytes(),
        b"[SERVER_RESPONSE] That username is already taken.".to_vec()
    );
}

#[test]
fn duplicate_username_rejected_and_disconnected() {
    // connect A, join as alice; connect B, try the same name
    let mut reg = Registry::new();
    let (tx_a, mut rx_a) = pair();
    let (tx_b, mut rx_b) = pair();
    reg.register(1, tx_a).unwrap();
    reg.register(2, tx_b).unwrap();
    let mut pending_a: Vec<Vec<u8>> = Vec::new();
    let mut pending_b: Vec<Vec<u8>> = Vec::new();

    let out_a = handle_frame(&mut reg, &mut pending_a, 1, &join_payload("alice"));
    assert!(!out_a.close);
    assert!(out_a.log_entry.is_none());
    assert!(out_a.sends.is_empty());

    let out_b = handle_frame(&mut reg, &mut pending_b, 2, &join_payload("alice"));
    assert!(out_b.close);
    assert!(out_b.log_entry.is_none());
    assert_eq!(out_b.sends.len(), 1);
    assert_eq!(out_b.sends[0].0, 2);
    assert_eq!(
        recv(&mut rx_b),
        b"[SERVER_RESPONSE] That username is already taken.".to_vec()
    );
    assert!(!reg.has_connection(2));
    assert!(reg.has_connection(1));
    assert_no_message(&mut rx_a);
}

#[test]
fn join_notice_precedes_first_message_and_sender_gets_nothing() {
    // A joins as alice, then says hello; B sees the notice, then hello
    let mut reg = Registry::new();
    let (tx_a, mut rx_a) = pair();
    let (tx_b, mut rx_b) = pair();
    reg.register(1, tx_a).unwrap();
    reg.register(2, tx_b).unwrap();
    let mut pending_a: Vec<Vec<u8>> = Vec::new();

    handle_frame(&mut reg, &mut pending_a, 1, &join_payload("alice"));
    let out = handle_frame(&mut reg, &mut pending_a, 1, &b"hello".to_vec());
    assert!(!out.close);
    assert_eq!(out.log_entry, Some(b"hello".to_vec()));
    assert_eq!(recv(&mut rx_b), b"[SERVER]: User alice has joined.".to_vec());
    assert_eq!(recv(&mut rx_b), b"hello".to_vec());
    assert_no_message(&mut rx_b);
    assert_no_message(&mut rx_a);
    assert!(pending_a.is_empty());

    // the notice was drained: the next message arrives alone
    let out2 = handle_frame(&mut reg, &mut pending_a, 1, &b"again".to_vec());
    assert_eq!(out2.log_entry, Some(b"again".to_vec()));
    assert_eq!(recv(&mut rx_b), b"again".to_vec());
    assert_no_message(&mut rx_b);
}

#[test]
fn fanout_reaches_every_other_connection_once() {
    let mut reg = Registry::new();
    let (tx_a, mut rx_a) = pair();
    let (tx_b, mut rx_b) = pair();
    let (tx_c, mut rx_c) = pair();
    let (tx_d, mut rx_d) = pair();
    reg.register(1, tx_a).unwrap();
    reg.register(2, tx_b).unwrap();
    reg.register(3, tx_c).unwrap();
    reg.register(4, tx_d).unwrap();
    let mut pending: Vec<Vec<u8>> = Vec::new();

    let out = handle_frame(&mut reg, &mut pending, 2, &b"to everyone".to_vec());
    assert_eq!(out.sends.len(), 3);
    assert_no_message(&mut rx_b);
    for rx in [&mut rx_a, &mut rx_c, &mut rx_d] {
        assert_eq!(recv(rx), b"to everyone".to_vec());
        assert_no_message(rx);
    }
}

#[test]
fn messages_from_one_sender_arrive_in_order() {
    let mut reg = Registry::new();
    let (tx_a, _rx_a) = pair();
    let (tx_b, mut rx_b) = pair();
    reg.register(1, tx_a).unwrap();
    reg.register(2, tx_b).unwrap();
    let mut pending: Vec<Vec<u8>> = Vec::new();

    handle_frame(&mut reg, &mut pending, 1, &b"first".to_vec());
    handle_frame(&mut reg, &mut pending, 1, &b"second".to_vec());
    assert_eq!(recv(&mut rx_b), b"first".to_vec());
    assert_eq!(recv(&mut rx_b), b"second".to_vec());
    assert_no_message(&mut rx_b);
}

#[test]
fn abrupt_disconnect_mid_broadcast_is_isolated() {
    // A's receiving half is gone; B's message still reaches C
    let mut reg = Registry::new();
    let (tx_a, rx_a) = pair();
    let (tx_b, mut rx_b) = pair();
    let (tx_c, mut rx_c) = pair();
    reg.register(1, tx_a).unwrap();
    reg.register(2, tx_b).unwrap();
    reg.register(3, tx_c).unwrap();
    drop(rx_a);
    let mut pending: Vec<Vec<u8>> = Vec::new();

    let out = handle_frame(&mut reg, &mut pending, 2, &b"still here".to_vec());
    // the attempt to reach A is recorded, but its failure stops nothing
    assert_eq!(out.sends.len(), 2);
    assert_eq!(recv(&mut rx_c), b"still here".to_vec());
    assert_no_message(&mut rx_b);

    // once A's task deregisters it, a snapshot no longer lists it
    reg.deregister(1);
    let recipients = reg.snapshot_recipients(2);
    let ids: Vec<u64> = recipients.iter().map(|p| p.0).collect();
    assert_eq!(ids, vec![3]);

    // the registry still reaches the survivors after the removal
    let out2 = handle_frame(&mut reg, &mut pending, 2, &b"after cleanup".to_vec());
    assert_eq!(out2.sends.len(), 1);
    assert_eq!(recv(&mut rx_c), b"after cleanup".to_vec());
}

#[test]
fn client_line_prefixes_the_username() {
    assert_eq!(
        chat_relay_core::protocol::client_line_bytes(&b"alice".to_vec(), &b"hi there\n".to_vec()),
        b"alice: hi there\n".to_vec()
    );
    assert_eq!(
        chat_relay_core::protocol::client_line_bytes(&Vec::new(), &Vec::new()),
        b": ".to_vec()
    );
}

#[test]
fn snapshot_recipients_excludes_only_the_sender() {
    let mut reg = Registry::new();
    let (tx_a, _rx_a) = pair();
    let (tx_b, mut rx_b) = pair();
    reg.register(1, tx_a).unwrap();
    reg.register(2, tx_b).unwrap();
    let recipients = reg.snapshot_recipients(1);
    let ids: Vec<u64> = recipients.iter().map(|p| p.0).collect();
    assert_eq!(ids, vec![2]);
    // the snapshot holds working handles onto the same channels
    recipients[0].1.unbounded_send(b"via snapshot".to_vec()).unwrap();
    assert_eq!(recv(&mut rx_b), b"via snapshot".to_vec());
}

#[test]
fn send_to_connection_reaches_only_that_endpoint() {
    let mut reg = Registry::new();
    let (tx_a, mut rx_a) = pair();
    let (tx_b, mut rx_b) = pair();
    reg.register(1, tx_a).unwrap();
    reg.register(2, tx_b).unwrap();
    assert!(reg.send_to_connection(1, b"direct".to_vec()));
    assert_eq!(recv(&mut rx_a), b"direct".to_vec());
    assert_no_message(&mut rx_b);
    assert!(!reg.send_to_connection(9, b"nobody".to_vec()));
}

#[test]
fn rejoining_with_own_name_is_admitted() {
    // a name is only refused when a *different* connection holds it
    let mut reg = Registry::new();
    let (tx_a, _rx_a) = pair();
    reg.register(1, tx_a).unwrap();
    let mut pending: Vec<Vec<u8>> = Vec::new();
    let first = handle_frame(&mut reg, &mut pending, 1, &join_payload("alice"));
    assert!(!first.close);
    let again = handle_frame(&mut reg, &mut pending, 1, &join_payload("alice"));
    assert!(!again.close);
    assert!(reg.has_connection(1));
}

#[test]
fn second_join_accumulates_a_second_notice() {
    let mut reg = Registry::new();
    let (tx_a, _rx_a) = pair();
    let (tx_b, mut rx_b) = pair();
    reg.register(1, tx_a).unwrap();
    reg.register(2, tx_b).unwrap();
    let mut pending: Vec<Vec<u8>> = Vec::new();
    handle_frame(&mut reg, &mut pending, 1, &join_payload("alice"));
    handle_frame(&mut reg, &mut pending, 1, &join_payload("casey"));
    assert_eq!(pending.len(), 2);
    handle_frame(&mut reg, &mut pending, 1, &b"hi".to_vec());
    assert_eq!(recv(&mut rx_b), b"[SERVER]: User alice has joined.".to_vec());
    assert_eq!(recv(&mut rx_b), b"[SERVER]: User casey has joined.".to_vec());
    assert_eq!(recv(&mut rx_b), b"hi".to_vec());
}

#[test]
fn empty_username_join_is_admitted() {
    let mut reg = Registry::new();
    let (tx_a, _rx_a) = pair();
    reg.register(1, tx_a).unwrap();
    let mut pending: Vec<Vec<u8>> = Vec::new();
    let out = handle_frame(&mut reg, &mut pending, 1, &b"[JOIN_ATTEMPT] ".to_vec());
    assert!(!out.close);
    assert_eq!(pending.len(), 1);
    assert_eq!(pending[0], b"[SERVER]: User  has joined.".to_vec());
}

#[test]
fn chat_before_joining_is_still_broadcast() {
    // joining is not required before chatting; this is permissive by design
    let mut reg = Registry::new();
    let (tx_a, _rx_a) = pair();
    let (tx_b, mut rx_b) = pair();
    reg.register(1, tx_a).unwrap();
    reg.register(2, tx_b).unwrap();
    let mut pending: Vec<Vec<u8>> = Vec::new();
    let out = handle_frame(&mut reg, &mut pending, 1, &b"anonymous words".to_vec());
    assert_eq!(out.log_entry, Some(b"anonymous words".to_vec()));
    assert_eq!(recv(&mut rx_b), b"anonymous words".to_vec());
}

#[test]
fn non_utf8_payload_is_relayed_verbatim() {
    let mut reg = Registry::new();
    let (tx_a, _rx_a) = pair();
    let (tx_b, mut rx_b) = pair();
    reg.register(1, tx_a).unwrap();
    reg.register(2, tx_b).unwrap();
    let mut pending: Vec<Vec<u8>> = Vec::new();
    let raw = vec![0xffu8, 0xfe, 0x00, 0x41];
    let out = handle_frame(&mut reg, &mut pending, 1, &raw);
    assert_eq!(out.log_entry, Some(raw.clone()));
    assert_eq!(recv(&mut rx_b), raw);
}

#[test]
fn uniqueness_under_a_burst_of_join_attempts() {
    // many connections race for one name; exactly one is admitted and the
    // rest are rejected and removed
    let mut reg = Registry::new();
    let mut receivers = Vec::new();
    for id in 1..=5u64 {
        let (tx, rx) = pair();
        reg.register(id, tx).unwrap();
        receivers.push((id, rx));
    }
    let mut admitted = 0;
    for id in 1..=5u64 {
        let mut pending: Vec<Vec<u8>> = Vec::new();
        let out = handle_frame(&mut reg, &mut pending, id, &join_payload("highlander"));
        if out.close {
            assert!(!reg.has_connection(id));
        } else {
            admitted += 1;
        }
    }
    assert_eq!(admitted, 1);
    assert!(reg.has_connection(1));
    for (id, rx) in receivers.iter_mut() {
        if *id == 1 {
            assert!(rx.try_next().is_err());
        } else {
            assert_eq!(
                recv(rx),
                b"[SERVER_RESPONSE] That username is already taken.".to_vec()
            );
        }
    }
}
