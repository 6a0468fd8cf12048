use rclone_ignore::hub::{ConnEvent, ConnState, Delivery, Hub, Operation, PeerAddr, RelayError};

fn peer(last: u32, port: u16) -> PeerAddr {
    PeerAddr::V4 { ip: 0x0a00_0000 + last, port }
}

fn op(sender: PeerAddr, send_type: &str, from: Option<&str>, to: &str) -> Operation {
    Operation {
        sender,
        send_type: send_type.to_string(),
        from_path: from.map(|f| f.to_string()),
        to_path: to.to_string(),
    }
}

#[test]
fn late_peer_receives_earlier_operations_once_and_sender_never_its_own() {
    let a = peer(1, 5000);
    let b = peer(2, 5000);
    let mut hub = Hub::new();
    assert_eq!(hub.on_open(Some(a)), Ok(a));
    let first = hub.on_message(a, Some(op(PeerAddr::unknown(), "copy", None, "x")));
    assert_eq!(first, vec![]);
    assert_eq!(hub.on_open(Some(b)), Ok(b));
    let out = hub.on_message(b, Some(op(PeerAddr::unknown(), "delete", None, "y")));
    let to_a: Vec<&Delivery> = out.iter().filter(|d| d.to == a).collect();
    let to_b: Vec<&Delivery> = out.iter().filter(|d| d.to == b).collect();
    assert_eq!(to_b.len(), 1);
    assert_eq!(to_b[0].operation, op(a, "copy", None, "x"));
    assert_eq!(to_a.len(), 1);
    assert_eq!(to_a[0].operation, op(b, "delete", None, "y"));
    assert_eq!(out.len(), 2);
    for d in out.iter() {
        assert_ne!(d.operation.sender, d.to);
    }
}

#[test]
fn every_message_resends_the_whole_log_of_the_others() {
    let a = peer(1, 1);
    let b = peer(2, 2);
    let mut hub = Hub::new();
    hub.on_open(Some(a)).unwrap();
    hub.on_open(Some(b)).unwrap();
    hub.on_message(a, Some(op(a, "copy", None, "1")));
    hub.on_message(a, Some(op(a, "copy", None, "2")));
    let out = hub.on_message(b, Some(op(b, "moveto", Some("2"), "3")));
    assert_eq!(
        out,
        vec![
            Delivery { to: a, operation: op(b, "moveto", Some("2"), "3") },
            Delivery { to: b, operation: op(a, "copy", None, "1") },
            Delivery { to: b, operation: op(a, "copy", None, "2") },
        ]
    );
    assert_eq!(hub.log_len(), 3);
}

#[test]
fn sender_is_stamped_by_the_hub() {
    let a = peer(1, 1);
    let b = peer(2, 2);
    let mut hub = Hub::new();
    hub.on_open(Some(a)).unwrap();
    hub.on_open(Some(b)).unwrap();
    let out = hub.on_message(a, Some(op(b, "copy", None, "x")));
    assert_eq!(out, vec![Delivery { to: b, operation: op(a, "copy", None, "x") }]);
}

#[test]
fn unreadable_message_changes_nothing() {
    let a = peer(1, 1);
    let b = peer(2, 2);
    let mut hub = Hub::new();
    hub.on_open(Some(a)).unwrap();
    hub.on_open(Some(b)).unwrap();
    hub.on_message(a, Some(op(a, "copy", None, "x")));
    assert_eq!(hub.on_message(b, None), vec![]);
    assert_eq!(hub.log_len(), 1);
    assert_eq!(hub.client_count(), 2);
    assert_eq!(ConnState::Open.after(ConnEvent::Message), ConnState::Open);
}

#[test]
fn opening_without_an_address_is_refused() {
    let mut hub = Hub::new();
    assert_eq!(hub.on_open(None), Err(RelayError::NoPeerAddress));
    assert_eq!(hub.client_count(), 0);
}

#[test]
fn a_peer_is_registered_once() {
    let a = peer(1, 1);
    let mut hub = Hub::new();
    hub.on_open(Some(a)).unwrap();
    hub.on_open(Some(a)).unwrap();
    assert_eq!(hub.client_count(), 1);
    assert!(hub.is_registered(a));
    assert!(!hub.is_registered(peer(1, 2)));
}

#[test]
fn closed_peer_leaves_the_registry_and_the_log_stays() {
    let a = peer(1, 1);
    let b = peer(2, 2);
    let c = peer(3, 3);
    let mut hub = Hub::new();
    hub.on_open(Some(a)).unwrap();
    hub.on_open(Some(b)).unwrap();
    hub.on_open(Some(c)).unwrap();
    hub.on_message(b, Some(op(b, "copy", None, "x")));
    hub.on_close(b);
    assert!(!hub.is_registered(b));
    assert_eq!(hub.client_count(), 2);
    assert_eq!(hub.log_len(), 1);
    let out = hub.on_message(a, Some(op(a, "purge", None, "d")));
    assert_eq!(
        out,
        vec![
            Delivery { to: a, operation: op(b, "copy", None, "x") },
            Delivery { to: c, operation: op(b, "copy", None, "x") },
            Delivery { to: c, operation: op(a, "purge", None, "d") },
        ]
    );
    hub.on_close(peer(9, 9));
    assert_eq!(hub.client_count(), 2);
}

#[test]
fn message_with_no_registered_peer_is_only_logged() {
    let mut hub = Hub::new();
    assert_eq!(hub.on_message(peer(1, 1), Some(op(peer(1, 1), "copy", None, "x"))), vec![]);
    assert_eq!(hub.log_len(), 1);
}

#[test]
fn addresses_differ_by_port_and_family() {
    let mut hub = Hub::new();
    let v4 = PeerAddr::V4 { ip: 1, port: 80 };
    let v6 = PeerAddr::V6 { ip: 1, port: 80, flowinfo: 0, scope_id: 0 };
    hub.on_open(Some(v4)).unwrap();
    hub.on_open(Some(v6)).unwrap();
    hub.on_open(Some(PeerAddr::V4 { ip: 1, port: 81 })).unwrap();
    assert_eq!(hub.client_count(), 3);
}

#[test]
fn unknown_address_is_all_zero_port_eighty() {
    assert_eq!(PeerAddr::unknown(), PeerAddr::V4 { ip: 0, port: 80 });
}

#[test]
fn stamped_replaces_only_the_sender() {
    let o = op(peer(1, 1), "moveto", Some("a"), "b");
    assert_eq!(o.stamped(peer(2, 2)), op(peer(2, 2), "moveto", Some("a"), "b"));
}

#[test]
fn connection_goes_from_connecting_to_open_to_closed() {
    let s = ConnState::Connecting;
    let s = s.after(ConnEvent::Opened { has_addr: true });
    assert_eq!(s, ConnState::Open);
    let s = s.after(ConnEvent::Message);
    assert_eq!(s, ConnState::Open);
    let s = s.after(ConnEvent::Closed);
    assert_eq!(s, ConnState::Closed);
    assert_eq!(s.after(ConnEvent::Opened { has_addr: true }), ConnState::Closed);
    assert_eq!(s.after(ConnEvent::Message), ConnState::Closed);
}

#[test]
fn connection_without_address_closes() {
    assert_eq!(
        ConnState::Connecting.after(ConnEvent::Opened { has_addr: false }),
        ConnState::Closed
    );
    assert_eq!(ConnState::Connecting.after(ConnEvent::Closed), ConnState::Closed);
    assert_eq!(ConnState::Connecting.after(ConnEvent::Message), ConnState::Connecting);
    assert_eq!(ConnState::Open.after(ConnEvent::Opened { has_addr: true }), ConnState::Open);
}

#[test]
fn each_peer_is_sent_every_logged_operation_of_the_others_once() {
    let a = peer(1, 1);
    let b = peer(2, 2);
    let c = peer(3, 3);
    let mut hub = Hub::new();
    hub.on_open(Some(a)).unwrap();
    hub.on_open(Some(b)).unwrap();
    hub.on_open(Some(c)).unwrap();
    hub.on_message(a, Some(op(a, "copy", None, "1")));
    hub.on_message(b, Some(op(b, "copy", None, "2")));
    hub.on_message(a, Some(op(a, "delete", None, "3")));
    let out = hub.on_message(c, Some(op(c, "mkdir", None, "4")));
    let log = vec![
        op(a, "copy", None, "1"),
        op(b, "copy", None, "2"),
        op(a, "delete", None, "3"),
        op(c, "mkdir", None, "4"),
    ];
    for client in [a, b, c] {
        let sent: Vec<Operation> =
            out.iter().filter(|d| d.to == client).map(|d| d.operation.clone()).collect();
        let expected: Vec<Operation> =
            log.iter().filter(|o| o.sender != client).map(|o| o.clone()).collect();
        assert_eq!(sent, expected);
    }
    assert_eq!(out.len(), 2 + 3 + 3);
    assert!(out.iter().all(|d| d.to != peer(9, 9)));
}
