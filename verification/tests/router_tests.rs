use robot_fabric::Client;
use robot_fabric::DiagnosticMsg;
use robot_fabric::DiagnosticStatus;
use robot_fabric::PacketData;
use robot_fabric::PacketFormat;
use robot_fabric::PositionEstimate;
use robot_fabric::FloatBits32;
use robot_fabric::Router;

fn diag_packet(message: &str) -> PacketFormat {
    PacketFormat {
        to: None,
        from: None,
        data: PacketData::DiagnosticMsg(DiagnosticMsg {
            level: DiagnosticStatus::Okay,
            name: "test".to_string(),
            message: message.to_string(),
            values: Vec::new(),
        }),
        time: 0,
        id: 0,
    }
}

fn position_packet() -> PacketFormat {
    PacketFormat {
        to: None,
        from: None,
        data: PacketData::PositionEstimate(PositionEstimate {
            timestamp: 0,
            position: (FloatBits32 { bits: 0 }, FloatBits32 { bits: 0 }),
            orientation: FloatBits32 { bits: 0 },
        }),
        time: 0,
        id: 0,
    }
}

#[test]
fn test_router_creation() {
    let router: Router = Router::new();
    assert_eq!(router.address_max, 0);
    assert!(router.clients_by_address.is_empty());
}

#[test]
fn test_client_registration() {
    let mut router = Router::new();
    let address = router.register_client(Client::new());

    assert_eq!(address, 1);
    assert_eq!(router.address_max, 1);
    assert_eq!(router.clients_by_address.len(), 1);
}

#[test]
fn test_dead_client_cleanup() {
    let mut router = Router::new();
    let _client1 = router.register_client(Client::new());
    let client2 = router.register_client(Client::new());
    assert_eq!(router.clients_by_address.len(), 2);

    // The second node gives up its mailbox; the next poll reclaims it.
    router.mark_dead(client2);
    router.poll();
    assert_eq!(router.clients_by_address.len(), 1);
}

#[test]
fn test_direct_address_routing() {
    let mut router = Router::new();
    let client1 = router.register_client(Client::new());
    let client2 = router.register_client(Client::new());

    // Client 1 sends a packet directly to client 2 (address 2).
    let mut packet = diag_packet("hello");
    packet.to = Some(client2);
    router.client_send(client1, packet);

    router.poll();

    assert_eq!(router.client_packet_count(client2), 1);
    assert_eq!(router.client_packet_count(client1), 0);

    let received = router.client_fetch_all(client2);
    assert_eq!(received.len(), 1);
    assert_eq!(received[0].from, Some(client1));
    match &received[0].data {
        PacketData::DiagnosticMsg(m) => assert_eq!(m.message, "hello"),
        _ => unreachable!(),
    }
}

#[test]
fn test_topic_subscription_routing() {
    let mut router = Router::new();
    let client1 = router.register_client(Client::new());
    let client2 = router.register_client(Client::new());
    let client3 = router.register_client(Client::new());

    router.client_subscribe(client2, "DiagnosticMsg".to_string());
    router.client_subscribe(client3, "DiagnosticMsg".to_string());

    router.client_send(client1, diag_packet("temperature: 25C"));
    router.poll();

    assert_eq!(router.client_packet_count(client1), 0);
    assert_eq!(router.client_packet_count(client2), 1);
    assert_eq!(router.client_packet_count(client3), 1);

    let received2 = router.client_fetch_all(client2);
    let received3 = router.client_fetch_all(client3);
    assert_eq!(received2[0].from, Some(client1));
    assert_eq!(received3[0].from, Some(client1));
}

#[test]
fn test_all_topic_broadcast() {
    let mut router = Router::new();
    let client1 = router.register_client(Client::new());
    let client2 = router.register_client(Client::new());
    let client3 = router.register_client(Client::new());

    for address in [client1, client2, client3] {
        router.client_subscribe(address, "all".to_string());
    }

    router.client_send(client1, diag_packet("broadcast message"));
    router.poll();

    for address in [client1, client2, client3] {
        let received = router.client_fetch_all(address);
        assert_eq!(received.len(), 1);
        assert_eq!(received[0].from, Some(client1));
        match &received[0].data {
            PacketData::DiagnosticMsg(m) => assert_eq!(m.message, "broadcast message"),
            _ => unreachable!(),
        }
    }
}

// A subscriber to `"all"` receives a topic-routed frame exactly once,
// even when it also subscribes to the frame's own topic.
#[test]
fn test_all_topic_no_duplicate() {
    let mut router = Router::new();
    let publisher = router.register_client(Client::new());
    let _second = router.register_client(Client::new());
    let listener = router.register_client(Client::new());

    router.client_subscribe(listener, "all".to_string());
    router.client_subscribe(listener, "DiagnosticMsg".to_string());

    router.client_send(publisher, diag_packet("once"));
    router.poll();

    assert_eq!(router.client_packet_count(listener), 1);
}

#[test]
fn test_multiple_subscriptions() {
    let mut router = Router::new();
    let client1 = router.register_client(Client::new());
    let client2 = router.register_client(Client::new());

    router.client_subscribe(client2, "DiagnosticMsg".to_string());
    router.client_subscribe(client2, "PositionEstimate".to_string());

    router.client_send(client1, diag_packet("msg1"));
    router.client_send(client1, position_packet());

    router.poll();

    assert_eq!(router.client_packet_count(client2), 2);
    assert_eq!(router.client_packet_count(client1), 0);
}

#[test]
fn test_no_subscribers() {
    let mut router = Router::new();
    let client1 = router.register_client(Client::new());
    let client2 = router.register_client(Client::new());

    router.client_send(client1, diag_packet("lost message"));
    router.poll();

    assert_eq!(router.client_packet_count(client1), 0);
    assert_eq!(router.client_packet_count(client2), 0);
}

#[test]
fn test_invalid_address_routing() {
    let mut router = Router::new();
    let client1 = router.register_client(Client::new());

    let mut packet = diag_packet("lost");
    packet.to = Some(999);
    router.client_send(client1, packet);

    router.poll();

    assert_eq!(router.client_packet_count(client1), 0);
}

#[test]
fn test_multiple_packets_same_poll() {
    let mut router = Router::new();
    let client1 = router.register_client(Client::new());
    let client2 = router.register_client(Client::new());

    router.client_subscribe(client2, "DiagnosticMsg".to_string());

    router.client_send(client1, diag_packet("msg1"));
    router.client_send(client1, diag_packet("msg2"));
    router.client_send(client1, diag_packet("msg3"));

    router.poll();

    assert_eq!(router.client_packet_count(client2), 3);

    // One sender's packets are delivered in the order they were sent.
    let received = router.client_fetch_all(client2);
    let texts: Vec<String> = received
        .iter()
        .map(|p| match &p.data {
            PacketData::DiagnosticMsg(m) => m.message.clone(),
            _ => unreachable!(),
        })
        .collect();
    assert_eq!(texts, vec!["msg1", "msg2", "msg3"]);
}

// An addressed packet reaches only its destination, even though another
// mailbox subscribes to the packet's topic, and the destination receives
// it without any subscription.
#[test]
fn test_address_routing_dominates_topic() {
    let mut router = Router::new();
    let publisher = router.register_client(Client::new());
    let destination = router.register_client(Client::new());
    let bystander = router.register_client(Client::new());

    router.client_subscribe(bystander, "DiagnosticMsg".to_string());

    let mut packet = diag_packet("direct");
    packet.to = Some(destination);
    router.client_send(publisher, packet);
    router.poll();

    assert_eq!(router.client_packet_count(destination), 1);
    assert_eq!(router.client_packet_count(bystander), 0);
    assert_eq!(router.client_packet_count(publisher), 0);
}

// Once its node drops the mailbox, a former subscriber takes part in no
// further routing.
#[test]
fn test_dead_client_receives_nothing() {
    let mut router = Router::new();
    let publisher = router.register_client(Client::new());
    let listener = router.register_client(Client::new());
    router.client_subscribe(listener, "DiagnosticMsg".to_string());

    router.mark_dead(listener);
    router.client_send(publisher, diag_packet("late"));
    router.poll();

    assert_eq!(router.client_packet_count(listener), 0);
    assert_eq!(router.clients_by_address.len(), 1);
}

// Addresses are assigned monotonically and never reused, even after a
// mailbox dies.
#[test]
fn test_addresses_never_reused() {
    let mut router = Router::new();
    let first = router.register_client(Client::new());
    router.mark_dead(first);
    router.poll();
    let second = router.register_client(Client::new());
    assert_eq!(first, 1);
    assert_eq!(second, 2);
}
