use wsvpn::network::ConfiguredNetwork;
use wsvpn::registry::PeerRegistry;
use wsvpn::session::{
    Action, CloseSignal, Fault, Handler, Message, SessionState, TimerClass, PING_INTERVAL_MS,
    PING_REPEAT_MS, TIMEOUT_MS,
};
use wsvpn::tun::IfaceWrapper;

fn ip(a: u8, b: u8, c: u8, d: u8) -> u32 {
    u32::from_be_bytes([a, b, c, d])
}

fn server_iface(cidr: &str) -> IfaceWrapper {
    let mut iface = IfaceWrapper::new(String::from("wsvpn0"));
    iface.set_network(cidr, false).unwrap();
    iface
}

fn server_registry(cidr: &str) -> PeerRegistry {
    PeerRegistry::initialize(ConfiguredNetwork::parse(cidr).unwrap())
}

fn text(t: &str) -> Message {
    Message::Text(t.as_bytes().to_vec())
}

#[test]
fn timing_constants_are_ten_five_and_sixty_seconds() {
    assert_eq!(PING_INTERVAL_MS, 10_000);
    assert_eq!(PING_REPEAT_MS, 5_000);
    assert_eq!(TIMEOUT_MS, 60_000);
}

#[test]
fn new_session_is_connecting_and_holds_nothing() {
    let s = Handler::new_server(5);
    assert!(s.is_server());
    assert_eq!(s.peer(), 5);
    assert_eq!(s.ip(), None);
    assert_eq!(s.timeout(), None);
    assert_eq!(s.state(), SessionState::Connecting);
    let c = Handler::new_client(6);
    assert!(!c.is_server());
    assert_eq!(c.peer(), 6);
    assert_eq!(c.state(), SessionState::Connecting);
    let d = Handler::new(8, true);
    assert!(d.is_server());
    assert_eq!(d.peer(), 8);
}

#[test]
fn client_opens_with_hello_and_server_waits() {
    let mut c = Handler::new_client(1);
    assert_eq!(c.on_open(), vec![Action::SendText(b"HELLO".to_vec())]);
    assert_eq!(c.state(), SessionState::AwaitingHandshake);
    let mut s = Handler::new_server(1);
    assert_eq!(s.on_open(), vec![]);
    assert_eq!(s.state(), SessionState::AwaitingHandshake);
}

#[test]
fn happy_path_handshake() {
    let iface = server_iface("10.8.0.0/24");
    let mut server_peers = server_registry("10.8.0.0/24");
    let mut server = Handler::new_server(11);
    assert_eq!(server.on_open(), vec![]);

    let client_iface = IfaceWrapper::new(String::from("wsvpn0"));
    let mut client_peers = PeerRegistry::new();
    let mut client = Handler::new_client(22);
    let opening = client.on_open();
    assert_eq!(opening, vec![Action::SendText(b"HELLO".to_vec())]);

    let reply = server.on_message(text("HELLO"), &mut server_peers, &iface);
    assert_eq!(
        reply,
        vec![
            Action::ArmTimer { delay_ms: 10_000, class: TimerClass::KeepAlivePing },
            Action::ArmTimer { delay_ms: 60_000, class: TimerClass::IdleTimeout },
            Action::SendText(b"HELLO 10.8.0.2/24 10.8.0.1".to_vec()),
        ]
    );
    assert_eq!(server.ip(), Some(ip(10, 8, 0, 2)));
    assert_eq!(server.state(), SessionState::Established);
    assert_eq!(server_peers.lookup(ip(10, 8, 0, 2)), Some(11));
    assert_eq!(server_peers.free_count(), 252);

    let ack = client.on_message(
        text("HELLO 10.8.0.2/24 10.8.0.1"),
        &mut client_peers,
        &client_iface,
    );
    assert_eq!(
        ack,
        vec![
            Action::ConfigureInterface(b"10.8.0.2/24".to_vec()),
            Action::SendText(b"THANKS".to_vec()),
        ]
    );
    assert_eq!(client.state(), SessionState::Established);
    assert_eq!(client_peers.lookup(ip(10, 8, 0, 1)), Some(22));

    let after = server.on_message(text("THANKS"), &mut server_peers, &iface);
    assert_eq!(after, vec![]);
    assert_eq!(server.state(), SessionState::Established);
    assert_eq!(server.ip(), Some(ip(10, 8, 0, 2)));
    assert_eq!(server_peers.free_count(), 252);
}

#[test]
fn exhausted_pool_closes_without_a_grant() {
    let iface = server_iface("10.8.0.0/30");
    let mut peers = server_registry("10.8.0.0/30");
    let mut first = Handler::new_server(1);
    first.on_open();
    let granted = first.on_message(text("HELLO"), &mut peers, &iface);
    assert_eq!(granted.len(), 3);
    assert_eq!(granted[2], Action::SendText(b"HELLO 10.8.0.2/30 10.8.0.1".to_vec()));
    assert_eq!(peers.free_count(), 0);

    let mut second = Handler::new_server(2);
    second.on_open();
    let refused = second.on_message(text("HELLO"), &mut peers, &iface);
    assert_eq!(refused, vec![Action::Close(CloseSignal::Policy)]);
    assert_eq!(second.ip(), None);
    assert_eq!(second.state(), SessionState::AwaitingHandshake);
    assert_eq!(first.ip(), Some(ip(10, 8, 0, 2)));
    assert_eq!(first.state(), SessionState::Established);
    assert_eq!(peers.lookup(ip(10, 8, 0, 2)), Some(1));
}

#[test]
fn interface_without_a_block_closes_without_a_grant() {
    let iface = IfaceWrapper::new(String::from("wsvpn0"));
    let mut peers = server_registry("10.8.0.0/24");
    let mut s = Handler::new_server(1);
    s.on_open();
    let refused = s.on_message(text("HELLO"), &mut peers, &iface);
    assert_eq!(refused, vec![Action::Close(CloseSignal::Policy)]);
    assert_eq!(s.ip(), None);
    assert_eq!(peers.free_count(), 253);
}

#[test]
fn second_request_of_a_session_is_a_protocol_error() {
    let iface = server_iface("10.8.0.0/24");
    let mut peers = server_registry("10.8.0.0/24");
    let mut s = Handler::new_server(1);
    s.on_open();
    s.on_message(text("HELLO"), &mut peers, &iface);
    let again = s.on_message(text("HELLO"), &mut peers, &iface);
    assert_eq!(again, vec![Action::Close(CloseSignal::Protocol)]);
    assert_eq!(s.ip(), Some(ip(10, 8, 0, 2)));
    assert_eq!(peers.free_count(), 252);
}

#[test]
fn two_sessions_are_granted_different_addresses() {
    let iface = server_iface("10.8.0.0/24");
    let mut peers = server_registry("10.8.0.0/24");
    let mut a = Handler::new_server(1);
    let mut b = Handler::new_server(2);
    let ra = a.on_message(text("HELLO"), &mut peers, &iface);
    let rb = b.on_message(text("HELLO"), &mut peers, &iface);
    assert_eq!(ra[2], Action::SendText(b"HELLO 10.8.0.2/24 10.8.0.1".to_vec()));
    assert_eq!(rb[2], Action::SendText(b"HELLO 10.8.0.3/24 10.8.0.1".to_vec()));
    assert_eq!(peers.lookup(ip(10, 8, 0, 2)), Some(1));
    assert_eq!(peers.lookup(ip(10, 8, 0, 3)), Some(2));
}

#[test]
fn grant_carries_the_prefix_and_gateway_of_the_interface() {
    let iface = server_iface("192.168.77.40/16");
    let mut peers = server_registry("192.168.77.40/16");
    let mut s = Handler::new_server(1);
    let r = s.on_message(text("HELLO"), &mut peers, &iface);
    assert_eq!(r[2], Action::SendText(b"HELLO 192.168.0.2/16 192.168.0.1".to_vec()));
}

#[test]
fn binary_message_goes_to_the_interface_in_every_state() {
    let iface = server_iface("10.8.0.0/24");
    let mut peers = server_registry("10.8.0.0/24");
    let payload = vec![0x45u8, 0, 0, 20, 1, 2, 3];
    let mut s = Handler::new_server(1);
    assert_eq!(
        s.on_message(Message::Binary(payload.clone()), &mut peers, &iface),
        vec![Action::Deliver(payload.clone())]
    );
    s.on_open();
    assert_eq!(
        s.on_message(Message::Binary(payload.clone()), &mut peers, &iface),
        vec![Action::Deliver(payload.clone())]
    );
    s.on_message(text("HELLO"), &mut peers, &iface);
    assert_eq!(
        s.on_message(Message::Binary(vec![]), &mut peers, &iface),
        vec![Action::Deliver(vec![])]
    );
    s.on_close(&mut peers);
    assert_eq!(
        s.on_message(Message::Binary(payload.clone()), &mut peers, &iface),
        vec![Action::Deliver(payload.clone())]
    );
    let mut c = Handler::new_client(2);
    let mut client_peers = PeerRegistry::new();
    assert_eq!(
        c.on_message(Message::Binary(payload.clone()), &mut client_peers, &iface),
        vec![Action::Deliver(payload)]
    );
    assert_eq!(peers.free_count(), 253);
}

#[test]
fn other_texts_are_ignored() {
    let iface = server_iface("10.8.0.0/24");
    let mut peers = server_registry("10.8.0.0/24");
    let mut s = Handler::new_server(1);
    for t in ["", "HI", "HELL", "hello", "THANK", "THANKS!", "GOODBYE", " HELLO"] {
        assert_eq!(s.on_message(text(t), &mut peers, &iface), vec![], "{:?}", t);
    }
    assert_eq!(s.ip(), None);
    assert_eq!(peers.free_count(), 253);
    let mut c = Handler::new_client(2);
    let mut client_peers = PeerRegistry::new();
    for t in ["", "HI", "THANKS", "hello 1.2.3.4/5 1.2.3.1"] {
        assert_eq!(c.on_message(text(t), &mut client_peers, &iface), vec![], "{:?}", t);
    }
    assert_eq!(c.state(), SessionState::Connecting);
}

#[test]
fn thanks_before_the_handshake_changes_nothing() {
    let iface = server_iface("10.8.0.0/24");
    let mut peers = server_registry("10.8.0.0/24");
    let mut s = Handler::new_server(1);
    s.on_open();
    assert_eq!(s.on_message(text("THANKS"), &mut peers, &iface), vec![]);
    assert_eq!(s.state(), SessionState::AwaitingHandshake);
    assert_eq!(s.ip(), None);
}

#[test]
fn grant_with_a_wrong_number_of_tokens_closes_the_client() {
    let iface = IfaceWrapper::new(String::from("wsvpn0"));
    let mut peers = PeerRegistry::new();
    for t in [
        "HELLO",
        "HELLO ",
        "HELLO 10.8.0.2/24",
        "HELLO 10.8.0.2/24 ",
        "HELLO 10.8.0.2/24 10.8.0.1 extra",
        "HELLO a\tb c",
        "HELLO 10.8.0.2/24\n10.8.0.1\r10.8.0.3",
        "HELLO10.8.0.2/24 10.8.0.1",
    ] {
        let mut c = Handler::new_client(2);
        c.on_open();
        assert_eq!(
            c.on_message(text(t), &mut peers, &iface),
            vec![Action::Close(CloseSignal::Policy)],
            "{:?}",
            t
        );
        assert_eq!(c.state(), SessionState::AwaitingHandshake);
    }
    assert_eq!(peers.lookup(ip(10, 8, 0, 1)), None);
    assert_eq!(peers.free_count(), 0);
}

#[test]
fn grant_is_read_by_tokens_whatever_the_whitespace_between() {
    let iface = IfaceWrapper::new(String::from("wsvpn0"));
    for t in [
        "HELLO 10.8.0.2/24 10.8.0.1",
        "HELLO  10.8.0.2/24 10.8.0.1",
        "HELLO 10.8.0.2/24 10.8.0.1 ",
        "HELLO\t10.8.0.2/24\t10.8.0.1",
        "HELLO 10.8.0.2/24\r\n10.8.0.1\n",
        "HELLO \x0c 10.8.0.2/24   10.8.0.1  \t",
    ] {
        let mut peers = PeerRegistry::new();
        let mut c = Handler::new_client(2);
        c.on_open();
        assert_eq!(
            c.on_message(text(t), &mut peers, &iface),
            vec![
                Action::ConfigureInterface(b"10.8.0.2/24".to_vec()),
                Action::SendText(b"THANKS".to_vec()),
            ],
            "{:?}",
            t
        );
        assert_eq!(c.state(), SessionState::Established);
        assert_eq!(peers.lookup(ip(10, 8, 0, 1)), Some(2));
    }
}

#[test]
fn grant_with_a_gateway_that_is_no_address_is_fatal() {
    let iface = IfaceWrapper::new(String::from("wsvpn0"));
    let mut peers = PeerRegistry::new();
    let mut c = Handler::new_client(2);
    c.on_open();
    assert_eq!(
        c.on_message(text("HELLO 10.8.0.2/24 gateway"), &mut peers, &iface),
        vec![
            Action::ConfigureInterface(b"10.8.0.2/24".to_vec()),
            Action::Terminate(Fault::MalformedGateway),
        ]
    );
    assert_eq!(c.state(), SessionState::AwaitingHandshake);
    assert_eq!(
        c.on_message(text("HELLO 10.8.0.2/24 10.8.0.300"), &mut peers, &iface),
        vec![
            Action::ConfigureInterface(b"10.8.0.2/24".to_vec()),
            Action::Terminate(Fault::MalformedGateway),
        ]
    );
}

#[test]
fn client_takes_the_block_text_as_it_stands() {
    let iface = IfaceWrapper::new(String::from("wsvpn0"));
    let mut peers = PeerRegistry::new();
    let mut c = Handler::new_client(9);
    assert_eq!(
        c.on_message(text("HELLOXYZ anything 172.16.0.1"), &mut peers, &iface),
        vec![
            Action::ConfigureInterface(b"anything".to_vec()),
            Action::SendText(b"THANKS".to_vec()),
        ]
    );
    assert_eq!(peers.lookup(ip(172, 16, 0, 1)), Some(9));
}

#[test]
fn every_frame_rearms_the_idle_timeout_of_a_server() {
    let s = Handler::new_server(1);
    assert_eq!(
        s.on_frame(),
        vec![Action::ArmTimer { delay_ms: 60_000, class: TimerClass::IdleTimeout }]
    );
    let c = Handler::new_client(1);
    assert_eq!(c.on_frame(), vec![]);
}

#[test]
fn idle_timeout_closes_only_its_own_connection() {
    let iface = server_iface("10.8.0.0/24");
    let mut peers = server_registry("10.8.0.0/24");
    let mut quiet = Handler::new_server(1);
    let mut busy = Handler::new_server(2);
    quiet.on_message(text("HELLO"), &mut peers, &iface);
    busy.on_message(text("HELLO"), &mut peers, &iface);
    busy.on_frame();
    busy.on_message(Message::Binary(vec![1, 2, 3]), &mut peers, &iface);
    assert_eq!(
        quiet.on_timeout(TimerClass::IdleTimeout),
        vec![Action::Close(CloseSignal::Away)]
    );
    assert_eq!(busy.state(), SessionState::Established);
    assert_eq!(busy.ip(), Some(ip(10, 8, 0, 3)));
    assert_eq!(peers.lookup(ip(10, 8, 0, 3)), Some(2));
    assert_eq!(quiet.on_close(&mut peers), vec![]);
    assert_eq!(peers.lookup(ip(10, 8, 0, 2)), None);
    assert_eq!(peers.lookup(ip(10, 8, 0, 3)), Some(2));
}

#[test]
fn keepalive_pings_and_arms_itself_at_five_seconds() {
    let s = Handler::new_server(1);
    assert_eq!(
        s.on_timeout(TimerClass::KeepAlivePing),
        vec![
            Action::Ping,
            Action::ArmTimer { delay_ms: 5_000, class: TimerClass::KeepAlivePing },
        ]
    );
}

#[test]
fn timer_tokens_are_exactly_two() {
    assert_eq!(TimerClass::from_token(0), Some(TimerClass::KeepAlivePing));
    assert_eq!(TimerClass::from_token(1), Some(TimerClass::IdleTimeout));
    assert_eq!(TimerClass::from_token(2), None);
    assert_eq!(TimerClass::from_token(usize::MAX), None);
    assert_eq!(TimerClass::KeepAlivePing.token(), 0);
    assert_eq!(TimerClass::IdleTimeout.token(), 1);
}

#[test]
fn new_idle_timeout_cancels_the_one_before() {
    let mut s = Handler::new_server(1);
    assert_eq!(s.on_new_timeout(TimerClass::IdleTimeout, 100), vec![]);
    assert_eq!(s.timeout(), Some(100));
    assert_eq!(
        s.on_new_timeout(TimerClass::IdleTimeout, 101),
        vec![Action::CancelTimer(100)]
    );
    assert_eq!(s.timeout(), Some(101));
    assert_eq!(s.on_new_timeout(TimerClass::KeepAlivePing, 102), vec![]);
    assert_eq!(s.timeout(), Some(101));
    assert_eq!(
        s.on_new_timeout(TimerClass::IdleTimeout, 103),
        vec![Action::CancelTimer(101)]
    );
    assert_eq!(s.timeout(), Some(103));
}

#[test]
fn close_of_a_server_session_frees_its_address() {
    let iface = server_iface("10.8.0.0/30");
    let mut peers = server_registry("10.8.0.0/30");
    let mut s = Handler::new_server(1);
    s.on_open();
    s.on_message(text("HELLO"), &mut peers, &iface);
    assert_eq!(peers.free_count(), 0);
    assert_eq!(s.on_close(&mut peers), vec![]);
    assert_eq!(s.state(), SessionState::Closed);
    assert_eq!(s.ip(), Some(ip(10, 8, 0, 2)));
    assert_eq!(peers.free_count(), 1);
    let mut next = Handler::new_server(2);
    let r = next.on_message(text("HELLO"), &mut peers, &iface);
    assert_eq!(r[2], Action::SendText(b"HELLO 10.8.0.2/30 10.8.0.1".to_vec()));
    assert_eq!(peers.lookup(ip(10, 8, 0, 2)), Some(2));
}

#[test]
fn second_close_releases_nothing() {
    let iface = server_iface("10.8.0.0/30");
    let mut peers = server_registry("10.8.0.0/30");
    let mut s = Handler::new_server(1);
    s.on_message(text("HELLO"), &mut peers, &iface);
    assert_eq!(s.on_close(&mut peers), vec![]);
    let mut next = Handler::new_server(2);
    next.on_message(text("HELLO"), &mut peers, &iface);
    assert_eq!(s.on_close(&mut peers), vec![]);
    assert_eq!(peers.lookup(ip(10, 8, 0, 2)), Some(2));
}

#[test]
fn close_without_an_address_touches_nothing() {
    let mut peers = server_registry("10.8.0.0/24");
    let mut s = Handler::new_server(1);
    s.on_open();
    assert_eq!(s.on_close(&mut peers), vec![]);
    assert_eq!(s.state(), SessionState::Closed);
    assert_eq!(peers.free_count(), 253);
}

#[test]
fn close_with_the_address_gone_from_the_registry_is_fatal() {
    let iface = server_iface("10.8.0.0/24");
    let mut peers = server_registry("10.8.0.0/24");
    let mut s = Handler::new_server(1);
    s.on_message(text("HELLO"), &mut peers, &iface);
    peers.release(ip(10, 8, 0, 2)).unwrap();
    assert_eq!(
        s.on_close(&mut peers),
        vec![Action::Terminate(Fault::ReleaseOfAbsentEntry)]
    );
    assert_eq!(s.state(), SessionState::Closed);
}

#[test]
fn any_close_of_a_client_ends_the_process() {
    let mut peers = PeerRegistry::new();
    let mut c = Handler::new_client(1);
    c.on_open();
    assert_eq!(c.on_close(&mut peers), vec![Action::Terminate(Fault::ConnectionLost)]);
    assert_eq!(c.state(), SessionState::Closed);
    assert_eq!(c.on_close(&mut peers), vec![]);
}

#[test]
fn address_of_a_session_stays_through_every_event() {
    let iface = server_iface("10.8.0.0/24");
    let mut peers = server_registry("10.8.0.0/24");
    let mut s = Handler::new_server(1);
    s.on_message(text("HELLO"), &mut peers, &iface);
    let granted = s.ip();
    assert_eq!(granted, Some(ip(10, 8, 0, 2)));
    s.on_frame();
    assert_eq!(s.ip(), granted);
    s.on_message(text("THANKS"), &mut peers, &iface);
    assert_eq!(s.ip(), granted);
    s.on_message(text("HELLO"), &mut peers, &iface);
    assert_eq!(s.ip(), granted);
    s.on_timeout(TimerClass::KeepAlivePing);
    s.on_new_timeout(TimerClass::IdleTimeout, 4);
    assert_eq!(s.ip(), granted);
    s.on_close(&mut peers);
    assert_eq!(s.ip(), granted);
}

#[test]
fn session_opens_only_once() {
    let mut c = Handler::new_client(1);
    assert_eq!(c.on_open(), vec![Action::SendText(b"HELLO".to_vec())]);
    assert_eq!(c.on_open(), vec![]);
    assert_eq!(c.state(), SessionState::AwaitingHandshake);
    let iface = server_iface("10.8.0.0/24");
    let mut peers = server_registry("10.8.0.0/24");
    let mut s = Handler::new_server(2);
    s.on_open();
    s.on_message(text("HELLO"), &mut peers, &iface);
    assert_eq!(s.on_open(), vec![]);
    assert_eq!(s.state(), SessionState::Established);
}

#[test]
fn closed_session_stays_closed_and_answers_no_request() {
    let iface = server_iface("10.8.0.0/30");
    let mut peers = server_registry("10.8.0.0/30");
    let mut s = Handler::new_server(1);
    s.on_open();
    s.on_message(text("HELLO"), &mut peers, &iface);
    assert_eq!(s.on_close(&mut peers), vec![]);
    let mut other = Handler::new_server(2);
    other.on_message(text("HELLO"), &mut peers, &iface);
    assert_eq!(peers.lookup(ip(10, 8, 0, 2)), Some(2));

    assert_eq!(s.on_open(), vec![]);
    assert_eq!(s.state(), SessionState::Closed);
    assert_eq!(s.on_message(text("HELLO"), &mut peers, &iface), vec![]);
    assert_eq!(s.on_message(text("THANKS"), &mut peers, &iface), vec![]);
    assert_eq!(s.state(), SessionState::Closed);
    assert_eq!(s.on_close(&mut peers), vec![]);
    assert_eq!(peers.lookup(ip(10, 8, 0, 2)), Some(2));
    assert_eq!(peers.free_count(), 0);

    let mut unassigned = Handler::new_server(3);
    let mut wide = server_registry("10.8.0.0/24");
    let wide_iface = server_iface("10.8.0.0/24");
    unassigned.on_close(&mut wide);
    assert_eq!(unassigned.on_message(text("HELLO"), &mut wide, &wide_iface), vec![]);
    assert_eq!(unassigned.ip(), None);
    assert_eq!(wide.free_count(), 253);

    let mut client_peers = PeerRegistry::new();
    let mut c = Handler::new_client(4);
    c.on_close(&mut client_peers);
    assert_eq!(
        c.on_message(text("HELLO 10.8.0.2/24 10.8.0.1"), &mut client_peers, &iface),
        vec![]
    );
    assert_eq!(client_peers.lookup(ip(10, 8, 0, 1)), None);
}
