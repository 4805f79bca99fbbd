use runde::tunnel::{
    HostAction, HostEvent, JoinAction, JoinEvent, PeerAction, PeerEvent, Status, TunnelState,
};

fn waiting(ticket: &str) -> Status {
    Status::HostWaiting { ticket: ticket.to_string() }
}

fn connected(ticket: &str, peers: &[&str]) -> Status {
    Status::HostConnected {
        ticket: ticket.to_string(),
        peers: peers.iter().map(|p| p.to_string()).collect(),
    }
}

fn host(ticket: &str) -> TunnelState<u8> {
    let mut state: TunnelState<u8> = TunnelState::new();
    let action = state.host_step(&HostEvent::EndpointOpened { ticket: ticket.to_string() });
    assert_eq!(action, HostAction::AcceptPeer);
    state
}

fn join(state: &mut TunnelState<u8>, peer: &str) {
    let action = state.host_step(&HostEvent::PeerConnected { peer: peer.to_string() });
    assert_eq!(action, HostAction::ServePeer);
}

fn leave(state: &mut TunnelState<u8>, peer: &str, ticket: &str) {
    let action =
        state.peer_step(PeerEvent::ConnectionLost, &peer.to_string(), &ticket.to_string());
    assert_eq!(action, PeerAction::Finish);
}

#[test]
fn a_new_tunnel_is_idle() {
    let state: TunnelState<u8> = TunnelState::new();
    assert!(state.status == Status::Idle);
    assert!(state.stop_tx.is_none());
}

#[test]
fn stopping_hands_out_the_means_once() {
    let mut state = host("t");
    state.stop_tx = Some(7);
    assert_eq!(state.stop(), Some(7));
    assert!(state.status == Status::Idle);
    assert_eq!(state.stop(), None);
    assert!(state.status == Status::Idle);
}

#[test]
fn peers_come_and_go() {
    let mut state = host("t");
    assert!(state.status == waiting("t"));
    join(&mut state, "a");
    assert!(state.status == connected("t", &["a"]));
    join(&mut state, "b");
    assert!(state.status == connected("t", &["a", "b"]));
    leave(&mut state, "a", "t");
    assert!(state.status == connected("t", &["b"]));
    leave(&mut state, "x", "t");
    assert!(state.status == connected("t", &["b"]));
    leave(&mut state, "b", "t");
    assert!(state.status == waiting("t"));
}

#[test]
fn a_peer_counts_once() {
    let mut state = host("t");
    join(&mut state, "a");
    join(&mut state, "b");
    join(&mut state, "a");
    assert!(state.status == connected("t", &["a", "b"]));
}

#[test]
fn coming_and_going_leaves_the_host_as_it_was() {
    let mut state = host("t");
    join(&mut state, "a");
    join(&mut state, "b");
    leave(&mut state, "b", "t");
    assert!(state.status == connected("t", &["a"]));
}

#[test]
fn all_entries_of_a_peer_leave_together() {
    let mut state = host("t");
    state.status = connected("t", &["a", "b", "a"]);
    leave(&mut state, "a", "t");
    assert!(state.status == connected("t", &["b"]));
}

#[test]
fn the_host_waits_with_its_own_ticket() {
    let mut state = host("t");
    state.status = connected("other", &["a"]);
    leave(&mut state, "a", "t");
    assert!(state.status == waiting("t"));
}

#[test]
fn peers_do_not_wake_a_stopped_tunnel() {
    let mut state = host("t");
    join(&mut state, "a");
    state.stop();
    join(&mut state, "b");
    assert!(state.status == Status::Idle);
    leave(&mut state, "a", "t");
    assert!(state.status == Status::Idle);
}

#[test]
fn streams_leave_the_status_alone() {
    let mut state = host("t");
    join(&mut state, "a");
    let action = state.peer_step(PeerEvent::StreamOpened, &"a".to_string(), &"t".to_string());
    assert_eq!(action, PeerAction::ProxyStream);
    assert!(state.status == connected("t", &["a"]));
}

#[test]
fn host_events_that_change_nothing() {
    let mut state = host("t");
    assert_eq!(state.host_step(&HostEvent::HandshakeFailed), HostAction::AcceptPeer);
    assert_eq!(state.host_step(&HostEvent::EndpointClosed), HostAction::Close);
    assert_eq!(state.host_step(&HostEvent::StopRequested), HostAction::Close);
    assert!(state.status == waiting("t"));
}

#[test]
fn a_host_without_endpoint_shows_why() {
    let mut state: TunnelState<u8> = TunnelState::new();
    state.status = Status::HostStarting;
    let event = HostEvent::EndpointFailed { error: "no network".to_string() };
    assert_eq!(state.host_step(&event), HostAction::GiveUp);
    assert!(state.status == Status::Error("no network".to_string()));
}

fn joining() -> TunnelState<u8> {
    let mut state: TunnelState<u8> = TunnelState::new();
    state.status = Status::JoinConnecting;
    state
}

#[test]
fn joining_goes_its_way() {
    let mut state = joining();
    assert_eq!(state.join_step(&JoinEvent::TicketRead, 1), JoinAction::OpenEndpoint);
    assert_eq!(state.join_step(&JoinEvent::EndpointOpened, 1), JoinAction::Connect);
    assert!(state.status == Status::JoinConnecting);
    assert_eq!(state.join_step(&JoinEvent::Connected, 1), JoinAction::BindPort { port: 1 });
    assert!(state.status == Status::JoinConnected);
    assert_eq!(state.join_step(&JoinEvent::PortBound, 1), JoinAction::AcceptClient);
    assert_eq!(state.join_step(&JoinEvent::ClientAccepted, 1), JoinAction::ForwardClient);
    assert_eq!(state.join_step(&JoinEvent::AcceptFailed, 1), JoinAction::Close);
    assert_eq!(state.join_step(&JoinEvent::StopRequested, 1), JoinAction::Close);
    assert!(state.status == Status::JoinConnected);
}

#[test]
fn joining_shows_why_it_gave_up() {
    for (event, message) in [
        (JoinEvent::TicketRejected, "Неверный формат ticket"),
        (JoinEvent::EndpointFailed { error: "e".to_string() }, "e"),
        (
            JoinEvent::ConnectFailed { error: "timed out".to_string() },
            "Не удалось подключиться: timed out",
        ),
        (JoinEvent::PortTaken, "Порт 25565 уже занят"),
    ] {
        let mut state = joining();
        assert_eq!(state.join_step(&event, 25565), JoinAction::GiveUp);
        assert!(state.status == Status::Error(message.to_string()));
    }
}

#[test]
fn failing_keeps_the_means_to_stop() {
    let mut state = joining();
    state.stop_tx = Some(3);
    state.fail("x".to_string());
    assert!(state.status == Status::Error("x".to_string()));
    assert_eq!(state.stop_tx, Some(3));
}
