//! The tunnel: what it is doing, and how each event on the network changes that.

use vstd::prelude::*;
use vstd::string::*;

use crate::text::{decimal, decimal_of};
use crate::ticket::{
    address_in, carried, host_ticket, law_ticket_carries_the_address, read_ticket, ticket_in,
    ticket_text,
};

verus! {

/// The protocol that hosts answer calls for, and by which friends call them.
pub const ALPN: &'static str = "runde/tcp-proxy/0";

/// The address under which this machine reaches itself, and nobody else reaches it: there the
/// host's server is called, and there a friend's port is open.
pub const LOOPBACK: &'static str = "127.0.0.1";

/// What the tunnel is doing.
#[derive(Clone, PartialEq)]
pub enum Status {
    /// Nothing runs.
    Idle,
    /// The host's endpoint is being opened.
    HostStarting,
    /// The ticket can be handed out and nobody has come yet.
    HostWaiting { ticket: String },
    /// The peers are connected.
    HostConnected { ticket: String, peers: Vec<String> },
    /// The host is being called.
    JoinConnecting,
    /// The host has answered.
    JoinConnected,
    /// The last attempt failed.
    Error(String),
}

/// A status as mathematics sees it.
pub enum StatusModel {
    Idle,
    HostStarting,
    HostWaiting { ticket: Seq<char> },
    HostConnected { ticket: Seq<char>, peers: Seq<Seq<char>> },
    JoinConnecting,
    JoinConnected,
    Error(Seq<char>),
}

impl View for Status {
    type V = StatusModel;

    open spec fn view(&self) -> StatusModel {
        match self {
            Status::Idle => StatusModel::Idle,
            Status::HostStarting => StatusModel::HostStarting,
            Status::HostWaiting { ticket } => StatusModel::HostWaiting { ticket: ticket@ },
            Status::HostConnected { ticket, peers } => StatusModel::HostConnected {
                ticket: ticket@,
                peers: peers.deep_view(),
            },
            Status::JoinConnecting => StatusModel::JoinConnecting,
            Status::JoinConnected => StatusModel::JoinConnected,
            Status::Error(message) => StatusModel::Error(message@),
        }
    }
}

/// The status after `peer` has connected. A host that waits or serves counts it once; any other
/// status is left alone.
pub open spec fn joined(status: StatusModel, peer: Seq<char>) -> StatusModel {
    match status {
        StatusModel::HostWaiting { ticket } => StatusModel::HostConnected {
            ticket,
            peers: seq![peer],
        },
        StatusModel::HostConnected { ticket, peers } => if peers.contains(peer) {
            status
        } else {
            StatusModel::HostConnected { ticket, peers: peers.push(peer) }
        },
        _ => status,
    }
}

/// `peers` without `peer`.
pub open spec fn without(peers: Seq<Seq<char>>, peer: Seq<char>) -> Seq<Seq<char>> {
    peers.filter(|p: Seq<char>| p != peer)
}

/// The status after the connection to `peer` was lost. The host waits again, with `ticket`, once
/// nobody is left.
pub open spec fn left(
    status: StatusModel,
    peer: Seq<char>,
    ticket: Seq<char>,
) -> StatusModel {
    match status {
        StatusModel::HostConnected { ticket: shown, peers } => if without(peers, peer).len() == 0 {
            StatusModel::HostWaiting { ticket }
        } else {
            StatusModel::HostConnected { ticket: shown, peers: without(peers, peer) }
        },
        _ => status,
    }
}

/// What can happen to a hosting task.
pub enum HostEvent {
    /// The endpoint could not be opened.
    EndpointFailed { error: String },
    /// The endpoint is open; `ticket` names it.
    EndpointOpened { ticket: String },
    /// The endpoint takes no more connections.
    EndpointClosed,
    /// A peer called and the connection did not come about.
    HandshakeFailed,
    /// A peer is connected.
    PeerConnected { peer: String },
    /// The user stopped the tunnel.
    StopRequested,
}

/// A host event as mathematics sees it.
pub enum HostEventModel {
    EndpointFailed { error: Seq<char> },
    EndpointOpened { ticket: Seq<char> },
    EndpointClosed,
    HandshakeFailed,
    PeerConnected { peer: Seq<char> },
    StopRequested,
}

impl View for HostEvent {
    type V = HostEventModel;

    open spec fn view(&self) -> HostEventModel {
        match self {
            HostEvent::EndpointFailed { error } => HostEventModel::EndpointFailed { error: error@ },
            HostEvent::EndpointOpened { ticket } => HostEventModel::EndpointOpened {
                ticket: ticket@,
            },
            HostEvent::EndpointClosed => HostEventModel::EndpointClosed,
            HostEvent::HandshakeFailed => HostEventModel::HandshakeFailed,
            HostEvent::PeerConnected { peer } => HostEventModel::PeerConnected { peer: peer@ },
            HostEvent::StopRequested => HostEventModel::StopRequested,
        }
    }
}

/// What a hosting task does next.
#[derive(Clone, Copy, Debug, PartialEq, Eq, Structural)]
pub enum HostAction {
    /// Wait for the next peer.
    AcceptPeer,
    /// Serve the peer that came, beside waiting for the next one.
    ServePeer,
    /// Close the endpoint and end.
    Close,
    /// End; there is no endpoint to close.
    GiveUp,
}

/// The status after an event of a hosting task.
pub open spec fn host_status(status: StatusModel, event: HostEventModel) -> StatusModel {
    match event {
        HostEventModel::EndpointFailed { error } => StatusModel::Error(error),
        HostEventModel::EndpointOpened { ticket } => StatusModel::HostWaiting { ticket },
        HostEventModel::PeerConnected { peer } => joined(status, peer),
        _ => status,
    }
}

/// What a hosting task does after an event.
pub open spec fn host_action(event: HostEventModel) -> HostAction {
    match event {
        HostEventModel::EndpointFailed { .. } => HostAction::GiveUp,
        HostEventModel::EndpointOpened { .. } => HostAction::AcceptPeer,
        HostEventModel::EndpointClosed => HostAction::Close,
        HostEventModel::HandshakeFailed => HostAction::AcceptPeer,
        HostEventModel::PeerConnected { .. } => HostAction::ServePeer,
        HostEventModel::StopRequested => HostAction::Close,
    }
}

/// What can happen on the connection to a peer.
#[derive(Clone, Copy, Debug, PartialEq, Eq, Structural)]
pub enum PeerEvent {
    /// The peer opened a stream.
    StreamOpened,
    /// The connection is gone.
    ConnectionLost,
}

/// What the task that serves a peer does next.
#[derive(Clone, Copy, Debug, PartialEq, Eq, Structural)]
pub enum PeerAction {
    /// Connect the stream to the server, beside waiting for the next stream.
    ProxyStream,
    /// End.
    Finish,
}

/// The status after an event on the connection to `peer`.
pub open spec fn peer_status(
    status: StatusModel,
    event: PeerEvent,
    peer: Seq<char>,
    ticket: Seq<char>,
) -> StatusModel {
    match event {
        PeerEvent::StreamOpened => status,
        PeerEvent::ConnectionLost => left(status, peer, ticket),
    }
}

/// What the task that serves a peer does after an event.
pub open spec fn peer_action(event: PeerEvent) -> PeerAction {
    match event {
        PeerEvent::StreamOpened => PeerAction::ProxyStream,
        PeerEvent::ConnectionLost => PeerAction::Finish,
    }
}

/// What can happen to a joining task.
pub enum JoinEvent {
    /// The ticket does not name an endpoint.
    TicketRejected,
    /// The ticket names an endpoint.
    TicketRead,
    /// The endpoint could not be opened.
    EndpointFailed { error: String },
    /// The endpoint is open.
    EndpointOpened,
    /// The host did not answer.
    ConnectFailed { error: String },
    /// The host has answered.
    Connected,
    /// The local port is in use.
    PortTaken,
    /// The local port is open.
    PortBound,
    /// A client connected to the local port.
    ClientAccepted,
    /// The local port takes no more clients.
    AcceptFailed,
    /// The user stopped the tunnel.
    StopRequested,
}

/// A join event as mathematics sees it.
pub enum JoinEventModel {
    TicketRejected,
    TicketRead,
    EndpointFailed { error: Seq<char> },
    EndpointOpened,
    ConnectFailed { error: Seq<char> },
    Connected,
    PortTaken,
    PortBound,
    ClientAccepted,
    AcceptFailed,
    StopRequested,
}

impl View for JoinEvent {
    type V = JoinEventModel;

    open spec fn view(&self) -> JoinEventModel {
        match self {
            JoinEvent::TicketRejected => JoinEventModel::TicketRejected,
            JoinEvent::TicketRead => JoinEventModel::TicketRead,
            JoinEvent::EndpointFailed { error } => JoinEventModel::EndpointFailed { error: error@ },
            JoinEvent::EndpointOpened => JoinEventModel::EndpointOpened,
            JoinEvent::ConnectFailed { error } => JoinEventModel::ConnectFailed { error: error@ },
            JoinEvent::Connected => JoinEventModel::Connected,
            JoinEvent::PortTaken => JoinEventModel::PortTaken,
            JoinEvent::PortBound => JoinEventModel::PortBound,
            JoinEvent::ClientAccepted => JoinEventModel::ClientAccepted,
            JoinEvent::AcceptFailed => JoinEventModel::AcceptFailed,
            JoinEvent::StopRequested => JoinEventModel::StopRequested,
        }
    }
}

/// What a joining task does next.
#[derive(Clone, Copy, Debug, PartialEq, Eq, Structural)]
pub enum JoinAction {
    /// Open an endpoint.
    OpenEndpoint,
    /// Call the host, by `ALPN`.
    Connect,
    /// Open this port, on `LOOPBACK` alone.
    BindPort { port: u16 },
    /// Wait for the next client.
    AcceptClient,
    /// Forward the client that came, beside waiting for the next one.
    ForwardClient,
    /// Close the endpoint and end.
    Close,
    /// End without more ado.
    GiveUp,
}

/// The status after an event of a joining task that offers `local_port`.
pub open spec fn join_status(
    status: StatusModel,
    event: JoinEventModel,
    local_port: u16,
) -> StatusModel {
    match event {
        JoinEventModel::TicketRejected => StatusModel::Error("Неверный формат ticket"@),
        JoinEventModel::EndpointFailed { error } => StatusModel::Error(error),
        JoinEventModel::ConnectFailed { error } => StatusModel::Error(
            "Не удалось подключиться: "@ + error,
        ),
        JoinEventModel::Connected => StatusModel::JoinConnected,
        JoinEventModel::PortTaken => StatusModel::Error(
            "Порт "@ + decimal(local_port as nat) + " уже занят"@,
        ),
        _ => status,
    }
}

/// What a joining task that offers `local_port` does after an event.
pub open spec fn join_action(event: JoinEventModel, local_port: u16) -> JoinAction {
    match event {
        JoinEventModel::TicketRejected => JoinAction::GiveUp,
        JoinEventModel::TicketRead => JoinAction::OpenEndpoint,
        JoinEventModel::EndpointFailed { .. } => JoinAction::GiveUp,
        JoinEventModel::EndpointOpened => JoinAction::Connect,
        JoinEventModel::ConnectFailed { .. } => JoinAction::GiveUp,
        JoinEventModel::Connected => JoinAction::BindPort { port: local_port },
        JoinEventModel::PortTaken => JoinAction::GiveUp,
        JoinEventModel::PortBound => JoinAction::AcceptClient,
        JoinEventModel::ClientAccepted => JoinAction::ForwardClient,
        JoinEventModel::AcceptFailed => JoinAction::Close,
        JoinEventModel::StopRequested => JoinAction::Close,
    }
}

/// The tunnel: its status, and the means to stop the task that runs it.
pub struct TunnelState<S> {
    pub status: Status,
    pub stop_tx: Option<S>,
}

impl<S> TunnelState<S> {
    /// A tunnel that does nothing.
    pub fn new() -> (r: Self)
        ensures
            r.status@ == StatusModel::Idle,
            r.stop_tx is None,
    {
        TunnelState { status: Status::Idle, stop_tx: None }
    }

    /// Makes the tunnel idle and hands out the means to stop its task, where one runs. The
    /// caller signals it; a second call has nothing left to hand out.
    pub fn stop(&mut self) -> (r: Option<S>)
        ensures
            r == old(self).stop_tx,
            final(self).status@ == StatusModel::Idle,
            final(self).stop_tx is None,
    {
        let tx = self.stop_tx.take();
        self.status = Status::Idle;
        tx
    }

    /// Counts `peer` among the connected peers.
    pub fn peer_joined(&mut self, peer: &String)
        ensures
            final(self).status@ == joined(old(self).status@, peer@),
            final(self).stop_tx == old(self).stop_tx,
    {
        match &mut self.status {
            Status::HostWaiting { ticket } => {
                let t = ticket.clone();
                let mut peers: Vec<String> = Vec::new();
                peers.push(peer.clone());
                assert(peers.deep_view() =~= seq![peer@]);
                self.status = Status::HostConnected { ticket: t, peers };
            },
            Status::HostConnected { ticket: _, peers } => {
                if !has_peer(peers, peer) {
                    let ghost before = peers.deep_view();
                    peers.push(peer.clone());
                    assert(peers.deep_view() =~= before.push(peer@));
                }
            },
            _ => {},
        }
    }

    /// Takes `peer` off the connected peers. `ticket` is the one to wait with once nobody is left.
    pub fn peer_left(&mut self, peer: &String, ticket: &String)
        ensures
            final(self).status@ == left(old(self).status@, peer@, ticket@),
            final(self).stop_tx == old(self).stop_tx,
    {
        match &mut self.status {
            Status::HostConnected { ticket: _, peers } => {
                let rest = other_peers(peers, peer);
                if rest.len() == 0 {
                    self.status = Status::HostWaiting { ticket: ticket.clone() };
                } else {
                    *peers = rest;
                }
            },
            _ => {},
        }
    }

    /// Ends an attempt with an error to show.
    pub fn fail(&mut self, message: String)
        ensures
            final(self).status@ == StatusModel::Error(message@),
            final(self).stop_tx == old(self).stop_tx,
    {
        self.status = Status::Error(message);
    }

    /// Takes the next event of a hosting task, and says what the task does next.
    pub fn host_step(&mut self, event: &HostEvent) -> (r: HostAction)
        ensures
            final(self).status@ == host_status(old(self).status@, event@),
            final(self).stop_tx == old(self).stop_tx,
            r == host_action(event@),
    {
        match event {
            HostEvent::EndpointFailed { error } => {
                self.fail(error.clone());
                HostAction::GiveUp
            },
            HostEvent::EndpointOpened { ticket } => {
                self.status = Status::HostWaiting { ticket: ticket.clone() };
                HostAction::AcceptPeer
            },
            HostEvent::EndpointClosed => HostAction::Close,
            HostEvent::HandshakeFailed => HostAction::AcceptPeer,
            HostEvent::PeerConnected { peer } => {
                self.peer_joined(peer);
                HostAction::ServePeer
            },
            HostEvent::StopRequested => HostAction::Close,
        }
    }

    /// The host's endpoint is open and has the address with the bytes `bytes`: shows the ticket
    /// that carries them, and returns its text. Whoever reads the text gets these bytes, and what
    /// they read as.
    pub fn host_opened(&mut self, bytes: &[u8]) -> (r: String)
        ensures
            r@ == ticket_text(bytes@),
            final(self).status@ == (StatusModel::HostWaiting { ticket: ticket_text(bytes@) }),
            final(self).stop_tx == old(self).stop_tx,
            carried(r@) == Some(bytes@),
            ticket_in(r@) == address_in(bytes@),
    {
        let ticket = host_ticket(bytes);
        let event = HostEvent::EndpointOpened { ticket: ticket.clone() };
        self.host_step(&event);
        proof {
            law_ticket_carries_the_address(bytes@);
        }
        ticket
    }

    /// Reads the ticket that a joining task starts with, and returns the bytes that it carries.
    /// Text that is no ticket ends the task with an error to show.
    pub fn join_ticket(&mut self, ticket: &str) -> (r: Option<Vec<u8>>)
        ensures
            r is Some <==> ticket_in(ticket@) is Some,
            r matches Some(bytes) ==> carried(ticket@) == Some(bytes@),
            final(self).status@ == (if ticket_in(ticket@) is Some {
                old(self).status@
            } else {
                StatusModel::Error("Неверный формат ticket"@)
            }),
            final(self).stop_tx == old(self).stop_tx,
    {
        match read_ticket(ticket) {
            Ok(bytes) => Some(bytes),
            Err(_) => {
                self.join_step(&JoinEvent::TicketRejected, 0);
                None
            },
        }
    }

    /// Takes the next event on the connection to `peer`, and says what the task that serves the
    /// peer does next. `ticket` is the host's own.
    pub fn peer_step(&mut self, event: PeerEvent, peer: &String, ticket: &String) -> (r: PeerAction)
        ensures
            final(self).status@ == peer_status(old(self).status@, event, peer@, ticket@),
            final(self).stop_tx == old(self).stop_tx,
            r == peer_action(event),
    {
        match event {
            PeerEvent::StreamOpened => PeerAction::ProxyStream,
            PeerEvent::ConnectionLost => {
                self.peer_left(peer, ticket);
                PeerAction::Finish
            },
        }
    }

    /// Takes the next event of a joining task, and says what the task does next. `local_port` is
    /// the port that the task offers on this machine.
    pub fn join_step(&mut self, event: &JoinEvent, local_port: u16) -> (r: JoinAction)
        ensures
            final(self).status@ == join_status(old(self).status@, event@, local_port),
            final(self).stop_tx == old(self).stop_tx,
            r == join_action(event@, local_port),
    {
        match event {
            JoinEvent::TicketRejected => {
                self.fail("Неверный формат ticket".to_owned());
                JoinAction::GiveUp
            },
            JoinEvent::TicketRead => JoinAction::OpenEndpoint,
            JoinEvent::EndpointFailed { error } => {
                self.fail(error.clone());
                JoinAction::GiveUp
            },
            JoinEvent::EndpointOpened => JoinAction::Connect,
            JoinEvent::ConnectFailed { error } => {
                self.fail("Не удалось подключиться: ".to_owned().concat(error.as_str()));
                JoinAction::GiveUp
            },
            JoinEvent::Connected => {
                self.status = Status::JoinConnected;
                JoinAction::BindPort { port: local_port }
            },
            JoinEvent::PortTaken => {
                let number = decimal_of(local_port as u64);
                self.fail(
                    "Порт ".to_owned().concat(number.as_str()).concat(" уже занят"),
                );
                JoinAction::GiveUp
            },
            JoinEvent::PortBound => JoinAction::AcceptClient,
            JoinEvent::ClientAccepted => JoinAction::ForwardClient,
            JoinEvent::AcceptFailed => JoinAction::Close,
            JoinEvent::StopRequested => JoinAction::Close,
        }
    }
}

/// Whether `peer` is among `peers`.
fn has_peer(peers: &Vec<String>, peer: &String) -> (r: bool)
    ensures
        r == peers.deep_view().contains(peer@),
{
    for i in 0..peers.len()
        invariant
            forall|j: int| 0 <= j < i ==> peers.deep_view()[j] != peer@,
    {
        if peers[i] == *peer {
            assert(peers.deep_view()[i as int] == peer@);
            return true;
        }
    }
    false
}

/// `peers` without `peer`, in the same order.
fn other_peers(peers: &Vec<String>, peer: &String) -> (r: Vec<String>)
    ensures
        r.deep_view() == without(peers.deep_view(), peer@),
{
    let mut rest: Vec<String> = Vec::new();
    let ghost all = peers.deep_view();
    let ghost keep = |p: Seq<char>| p != peer@;
    assert(rest.deep_view() =~= all.take(0).filter(keep)) by {
        reveal(Seq::filter);
    }
    for i in 0..peers.len()
        invariant
            all == peers.deep_view(),
            keep == (|p: Seq<char>| p != peer@),
            rest.deep_view() == all.take(i as int).filter(keep),
    {
        let ghost before = rest.deep_view();
        if peers[i] != *peer {
            rest.push(peers[i].clone());
            assert(rest.deep_view() =~= before.push(all[i as int]));
        }
        proof {
            reveal(Seq::filter);
            assert(all.take(i + 1).drop_last() =~= all.take(i as int));
        }
    }
    assert(all.take(all.len() as int) =~= all);
    rest
}

/// A status that makes sense: a host with peers has at least one, and none twice.
pub open spec fn sound(status: StatusModel) -> bool {
    status matches StatusModel::HostConnected { ticket, peers } ==> peers.len() > 0
        && peers.no_duplicates()
}

/// A peer that connects leaves a sound status sound.
pub proof fn law_joined_keeps_sound(status: StatusModel, peer: Seq<char>)
    requires
        sound(status),
    ensures
        sound(joined(status, peer)),
{
}

/// A peer that leaves leaves a sound status sound.
pub proof fn law_left_keeps_sound(status: StatusModel, peer: Seq<char>, ticket: Seq<char>)
    requires
        sound(status),
    ensures
        sound(left(status, peer, ticket)),
{
    if let StatusModel::HostConnected { ticket: _, peers } = status {
        lemma_without(peers, peer);
    }
}

/// `without` keeps the others, and them only, in their order and without repetition.
pub proof fn lemma_without(peers: Seq<Seq<char>>, peer: Seq<char>)
    ensures
        forall|p: Seq<char>| #[trigger] without(peers, peer).contains(p) <==> peers.contains(p) && p
            != peer,
        peers.no_duplicates() ==> without(peers, peer).no_duplicates(),
    decreases peers.len(),
{
    reveal(Seq::filter);
    let rest = without(peers, peer);
    if peers.len() > 0 {
        let init = peers.drop_last();
        let last = peers.last();
        let sub = without(init, peer);
        lemma_without(init, peer);
        assert(init.push(last) =~= peers);
        assert forall|p: Seq<char>| #[trigger] rest.contains(p) <==> peers.contains(p) && p
            != peer by {
            if rest.contains(p) {
                let i = choose|i: int| 0 <= i < rest.len() && rest[i] == p;
                if i < sub.len() {
                    assert(sub[i] == p);
                    assert(sub.contains(p));
                    let k = choose|k: int| 0 <= k < init.len() && init[k] == p;
                    assert(peers[k] == p);
                } else {
                    assert(p == last);
                    assert(peers[peers.len() - 1] == p);
                }
            }
            if peers.contains(p) && p != peer {
                let k = choose|k: int| 0 <= k < peers.len() && peers[k] == p;
                if k < init.len() {
                    assert(init[k] == p);
                    assert(sub.contains(p));
                    let i = choose|i: int| 0 <= i < sub.len() && sub[i] == p;
                    assert(rest[i] == p);
                } else {
                    assert(rest[rest.len() - 1] == p);
                }
            }
        }
        if peers.no_duplicates() {
            assert(init.no_duplicates());
            if last != peer {
                assert(!init.contains(last)) by {
                    if init.contains(last) {
                        let k = choose|k: int| 0 <= k < init.len() && init[k] == last;
                        assert(peers[k] == peers[peers.len() - 1]);
                    }
                }
                assert(!sub.contains(last));
            }
        }
    } else {
        assert(rest =~= Seq::<Seq<char>>::empty());
    }
}

/// Nothing is taken out where `peer` is not there.
proof fn lemma_without_absent(peers: Seq<Seq<char>>, peer: Seq<char>)
    requires
        !peers.contains(peer),
    ensures
        without(peers, peer) == peers,
    decreases peers.len(),
{
    reveal(Seq::filter);
    if peers.len() > 0 {
        let init = peers.drop_last();
        assert(peers[peers.len() - 1] == peers.last());
        assert(!init.contains(peer)) by {
            if init.contains(peer) {
                let k = choose|k: int| 0 <= k < init.len() && init[k] == peer;
                assert(peers[k] == peer);
            }
        }
        lemma_without_absent(init, peer);
        assert(init.push(peers.last()) =~= peers);
    } else {
        assert(without(peers, peer) =~= peers);
    }
}

/// The ticket of a host that is up.
pub open spec fn ticket_of(status: StatusModel) -> Option<Seq<char>> {
    match status {
        StatusModel::HostWaiting { ticket } => Some(ticket),
        StatusModel::HostConnected { ticket, .. } => Some(ticket),
        _ => None,
    }
}

/// The peers that a status counts.
pub open spec fn peers_of(status: StatusModel) -> Seq<Seq<char>> {
    match status {
        StatusModel::HostConnected { peers, .. } => peers,
        _ => Seq::empty(),
    }
}

/// A peer that comes and goes leaves the status as it was.
pub proof fn law_left_undoes_joined(status: StatusModel, peer: Seq<char>, ticket: Seq<char>)
    requires
        sound(status),
        ticket_of(status) matches Some(shown) ==> shown == ticket,
        !peers_of(status).contains(peer),
    ensures
        left(joined(status, peer), peer, ticket) == status,
{
    reveal(Seq::filter);
    match status {
        StatusModel::HostWaiting { .. } => {
            lemma_without_absent(Seq::empty(), peer);
            assert(seq![peer].drop_last() =~= Seq::<Seq<char>>::empty());
            assert(without(seq![peer], peer) =~= Seq::<Seq<char>>::empty());
        },
        StatusModel::HostConnected { peers, .. } => {
            lemma_without_absent(peers, peer);
            assert(peers.push(peer).drop_last() =~= peers);
            assert(without(peers.push(peer), peer) =~= peers);
        },
        _ => {},
    }
}

/// A second connection of a peer changes nothing.
pub proof fn law_joined_once(status: StatusModel, peer: Seq<char>)
    ensures
        joined(joined(status, peer), peer) == joined(status, peer),
{
    match status {
        StatusModel::HostWaiting { .. } => {
            assert(seq![peer][0] == peer);
        },
        StatusModel::HostConnected { peers, .. } => {
            assert(peers.push(peer)[peers.len() as int] == peer);
        },
        _ => {},
    }
}

/// Peers that come or go while nothing is hosted, such as after a stop, change nothing.
pub proof fn law_peers_do_not_wake(status: StatusModel, peer: Seq<char>, ticket: Seq<char>)
    requires
        ticket_of(status) is None,
    ensures
        joined(status, peer) == status,
        left(status, peer, ticket) == status,
{
}

/// A hosting task that gives up shows why; no other event but the opening of the endpoint and the
/// coming of a peer changes what is shown.
pub proof fn law_host_gives_up_with_reason(status: StatusModel, event: HostEventModel)
    ensures
        host_action(event) == HostAction::GiveUp <==> event is EndpointFailed,
        event matches HostEventModel::EndpointFailed { error } ==> host_status(status, event)
            == StatusModel::Error(error),
        !(event is EndpointFailed || event is EndpointOpened || event is PeerConnected)
            ==> host_status(status, event) == status,
{
}

/// A joining task that gives up shows an error; one that the host has answered shows that; nothing
/// else changes what is shown.
pub proof fn law_join_gives_up_with_reason(
    status: StatusModel,
    event: JoinEventModel,
    local_port: u16,
)
    ensures
        join_action(event, local_port) == JoinAction::GiveUp ==> join_status(
            status,
            event,
            local_port,
        ) is Error,
        event == JoinEventModel::Connected ==> join_status(status, event, local_port)
            == StatusModel::JoinConnected,
        !(join_action(event, local_port) == JoinAction::GiveUp || event == JoinEventModel::Connected)
            ==> join_status(status, event, local_port) == status,
{
}

/// A peer that came or went.
pub enum PeerChange {
    Joined(Seq<char>),
    Left(Seq<char>),
}

/// The status of a host that opened with `ticket` and whose tasks met `changes` since.
pub open spec fn after(ticket: Seq<char>, changes: Seq<PeerChange>) -> StatusModel
    decreases changes.len(),
{
    if changes.len() == 0 {
        StatusModel::HostWaiting { ticket }
    } else {
        let before = after(ticket, changes.drop_last());
        match changes.last() {
            PeerChange::Joined(peer) => host_status(before, HostEventModel::PeerConnected { peer }),
            PeerChange::Left(peer) => peer_status(before, PeerEvent::ConnectionLost, peer, ticket),
        }
    }
}

/// Whether the last that `changes` tell of `peer` is that it came.
pub open spec fn online(changes: Seq<PeerChange>, peer: Seq<char>) -> bool
    decreases changes.len(),
{
    if changes.len() == 0 {
        false
    } else {
        match changes.last() {
            PeerChange::Joined(p) => p == peer || online(changes.drop_last(), peer),
            PeerChange::Left(p) => p != peer && online(changes.drop_last(), peer),
        }
    }
}

/// Whatever came and went, a host shows exactly the peers that are there, each once, under the
/// ticket that it opened with, and waits exactly when nobody is there.
pub proof fn law_host_shows_who_is_there(ticket: Seq<char>, changes: Seq<PeerChange>)
    ensures
        sound(after(ticket, changes)),
        ticket_of(after(ticket, changes)) == Some(ticket),
        forall|p: Seq<char>|
            #[trigger] peers_of(after(ticket, changes)).contains(p) <==> online(changes, p),
        after(ticket, changes) == (StatusModel::HostWaiting { ticket }) <==> (forall|p: Seq<char>|
            !#[trigger] online(changes, p)),
    decreases changes.len(),
{
    let now = after(ticket, changes);
    if changes.len() > 0 {
        let earlier = changes.drop_last();
        let before = after(ticket, earlier);
        law_host_shows_who_is_there(ticket, earlier);
        match changes.last() {
            PeerChange::Joined(peer) => {
                law_joined_keeps_sound(before, peer);
                assert forall|p: Seq<char>| #[trigger] peers_of(now).contains(p) <==> online(
                    changes,
                    p,
                ) by {
                    let old_peers = peers_of(before);
                    assert(peers_of(before).contains(p) <==> online(earlier, p));
                    if old_peers.contains(peer) {
                        assert(peers_of(now) == old_peers);
                    } else {
                        assert(peers_of(now) =~= old_peers.push(peer));
                        assert(peers_of(now)[old_peers.len() as int] == peer);
                        if old_peers.contains(p) {
                            let k = choose|k: int| 0 <= k < old_peers.len() && old_peers[k] == p;
                            assert(peers_of(now)[k] == p);
                        }
                        if peers_of(now).contains(p) && p != peer {
                            let k = choose|k: int|
                                0 <= k < peers_of(now).len() && peers_of(now)[k] == p;
                            assert(old_peers[k] == p);
                        }
                    }
                }
            },
            PeerChange::Left(peer) => {
                law_left_keeps_sound(before, peer, ticket);
                assert forall|p: Seq<char>| #[trigger] peers_of(now).contains(p) <==> online(
                    changes,
                    p,
                ) by {
                    assert(peers_of(before).contains(p) <==> online(earlier, p));
                    lemma_without(peers_of(before), peer);
                    reveal(Seq::filter);
                    assert(without(peers_of(before), peer).contains(p) <==> peers_of(
                        before,
                    ).contains(p) && p != peer);
                    if without(peers_of(before), peer).len() == 0 {
                        assert(!without(peers_of(before), peer).contains(p));
                    }
                }
            },
        }
    }
    if now == (StatusModel::HostWaiting { ticket }) {
        assert forall|p: Seq<char>| !#[trigger] online(changes, p) by {
            assert(!peers_of(now).contains(p));
        }
    } else {
        let first = peers_of(now)[0];
        assert(peers_of(now).contains(first));
        assert(online(changes, first));
    }
}

/// A model of a status holds what the status holds: the same ticket, the same peers, as many and
/// in the same order, the same message.
pub proof fn law_status_is_seen_whole(status: Status)
    ensures
        status is Idle <==> status@ is Idle,
        status is HostStarting <==> status@ is HostStarting,
        status is JoinConnecting <==> status@ is JoinConnecting,
        status is JoinConnected <==> status@ is JoinConnected,
        status matches Status::HostWaiting { ticket } ==> status@ == (StatusModel::HostWaiting {
            ticket: ticket@,
        }),
        status matches Status::HostConnected { ticket, peers } ==> {
            &&& status@ is HostConnected
            &&& status@->HostConnected_ticket == ticket@
            &&& status@->HostConnected_peers.len() == peers@.len()
            &&& forall|i: int|
                0 <= i < peers@.len() ==> #[trigger] status@->HostConnected_peers[i] == peers@[i]@
        },
        status matches Status::Error(message) ==> status@ == StatusModel::Error(message@),
{
}

/// A model of an event of a hosting task holds what the event holds.
pub proof fn law_host_event_is_seen_whole(event: HostEvent)
    ensures
        event matches HostEvent::EndpointFailed { error } ==> event@
            == (HostEventModel::EndpointFailed { error: error@ }),
        event matches HostEvent::EndpointOpened { ticket } ==> event@
            == (HostEventModel::EndpointOpened { ticket: ticket@ }),
        event matches HostEvent::PeerConnected { peer } ==> event@
            == (HostEventModel::PeerConnected { peer: peer@ }),
        event is EndpointClosed <==> event@ is EndpointClosed,
        event is HandshakeFailed <==> event@ is HandshakeFailed,
        event is StopRequested <==> event@ is StopRequested,
{
}

/// A model of an event of a joining task holds what the event holds.
pub proof fn law_join_event_is_seen_whole(event: JoinEvent)
    ensures
        event matches JoinEvent::EndpointFailed { error } ==> event@
            == (JoinEventModel::EndpointFailed { error: error@ }),
        event matches JoinEvent::ConnectFailed { error } ==> event@
            == (JoinEventModel::ConnectFailed { error: error@ }),
        event is TicketRejected <==> event@ is TicketRejected,
        event is TicketRead <==> event@ is TicketRead,
        event is EndpointOpened <==> event@ is EndpointOpened,
        event is Connected <==> event@ is Connected,
        event is PortTaken <==> event@ is PortTaken,
        event is PortBound <==> event@ is PortBound,
        event is ClientAccepted <==> event@ is ClientAccepted,
        event is AcceptFailed <==> event@ is AcceptFailed,
        event is StopRequested <==> event@ is StopRequested,
{
}

/// A peer that connects to a host is listed from then on, behind all who were listed before, who
/// stay in their order; nobody else is, nobody is twice who was once, and the ticket stays. It
/// makes no difference how many are there already.
pub proof fn law_host_lists_a_peer_that_connects(
    ticket: Seq<char>,
    peers: Seq<Seq<char>>,
    peer: Seq<char>,
)
    ensures
        ({
            let event = HostEventModel::PeerConnected { peer };
            let from_waiting = host_status(StatusModel::HostWaiting { ticket }, event);
            let from_connected = host_status(StatusModel::HostConnected { ticket, peers }, event);
            &&& from_waiting is HostConnected
            &&& from_waiting->HostConnected_ticket == ticket
            &&& from_waiting->HostConnected_peers == seq![peer]
            &&& from_connected is HostConnected
            &&& from_connected->HostConnected_ticket == ticket
            &&& from_connected->HostConnected_peers.contains(peer)
            &&& peers.is_prefix_of(from_connected->HostConnected_peers)
            &&& peers.contains(peer) ==> from_connected->HostConnected_peers.len() == peers.len()
            &&& !peers.contains(peer) ==> from_connected->HostConnected_peers.len() == peers.len()
                + 1
        }),
{
    if !peers.contains(peer) {
        assert(peers.push(peer)[peers.len() as int] == peer);
    }
}

/// `without` keeps what any test keeps that only `peer` fails.
proof fn lemma_without_is_filter(
    peers: Seq<Seq<char>>,
    peer: Seq<char>,
    keep: spec_fn(Seq<char>) -> bool,
)
    requires
        forall|p: Seq<char>| #[trigger] keep(p) <==> p != peer,
    ensures
        without(peers, peer) == peers.filter(keep),
    decreases peers.len(),
{
    reveal(Seq::filter);
    if peers.len() > 0 {
        lemma_without_is_filter(peers.drop_last(), peer, keep);
        assert(keep(peers.last()) <==> peers.last() != peer);
    } else {
        assert(without(peers, peer) =~= peers.filter(keep));
    }
}

/// A peer whose connection is lost is listed no more, however often it was; all others are, in
/// their order. The host waits, with its own ticket, exactly when nobody else was there.
pub proof fn law_host_drops_a_peer_that_is_lost(
    shown: Seq<char>,
    peers: Seq<Seq<char>>,
    peer: Seq<char>,
    ticket: Seq<char>,
)
    ensures
        ({
            let now = peer_status(
                StatusModel::HostConnected { ticket: shown, peers },
                PeerEvent::ConnectionLost,
                peer,
                ticket,
            );
            let others = peers.filter(|p: Seq<char>| p != peer);
            &&& others.len() == 0 ==> now == (StatusModel::HostWaiting { ticket })
            &&& others.len() > 0 ==> now == (StatusModel::HostConnected {
                ticket: shown,
                peers: others,
            })
            &&& others.len() == 0 <==> (forall|i: int|
                0 <= i < peers.len() ==> #[trigger] peers[i] == peer)
        }),
{
    let others = without(peers, peer);
    lemma_without(peers, peer);
    lemma_without_is_filter(peers, peer, |p: Seq<char>| p != peer);
    if others.len() == 0 {
        assert forall|i: int| 0 <= i < peers.len() implies #[trigger] peers[i] == peer by {
            assert(peers.contains(peers[i]));
            assert(!others.contains(peers[i]));
        }
    } else {
        assert(others.contains(others[0]));
        assert(peers.contains(others[0]) && others[0] != peer);
        let k = choose|k: int| 0 <= k < peers.len() && peers[k] == others[0];
        assert(peers[k] != peer);
    }
}

/// Of the events of a hosting task, only the opening of the endpoint, its failure and the coming of
/// a peer change what is shown, and the last only where a host is up. A stream never does, nor does
/// a lost connection where nobody is listed.
pub proof fn law_host_shows_nothing_else(
    status: StatusModel,
    event: HostEventModel,
    peer: Seq<char>,
    ticket: Seq<char>,
)
    ensures
        event matches HostEventModel::EndpointOpened { ticket: t } ==> host_status(status, event)
            == (StatusModel::HostWaiting { ticket: t }),
        event matches HostEventModel::EndpointFailed { error } ==> host_status(status, event)
            == StatusModel::Error(error),
        event is PeerConnected && !(status is HostWaiting) && !(status is HostConnected)
            ==> host_status(status, event) == status,
        event is EndpointClosed || event is HandshakeFailed || event is StopRequested
            ==> host_status(status, event) == status,
        peer_status(status, PeerEvent::StreamOpened, peer, ticket) == status,
        !(status is HostConnected) ==> peer_status(
            status,
            PeerEvent::ConnectionLost,
            peer,
            ticket,
        ) == status,
{
}

/// A hosting task serves exactly the peers that connect, closes exactly when it is stopped or its
/// endpoint is closed, gives up exactly when it has no endpoint, and else goes on accepting. The
/// task of a peer connects exactly the streams that the peer opens, and ends with the connection.
pub proof fn law_host_serves_until_it_is_closed(event: HostEventModel, at_peer: PeerEvent)
    ensures
        host_action(event) == HostAction::ServePeer <==> event is PeerConnected,
        host_action(event) == HostAction::Close <==> event is EndpointClosed
            || event is StopRequested,
        host_action(event) == HostAction::GiveUp <==> event is EndpointFailed,
        host_action(event) == HostAction::AcceptPeer <==> event is EndpointOpened
            || event is HandshakeFailed,
        peer_action(at_peer) == PeerAction::ProxyStream <==> at_peer == PeerEvent::StreamOpened,
        peer_action(at_peer) == PeerAction::Finish <==> at_peer == PeerEvent::ConnectionLost,
{
}

/// Every failure of a joining task ends it and is shown, whatever was shown before and whichever
/// port is offered, and nothing else ends it so. What is shown tells what failed: the error that
/// was met, or the port that is taken.
pub proof fn law_join_failures_are_shown(
    status: StatusModel,
    event: JoinEventModel,
    local_port: u16,
)
    ensures
        join_action(event, local_port) == JoinAction::GiveUp <==> event is TicketRejected
            || event is EndpointFailed || event is ConnectFailed || event is PortTaken,
        event is TicketRejected ==> join_status(status, event, local_port) == StatusModel::Error(
            "Неверный формат ticket"@,
        ),
        event matches JoinEventModel::EndpointFailed { error } ==> join_status(
            status,
            event,
            local_port,
        ) == StatusModel::Error(error),
        event matches JoinEventModel::ConnectFailed { error } ==> join_status(
            status,
            event,
            local_port,
        ) == StatusModel::Error("Не удалось подключиться: "@ + error),
        event is PortTaken ==> join_status(status, event, local_port) == StatusModel::Error(
            "Порт "@ + decimal(local_port as nat) + " уже занят"@,
        ),
{
}

/// What goes well never shows an error of its own, and takes a joining task on by one step, to the
/// port that was chosen and no other.
pub proof fn law_join_goes_on(status: StatusModel, event: JoinEventModel, local_port: u16)
    ensures
        join_action(event, local_port) == JoinAction::OpenEndpoint <==> event is TicketRead,
        join_action(event, local_port) == JoinAction::Connect <==> event is EndpointOpened,
        join_action(event, local_port) is BindPort <==> event is Connected,
        event is Connected ==> join_action(event, local_port)->port == local_port,
        event is Connected ==> join_status(status, event, local_port)
            == StatusModel::JoinConnected,
        join_action(event, local_port) == JoinAction::AcceptClient <==> event is PortBound,
        join_action(event, local_port) == JoinAction::ForwardClient <==> event is ClientAccepted,
        join_action(event, local_port) == JoinAction::Close <==> event is AcceptFailed
            || event is StopRequested,
        event is TicketRead || event is EndpointOpened || event is PortBound
            || event is ClientAccepted || event is AcceptFailed || event is StopRequested
            ==> join_status(status, event, local_port) == status,
{
}

} // verus!
