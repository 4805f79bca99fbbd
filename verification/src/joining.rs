//! A joining task as a whole, from the ticket that was pasted in to the clients that it forwards.

use vstd::prelude::*;

use crate::text::{is_white_space, trim};
use crate::ticket::{address_in, carried, law_pasted_ticket_arrives, ticket_in, ticket_text};
use crate::tunnel::{join_action, join_status, JoinAction, JoinEventModel, StatusModel};
use crate::tunnel::{ALPN, LOOPBACK};

verus! {

/// A call to a host.
pub struct Call {
    /// The bytes of the address that is called.
    pub address: Seq<u8>,
    /// The protocol that is asked for.
    pub protocol: Seq<char>,
}

/// A port that is open to clients.
pub struct Listener {
    /// The address of this machine on which it is open.
    pub host: Seq<char>,
    pub port: u16,
}

/// Where a joining task stands.
pub struct Joining {
    /// What is shown.
    pub status: StatusModel,
    /// The bytes that the ticket carries.
    pub address: Option<Seq<u8>>,
    /// The port that is to be offered.
    pub local_port: u16,
    /// The clients that are still to come; the user stops the tunnel behind the last.
    pub clients: Seq<nat>,
    /// The client that came last.
    pub client: Option<nat>,
    /// The call that the host answered.
    pub call: Option<Call>,
    /// The port that was opened.
    pub listener: Option<Listener>,
    /// The clients that were given a stream of that call, one stream each.
    pub forwarded: Seq<nat>,
    /// What the task does next.
    pub action: JoinAction,
}

/// The task with `event` taken note of.
pub open spec fn noted(run: Joining, event: JoinEventModel) -> Joining {
    Joining {
        status: join_status(run.status, event, run.local_port),
        action: join_action(event, run.local_port),
        ..run
    }
}

/// The task at its start: the user pasted `pasted` for a ticket and chose `local_port`.
pub open spec fn begin(pasted: Seq<char>, local_port: u16, clients: Seq<nat>) -> Joining {
    let ticket = trim(pasted);
    let run = Joining {
        status: StatusModel::JoinConnecting,
        address: carried(ticket),
        local_port,
        clients,
        client: None,
        call: None,
        listener: None,
        forwarded: Seq::empty(),
        action: JoinAction::GiveUp,
    };
    noted(
        run,
        if ticket_in(ticket) is Some {
            JoinEventModel::TicketRead
        } else {
            JoinEventModel::TicketRejected
        },
    )
}

/// The task once the next client came, or the user stopped the tunnel.
pub open spec fn awaited(run: Joining) -> Joining {
    if run.clients.len() == 0 {
        noted(run, JoinEventModel::StopRequested)
    } else {
        noted(
            Joining { client: Some(run.clients[0]), clients: run.clients.drop_first(), ..run },
            JoinEventModel::ClientAccepted,
        )
    }
}

/// One step of a task in which nothing fails.
pub open spec fn step(run: Joining) -> Joining {
    match run.action {
        JoinAction::OpenEndpoint => noted(run, JoinEventModel::EndpointOpened),
        JoinAction::Connect => noted(
            Joining { call: Some(Call { address: run.address->0, protocol: ALPN@ }), ..run },
            JoinEventModel::Connected,
        ),
        JoinAction::BindPort { port } => noted(
            Joining { listener: Some(Listener { host: LOOPBACK@, port }), ..run },
            JoinEventModel::PortBound,
        ),
        JoinAction::AcceptClient => awaited(run),
        JoinAction::ForwardClient => awaited(
            Joining { forwarded: run.forwarded.push(run.client->0), ..run },
        ),
        JoinAction::Close | JoinAction::GiveUp => run,
    }
}

/// `n` steps of a task.
pub open spec fn steps(run: Joining, n: nat) -> Joining
    decreases n,
{
    if n == 0 {
        run
    } else {
        step(steps(run, (n - 1) as nat))
    }
}

/// Whether `run` is a task that is connected to the host with the address `bytes` and open to
/// clients on `local_port` of this machine alone.
pub open spec fn connected(run: Joining, bytes: Seq<u8>, local_port: u16) -> bool {
    &&& run.status == StatusModel::JoinConnected
    &&& run.local_port == local_port
    &&& run.call == Some(Call { address: bytes, protocol: ALPN@ })
    &&& run.listener == Some(Listener { host: LOOPBACK@, port: local_port })
}

/// Where nothing fails, a friend who pastes the host's ticket, with white space around it or none,
/// calls the address that the ticket carries, by the protocol that hosts answer; is shown as
/// connected from then on; opens the chosen port on this machine alone; and forwards each client
/// that comes, each once and in their order, until the tunnel is stopped, which closes it.
pub proof fn law_pasted_ticket_connects(
    before: Seq<char>,
    bytes: Seq<u8>,
    after: Seq<char>,
    local_port: u16,
    clients: Seq<nat>,
)
    requires
        forall|i: int| 0 <= i < before.len() ==> is_white_space(#[trigger] before[i]),
        forall|i: int| 0 <= i < after.len() ==> is_white_space(#[trigger] after[i]),
        address_in(bytes) is Some,
    ensures
        ({
            let run = begin(before + ticket_text(bytes) + after, local_port, clients);
            &&& run.action == JoinAction::OpenEndpoint
            &&& run.status == StatusModel::JoinConnecting
            &&& steps(run, 1).action == JoinAction::Connect
            &&& steps(run, 1).status == StatusModel::JoinConnecting
            &&& steps(run, 2).action == JoinAction::BindPort { port: local_port }
            &&& steps(run, 2).status == StatusModel::JoinConnected
            &&& steps(run, 2).call == Some(Call { address: bytes, protocol: ALPN@ })
            &&& steps(run, 3).action == JoinAction::AcceptClient
            &&& forall|n: nat| n >= 3 ==> connected(#[trigger] steps(run, n), bytes, local_port)
            &&& forall|k: nat|
                1 <= k <= clients.len() ==> {
                    &&& (#[trigger] steps(run, 3 + k)).action == JoinAction::ForwardClient
                    &&& steps(run, 3 + k).client == Some(clients[k - 1])
                    &&& steps(run, 3 + k).forwarded == clients.take(k - 1)
                }
            &&& forall|n: nat|
                n >= 4 + clients.len() ==> {
                    &&& (#[trigger] steps(run, n)).action == JoinAction::Close
                    &&& steps(run, n).forwarded == clients
                }
        }),
{
    let run = begin(before + ticket_text(bytes) + after, local_port, clients);
    law_pasted_ticket_arrives(before, bytes, after);
    reveal_with_fuel(steps, 4);
    assert forall|n: nat| n >= 3 implies connected(#[trigger] steps(run, n), bytes, local_port) by {
        lemma_serving(run, bytes, local_port, clients, n);
    }
    assert forall|k: nat| 1 <= k <= clients.len() implies {
        &&& (#[trigger] steps(run, 3 + k)).action == JoinAction::ForwardClient
        &&& steps(run, 3 + k).client == Some(clients[k - 1])
        &&& steps(run, 3 + k).forwarded == clients.take(k - 1)
    } by {
        lemma_serving(run, bytes, local_port, clients, 3 + k);
    }
    assert forall|n: nat| n >= 4 + clients.len() implies {
        &&& (#[trigger] steps(run, n)).action == JoinAction::Close
        &&& steps(run, n).forwarded == clients
    } by {
        lemma_serving(run, bytes, local_port, clients, n);
    }
}

/// How a task goes on that waits for its first client after three steps.
proof fn lemma_serving(
    run: Joining,
    bytes: Seq<u8>,
    local_port: u16,
    clients: Seq<nat>,
    n: nat,
)
    requires
        n >= 3,
        steps(run, 3).action == JoinAction::AcceptClient,
        steps(run, 3).clients == clients,
        steps(run, 3).forwarded == Seq::<nat>::empty(),
        connected(steps(run, 3), bytes, local_port),
    ensures
        connected(steps(run, n), bytes, local_port),
        n == 3 ==> steps(run, n) == steps(run, 3),
        3 < n <= 3 + clients.len() ==> {
            &&& steps(run, n).action == JoinAction::ForwardClient
            &&& steps(run, n).client == Some(clients[n - 4])
            &&& steps(run, n).forwarded == clients.take(n - 4)
            &&& steps(run, n).clients == clients.skip(n - 3)
        },
        n > 3 + clients.len() ==> {
            &&& steps(run, n).action == JoinAction::Close
            &&& steps(run, n).forwarded == clients
        },
    decreases n,
{
    if n > 3 {
        let last = steps(run, (n - 1) as nat);
        lemma_serving(run, bytes, local_port, clients, (n - 1) as nat);
        assert(steps(run, n) == step(last));
        if n == 4 {
            assert(clients.take(0) =~= Seq::<nat>::empty());
            if clients.len() > 0 {
                assert(clients.drop_first() =~= clients.skip(1));
            } else {
                assert(clients =~= Seq::<nat>::empty());
            }
        } else if n <= 4 + clients.len() {
            assert(clients.take(n - 5).push(clients[n - 5]) =~= clients.take(n - 4));
            if n <= 3 + clients.len() {
                assert(clients.skip(n - 4)[0] == clients[n - 4]);
                assert(clients.skip(n - 4).drop_first() =~= clients.skip(n - 3));
            } else {
                assert(clients.take(n - 4) =~= clients);
            }
        }
    }
}

/// What is no ticket is told to the user, and nobody is called.
pub proof fn law_no_ticket_gives_up(
    pasted: Seq<char>,
    local_port: u16,
    clients: Seq<nat>,
    n: nat,
)
    requires
        ticket_in(trim(pasted)) is None,
    ensures
        steps(begin(pasted, local_port, clients), n).action == JoinAction::GiveUp,
        steps(begin(pasted, local_port, clients), n).status == StatusModel::Error(
            "Неверный формат ticket"@,
        ),
        steps(begin(pasted, local_port, clients), n).call is None,
        steps(begin(pasted, local_port, clients), n).listener is None,
    decreases n,
{
    if n > 0 {
        law_no_ticket_gives_up(pasted, local_port, clients, (n - 1) as nat);
    }
}

} // verus!
