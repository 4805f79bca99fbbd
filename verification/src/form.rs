//! The form that starts a tunnel.

use vstd::prelude::*;

use crate::text::{
    chars_of, decimal, is_white_space, law_port_is_what_is_written, law_port_reads_back,
    law_trim_to_nothing, port, read_port, string_of, trim, trimmed, writes,
};
use crate::tunnel::{Status, StatusModel, TunnelState};

verus! {

/// The two halves of the form.
#[derive(Clone, Copy, Debug, PartialEq, Eq, Structural)]
pub enum Tab {
    Host,
    Join,
}

/// What the user has entered.
pub struct Form {
    pub tab: Tab,
    pub mc_port: String,
    pub ticket_in: String,
    pub local_port: String,
}

/// What a joining task is to call, and where it is to listen.
pub struct JoinRequest {
    pub ticket: String,
    pub local_port: u16,
}

/// A colour: how much red, green and blue.
#[derive(Clone, Copy, Debug, PartialEq, Eq, Structural)]
pub struct Rgb {
    pub r: u8,
    pub g: u8,
    pub b: u8,
}

/// The colours of a tab's button.
#[derive(Clone, Copy, Debug, PartialEq, Eq, Structural)]
pub struct TabColors {
    pub fill: Rgb,
    pub stroke: Rgb,
}

/// The colours of a tab's button. One that is not selected has those of any other button.
pub fn tab_colors(selected: bool) -> (r: Option<TabColors>)
    ensures
        r == (if selected {
            Some(
                (TabColors {
                    fill: (Rgb { r: 20, g: 115, b: 170 }),
                    stroke: (Rgb { r: 35, g: 145, b: 210 }),
                }),
            )
        } else {
            None::<TabColors>
        }),
{
    if selected {
        Some(
            TabColors {
                fill: Rgb { r: 20, g: 115, b: 170 },
                stroke: Rgb { r: 35, g: 145, b: 210 },
            },
        )
    } else {
        None
    }
}

impl Form {
    /// The form as it first appears: to host, with the usual port on both sides.
    pub fn new() -> (r: Form)
        ensures
            r.tab == Tab::Host,
            r.mc_port@ == "25565"@,
            r.ticket_in@.len() == 0,
            r.local_port@ == "25565"@,
    {
        Form {
            tab: Tab::Host,
            mc_port: "25565".to_owned(),
            ticket_in: String::new(),
            local_port: "25565".to_owned(),
        }
    }

    /// Turns to the tab that was clicked; to the second where both were.
    pub fn select_tab(&mut self, host_clicked: bool, join_clicked: bool)
        ensures
            final(self).tab == (if join_clicked {
                Tab::Join
            } else if host_clicked {
                Tab::Host
            } else {
                old(self).tab
            }),
            final(self).mc_port == old(self).mc_port,
            final(self).ticket_in == old(self).ticket_in,
            final(self).local_port == old(self).local_port,
    {
        if host_clicked {
            self.tab = Tab::Host;
        }
        if join_clicked {
            self.tab = Tab::Join;
        }
    }

    /// Whether there is enough to host with: a port.
    pub open spec fn can_host(&self) -> bool {
        port(self.mc_port@) is Some
    }

    /// Whether there is enough to join with: something for a ticket, and a port.
    pub open spec fn can_join(&self) -> bool {
        trim(self.ticket_in@).len() > 0 && port(self.local_port@) is Some
    }

    /// Whether the button that hosts can be pressed.
    pub fn host_ready(&self) -> (r: bool)
        ensures
            r == self.can_host(),
    {
        read_port(self.mc_port.as_str()).is_some()
    }

    /// Whether the button that joins can be pressed.
    pub fn join_ready(&self) -> (r: bool)
        ensures
            r == self.can_join(),
    {
        let cs = chars_of(self.ticket_in.as_str());
        trimmed(cs.as_slice()).len() > 0 && read_port(self.local_port.as_str()).is_some()
    }

    /// Starts to host the server on the port that was entered, and returns the port. `stop_tx` is
    /// the means to stop the task. It starts exactly where the button can be pressed; else nothing
    /// changes.
    pub fn start_host<S>(&self, state: &mut TunnelState<S>, stop_tx: S) -> (r: Option<u16>)
        ensures
            r is Some <==> self.can_host(),
            r matches Some(p) ==> {
                &&& port(self.mc_port@) == Some(p as nat)
                &&& final(state).status@ == StatusModel::HostStarting
                &&& final(state).stop_tx == Some(stop_tx)
            },
            r is None ==> *final(state) == *old(state),
    {
        match read_port(self.mc_port.as_str()) {
            Some(p) => {
                state.stop_tx = Some(stop_tx);
                state.status = Status::HostStarting;
                Some(p)
            },
            None => None,
        }
    }

    /// Starts to join the host of the ticket that was entered, and returns what to call: the
    /// ticket without the white space around it, and the port to listen on. `stop_tx` is the means
    /// to stop the task. It starts exactly where the port is one, as it is where the button can be
    /// pressed, and there is then something for a ticket; else nothing changes.
    pub fn start_join<S>(&self, state: &mut TunnelState<S>, stop_tx: S) -> (r: Option<JoinRequest>)
        ensures
            r is Some <==> port(self.local_port@) is Some,
            self.can_join() ==> r is Some && r->0.ticket@.len() > 0,
            r matches Some(request) ==> {
                &&& request.ticket@ == trim(self.ticket_in@)
                &&& port(self.local_port@) == Some(request.local_port as nat)
                &&& final(state).status@ == StatusModel::JoinConnecting
                &&& final(state).stop_tx == Some(stop_tx)
            },
            r is None ==> *final(state) == *old(state),
    {
        let cs = chars_of(self.ticket_in.as_str());
        let ticket = string_of(trimmed(cs.as_slice()));
        match read_port(self.local_port.as_str()) {
            Some(p) => {
                state.stop_tx = Some(stop_tx);
                state.status = Status::JoinConnecting;
                Some(JoinRequest { ticket, local_port: p })
            },
            None => None,
        }
    }
}

/// Whoever enters a port can host, and nobody else: any number up to 65535 will do.
pub proof fn law_every_port_can_host(form: Form)
    ensures
        form.can_host() <==> (exists|n: nat| n <= 65535 && #[trigger] writes(form.mc_port@, n)),
        forall|n: nat| n <= 65535 && form.mc_port@ == #[trigger] decimal(n) ==> form.can_host(),
{
    lemma_port_entered(form.mc_port@);
}

/// Whoever enters a port and anything but white space for a ticket can join, and nobody else: any
/// number up to 65535 will do.
pub proof fn law_every_port_can_join(form: Form)
    ensures
        form.can_join() <==> (exists|n: nat| n <= 65535 && #[trigger] writes(form.local_port@, n))
            && (exists|i: int|
            0 <= i < form.ticket_in@.len() && !is_white_space(#[trigger] form.ticket_in@[i])),
        forall|n: nat|
            n <= 65535 && form.local_port@ == #[trigger] decimal(n) && !(forall|i: int|
                0 <= i < form.ticket_in@.len() ==> is_white_space(#[trigger] form.ticket_in@[i]))
                ==> form.can_join(),
{
    lemma_port_entered(form.local_port@);
    law_trim_to_nothing(form.ticket_in@);
}

/// A text is a port exactly where it writes one, and in decimal it does.
proof fn lemma_port_entered(s: Seq<char>)
    ensures
        port(s) is Some <==> (exists|n: nat| n <= 65535 && #[trigger] writes(s, n)),
        forall|n: nat| n <= 65535 && s == #[trigger] decimal(n) ==> port(s) is Some,
{
    if port(s) is Some {
        law_port_is_what_is_written(s, port(s)->0);
        assert(writes(s, port(s)->0));
    }
    if exists|n: nat| n <= 65535 && #[trigger] writes(s, n) {
        let n = choose|n: nat| n <= 65535 && #[trigger] writes(s, n);
        law_port_is_what_is_written(s, n);
    }
    assert forall|n: nat| n <= 65535 && s == #[trigger] decimal(n) implies port(s) is Some by {
        law_port_reads_back(n);
    }
}

} // verus!
