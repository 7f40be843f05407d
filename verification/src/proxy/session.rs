//! Keeping the link to the mirror server up.

use crate::proxy::mirror::Mirror;
use vstd::arithmetic::power2::pow2;
use vstd::prelude::*;

verus! {

/// What happened to the link.
#[derive(Clone, Copy, Debug, PartialEq, Eq)]
pub enum LinkEvent {
    /// The program came to the point where the link is first needed.
    Started,
    /// The server accepted a connection.
    Connected,
    /// An attempt to connect failed.
    ConnectFailed,
    /// A connection came to an end.
    Closed,
    /// A pause is over.
    Slept,
}

/// What to do about the link.
#[derive(Clone, Copy, Debug, PartialEq, Eq)]
pub enum LinkAction {
    /// Try to connect.
    Connect,
    /// Serve the connection until it ends.
    Serve,
    /// Pause for so many nanoseconds.
    Sleep(u64),
    /// Give up the link for good.
    Stop,
}

/// A pause twice as long, up to the longest.
pub open spec fn doubled(backoff: u64) -> u64 {
    if 2 * backoff <= Mirror::BACKOFF_MAX {
        (2 * backoff) as u64
    } else {
        Mirror::BACKOFF_MAX
    }
}

/// The pause that comes next once an event has been taken into account.
pub open spec fn backoff_after(backoff: u64, event: LinkEvent) -> u64 {
    match event {
        LinkEvent::Connected => Mirror::BACKOFF_INITIAL,
        LinkEvent::Slept => doubled(backoff),
        _ => backoff,
    }
}

/// Whether the link is up once an event has been taken into account.
pub open spec fn connected_after(connected: bool, event: LinkEvent) -> bool {
    match event {
        LinkEvent::Connected => true,
        LinkEvent::Closed => false,
        _ => connected,
    }
}

/// What to do after an event, with the pause that holds at that point.
pub open spec fn link_action(backoff: u64, event: LinkEvent, shutdown: bool) -> LinkAction {
    match event {
        LinkEvent::Connected => LinkAction::Serve,
        LinkEvent::Started | LinkEvent::Slept => if shutdown {
            LinkAction::Stop
        } else {
            LinkAction::Connect
        },
        LinkEvent::ConnectFailed | LinkEvent::Closed => if shutdown {
            LinkAction::Stop
        } else {
            LinkAction::Sleep(backoff)
        },
    }
}

/// The link as the program drives it.
pub struct Link {
    /// The pause before the next attempt to connect, in nanoseconds.
    pub backoff: u64,
}

impl Link {
    /// The pause is within its bounds.
    pub open spec fn wf(&self) -> bool {
        Mirror::BACKOFF_INITIAL <= self.backoff <= Mirror::BACKOFF_MAX
    }

    /// A link that has not been tried.
    pub fn new() -> (r: Self)
        ensures
            r.wf(),
            r.backoff == Mirror::BACKOFF_INITIAL,
    {
        Link { backoff: Mirror::BACKOFF_INITIAL }
    }
}

impl Mirror {
    /// Takes an event of the link into account and says what to do.
    pub fn run(&mut self, link: &mut Link, event: LinkEvent, shutdown: bool) -> (r: LinkAction)
        requires
            old(self).wf(),
            old(link).wf(),
        ensures
            final(self).wf(),
            final(link).wf(),
            final(self).cert_pin == old(self).cert_pin,
            final(self).stats == old(self).stats,
            final(self).connected == connected_after(old(self).connected, event),
            final(link).backoff == backoff_after(old(link).backoff, event),
            r == link_action(old(link).backoff, event, shutdown),
    {
        match event {
            LinkEvent::Connected => {
                link.backoff = Mirror::BACKOFF_INITIAL;
                self.set(true);
                LinkAction::Serve
            },
            LinkEvent::Closed => {
                self.set(false);
                if shutdown {
                    LinkAction::Stop
                } else {
                    LinkAction::Sleep(link.backoff)
                }
            },
            LinkEvent::ConnectFailed => {
                if shutdown {
                    LinkAction::Stop
                } else {
                    LinkAction::Sleep(link.backoff)
                }
            },
            LinkEvent::Slept => {
                link.backoff = if 2 * link.backoff <= Mirror::BACKOFF_MAX {
                    2 * link.backoff
                } else {
                    Mirror::BACKOFF_MAX
                };
                if shutdown {
                    LinkAction::Stop
                } else {
                    LinkAction::Connect
                }
            },
            LinkEvent::Started => {
                if shutdown {
                    LinkAction::Stop
                } else {
                    LinkAction::Connect
                }
            },
        }
    }
}

/// The pause after `failures` failed attempts in a row, since the link was last
/// up or was made.
pub open spec fn backoff_after_failures(failures: nat) -> u64
    decreases failures,
{
    if failures == 0 {
        Mirror::BACKOFF_INITIAL
    } else {
        let before = backoff_after_failures((failures - 1) as nat);
        backoff_after(backoff_after(before, LinkEvent::ConnectFailed), LinkEvent::Slept)
    }
}

/// The pause doubles with each failure in a row until it has reached its limit,
/// and then stays there.
pub proof fn law_backoff_doubles(failures: nat)
    ensures
        backoff_after_failures(failures) == if Mirror::BACKOFF_INITIAL * pow2(failures)
            <= Mirror::BACKOFF_MAX {
            Mirror::BACKOFF_INITIAL * pow2(failures)
        } else {
            Mirror::BACKOFF_MAX as int
        },
    decreases failures,
{
    vstd::arithmetic::power2::lemma2_to64();
    if failures > 0 {
        let k = (failures - 1) as nat;
        law_backoff_doubles(k);
        vstd::arithmetic::power2::lemma_pow2_unfold(failures);
        let p = pow2(k) as int;
        assert(Mirror::BACKOFF_INITIAL * pow2(failures) == 2 * (Mirror::BACKOFF_INITIAL * p))
            by (nonlinear_arith)
            requires
                pow2(failures) == 2 * p,
        ;
    }
}

/// A connection that was made starts the pauses over: what came before does not
/// matter.
pub proof fn law_connecting_resets_the_backoff(backoff: u64)
    ensures
        backoff_after(backoff, LinkEvent::Connected) == backoff_after_failures(0),
        link_action(
            backoff_after(backoff, LinkEvent::Connected),
            LinkEvent::Closed,
            false,
        ) == LinkAction::Sleep(Mirror::BACKOFF_INITIAL),
{
}

/// Once the program shuts down, the link is not tried again: every event but a
/// connection just made ends it.
pub proof fn law_shutdown_stops_the_link(backoff: u64, event: LinkEvent)
    ensures
        event != LinkEvent::Connected <==> link_action(backoff, event, true) == LinkAction::Stop,
{
}

} // verus!
