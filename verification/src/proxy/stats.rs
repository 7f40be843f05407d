//! What the mirror counts.

use crate::proxy::Proxy;
use vstd::prelude::*;

verus! {

/// How the network took a datagram.
#[derive(Clone, Copy, Debug, PartialEq, Eq)]
pub enum SendOutcome {
    /// It was queued to be sent.
    Sent,
    /// It is too large for the path to the server.
    TooLarge,
    /// It could not be sent for another reason.
    Failed,
}

/// What was sent, received and dropped since the last report.
#[derive(Clone, Copy, Debug, PartialEq, Eq)]
pub struct MirrorStats {
    pub tpu_packets_sent: u64,
    pub be_packets_sent: u64,
    pub control_sent: u64,
    pub bundles_sent: u64,
    pub bundles_received: u64,
    pub filters_received: u64,
    pub dropped_oversized: u64,
    pub dropped_other: u64,
}

/// What was sent and received in an interval.
#[derive(Clone, Copy, Debug, PartialEq, Eq)]
pub struct Activity {
    pub tpu_packets: u64,
    pub be_packets: u64,
    pub bundles_sent: u64,
    pub control_sent: u64,
    pub bundles_received: u64,
    pub filters_received: u64,
}

/// What was dropped in an interval.
#[derive(Clone, Copy, Debug, PartialEq, Eq)]
pub struct Drops {
    pub oversized: u64,
    pub other: u64,
}

/// What is worth telling of an interval.
#[derive(Clone, Copy, Debug, PartialEq, Eq)]
pub struct StatsReport {
    pub activity: Option<Activity>,
    pub drops: Option<Drops>,
}

/// Nothing counted.
pub open spec fn no_stats() -> MirrorStats {
    MirrorStats {
        tpu_packets_sent: 0,
        be_packets_sent: 0,
        control_sent: 0,
        bundles_sent: 0,
        bundles_received: 0,
        filters_received: 0,
        dropped_oversized: 0,
        dropped_other: 0,
    }
}

/// The counts after a datagram from `source` was handed to the network.
pub open spec fn with_send(stats: MirrorStats, source: u8, outcome: SendOutcome) -> MirrorStats {
    match outcome {
        SendOutcome::Sent => if source == Proxy::SOURCE_RELAYER {
            MirrorStats { tpu_packets_sent: stats.tpu_packets_sent.wrapping_add(1), ..stats }
        } else if source == Proxy::SOURCE_CONTROL {
            MirrorStats { control_sent: stats.control_sent.wrapping_add(1), ..stats }
        } else {
            MirrorStats { be_packets_sent: stats.be_packets_sent.wrapping_add(1), ..stats }
        },
        SendOutcome::TooLarge => MirrorStats {
            dropped_oversized: stats.dropped_oversized.wrapping_add(1),
            ..stats
        },
        SendOutcome::Failed => MirrorStats {
            dropped_other: stats.dropped_other.wrapping_add(1),
            ..stats
        },
    }
}

/// The report on some counts. Control datagrams alone are not worth a line.
pub open spec fn report_of(stats: MirrorStats) -> StatsReport {
    StatsReport {
        activity: if stats.tpu_packets_sent > 0 || stats.be_packets_sent > 0 || stats.bundles_sent > 0
            || stats.bundles_received > 0 || stats.filters_received > 0 {
            Some(
                Activity {
                    tpu_packets: stats.tpu_packets_sent,
                    be_packets: stats.be_packets_sent,
                    bundles_sent: stats.bundles_sent,
                    control_sent: stats.control_sent,
                    bundles_received: stats.bundles_received,
                    filters_received: stats.filters_received,
                },
            )
        } else {
            None
        },
        drops: if stats.dropped_oversized > 0 || stats.dropped_other > 0 {
            Some(Drops { oversized: stats.dropped_oversized, other: stats.dropped_other })
        } else {
            None
        },
    }
}

impl Default for MirrorStats {
    fn default() -> (r: Self)
        ensures
            r == no_stats(),
    {
        MirrorStats {
            tpu_packets_sent: 0,
            be_packets_sent: 0,
            control_sent: 0,
            bundles_sent: 0,
            bundles_received: 0,
            filters_received: 0,
            dropped_oversized: 0,
            dropped_other: 0,
        }
    }
}

impl MirrorStats {
    /// Counts a datagram that was handed to the network.
    pub fn record_send(&mut self, source: u8, outcome: SendOutcome)
        ensures
            *final(self) == with_send(*old(self), source, outcome),
    {
        match outcome {
            SendOutcome::Sent => {
                if source == Proxy::SOURCE_RELAYER {
                    self.tpu_packets_sent = self.tpu_packets_sent.wrapping_add(1);
                } else if source == Proxy::SOURCE_CONTROL {
                    self.control_sent = self.control_sent.wrapping_add(1);
                } else {
                    self.be_packets_sent = self.be_packets_sent.wrapping_add(1);
                }
            },
            SendOutcome::TooLarge => {
                self.dropped_oversized = self.dropped_oversized.wrapping_add(1);
            },
            SendOutcome::Failed => {
                self.dropped_other = self.dropped_other.wrapping_add(1);
            },
        }
    }

    /// Counts a filter that was received.
    pub fn record_filter(&mut self)
        ensures
            *final(self) == (MirrorStats {
                filters_received: old(self).filters_received.wrapping_add(1),
                ..*old(self)
            }),
    {
        self.filters_received = self.filters_received.wrapping_add(1);
    }

    /// Counts bundles that were sent.
    pub fn record_bundles_sent(&mut self, bundles: u64)
        ensures
            *final(self) == (MirrorStats {
                bundles_sent: old(self).bundles_sent.wrapping_add(bundles),
                ..*old(self)
            }),
    {
        self.bundles_sent = self.bundles_sent.wrapping_add(bundles);
    }

    /// Counts bundles that were received.
    pub fn record_bundles_received(&mut self, bundles: u64)
        ensures
            *final(self) == (MirrorStats {
                bundles_received: old(self).bundles_received.wrapping_add(bundles),
                ..*old(self)
            }),
    {
        self.bundles_received = self.bundles_received.wrapping_add(bundles);
    }

    /// Reports on the counts and starts over.
    pub fn report_stats(&mut self) -> (r: StatsReport)
        ensures
            r == report_of(*old(self)),
            *final(self) == no_stats(),
    {
        let stats: MirrorStats = *self;
        *self = MirrorStats::default();
        let activity = if stats.tpu_packets_sent > 0 || stats.be_packets_sent > 0
            || stats.bundles_sent > 0 || stats.bundles_received > 0 || stats.filters_received > 0 {
            Some(
                Activity {
                    tpu_packets: stats.tpu_packets_sent,
                    be_packets: stats.be_packets_sent,
                    bundles_sent: stats.bundles_sent,
                    control_sent: stats.control_sent,
                    bundles_received: stats.bundles_received,
                    filters_received: stats.filters_received,
                },
            )
        } else {
            None
        };
        let drops = if stats.dropped_oversized > 0 || stats.dropped_other > 0 {
            Some(Drops { oversized: stats.dropped_oversized, other: stats.dropped_other })
        } else {
            None
        };
        StatsReport { activity, drops }
    }
}

/// Datagrams that were handed to the network, whatever became of them.
pub open spec fn datagrams(stats: MirrorStats) -> int {
    stats.tpu_packets_sent + stats.be_packets_sent + stats.control_sent + stats.dropped_oversized
        + stats.dropped_other
}

/// While the counts have room, each datagram is counted once, whatever became of
/// it, and nothing else changes with it.
pub proof fn law_each_datagram_counts_once(stats: MirrorStats, source: u8, outcome: SendOutcome)
    requires
        datagrams(stats) < u64::MAX,
    ensures
        datagrams(with_send(stats, source, outcome)) == datagrams(stats) + 1,
        with_send(stats, source, outcome).bundles_sent == stats.bundles_sent,
        with_send(stats, source, outcome).bundles_received == stats.bundles_received,
        with_send(stats, source, outcome).filters_received == stats.filters_received,
{
}

} // verus!
