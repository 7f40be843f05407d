//! Limits of the transaction intake, and how its threads are shared out.

use vstd::prelude::*;

verus! {

/// The transaction intake.
pub struct Tpu;

/// How many threads each part of the intake gets.
#[derive(Clone, Copy, Debug, PartialEq, Eq)]
pub struct ThreadPlan {
    /// Threads of each of the two QUIC servers.
    pub quic_threads: usize,
    /// Threads that verify signatures.
    pub sigverify_threads: usize,
}

/// Threads of each QUIC server: an eighth of the cores, at least two.
pub open spec fn quic_threads(cores: nat) -> nat {
    if cores / 8 < 2 {
        2
    } else {
        cores / 8
    }
}

/// Threads that verify signatures: the cores that two QUIC servers leave, at
/// least two.
pub open spec fn sigverify_threads(cores: nat) -> nat {
    if cores < 2 * quic_threads(cores) + 2 {
        2
    } else {
        (cores - 2 * quic_threads(cores)) as nat
    }
}

impl Tpu {
    /// Batches of packets that wait for signature verification, at most.
    pub const TPU_QUEUE_CAPACITY: usize = 100_000;

    /// Connections that a peer without stake may have.
    pub const MAX_QUIC_CONNECTIONS_PER_UNSTAKED_PEER: usize = 16;

    /// Connections that a peer with stake may have.
    pub const MAX_QUIC_CONNECTIONS_PER_STAKED_PEER: usize = 64;

    /// Connections that an address may open in a minute.
    pub const MAX_CONNECTIONS_PER_IPADDR_PER_MIN: u64 = 64;

    /// Bytes of a socket's receive buffer.
    pub const QUIC_SOCKET_RECV_BUFFER_SIZE: usize = 64 * 1024 * 1024;

    /// Streams that are taken in a millisecond.
    pub const MAX_STREAMS_PER_MS: u64 = 4_000;

    /// Cores that are assumed where the machine does not say.
    pub const DEFAULT_CORES: usize = 8;

    /// Shares the threads out. `cores` is how many the machine has, where it
    /// says so.
    pub fn thread_plan(cores: Option<usize>) -> (r: ThreadPlan)
        ensures
            ({
                let n = match cores {
                    Some(n) => n as nat,
                    None => Tpu::DEFAULT_CORES as nat,
                };
                r.quic_threads == quic_threads(n) && r.sigverify_threads == sigverify_threads(n)
            }),
    {
        let n: usize = match cores {
            Some(n) => n,
            None => Tpu::DEFAULT_CORES,
        };
        let eighth: usize = n / 8;
        let quic: usize = if eighth < 2 {
            2
        } else {
            eighth
        };
        let sigverify: usize = if n < 2 * quic || n - 2 * quic < 2 {
            2
        } else {
            n - 2 * quic
        };
        ThreadPlan { quic_threads: quic, sigverify_threads: sigverify }
    }
}

/// From six cores on, the two QUIC servers and signature verification share the
/// cores out with none left over and none used twice.
pub proof fn law_threads_use_each_core_once(cores: nat)
    requires
        cores >= 6,
    ensures
        2 * quic_threads(cores) + sigverify_threads(cores) == cores,
{
}

/// Every part has at least two threads.
pub proof fn law_every_part_has_threads(cores: nat)
    ensures
        quic_threads(cores) >= 2,
        sigverify_threads(cores) >= 2,
{
}

} // verus!
