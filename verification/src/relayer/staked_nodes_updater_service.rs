//! How much each validator has staked, and when to ask anew.

use crate::clock::NANOS_PER_SEC;
use crate::identity::parsed_pubkey;
use crate::identity::pubkey_from_text;
use crate::identity::Pubkey;
use crate::table::Table;
use vstd::prelude::*;

verus! {

/// What an RPC node says of a validator that votes.
#[derive(Clone, Debug, PartialEq, Eq)]
pub struct VoteAccount {
    /// The identity of the validator, as text.
    pub node_pubkey: String,
    /// What is staked with it.
    pub activated_stake: u64,
}

/// What an RPC node says of all validators that vote.
#[derive(Clone, Debug, PartialEq, Eq)]
pub struct VoteAccounts {
    pub current: Vec<VoteAccount>,
    pub delinquent: Vec<VoteAccount>,
}

/// `stakes` with the accounts entered one after the other. An account whose
/// identity cannot be read is left out; a later account for an identity takes the
/// place of an earlier one.
pub open spec fn with_stakes(stakes: Map<Pubkey, u64>, accounts: Seq<VoteAccount>) -> Map<
    Pubkey,
    u64,
>
    decreases accounts.len(),
{
    if accounts.len() == 0 {
        stakes
    } else {
        let before = with_stakes(stakes, accounts.drop_last());
        match parsed_pubkey(accounts.last().node_pubkey@) {
            Some(pubkey) => before.insert(pubkey, accounts.last().activated_stake),
            None => before,
        }
    }
}

/// What is staked with each validator: the accounts that are up to date, then
/// those that are not.
pub open spec fn stakes_of(accounts: VoteAccounts) -> Map<Pubkey, u64> {
    with_stakes(with_stakes(Map::empty(), accounts.current@), accounts.delinquent@)
}

/// The time between two readings of a clock, in nanoseconds.
pub open spec fn elapsed(since: u64, now: u64) -> int {
    if now < since {
        0
    } else {
        now - since
    }
}

fn elapsed_nanos(since: u64, now: u64) -> (r: u64)
    ensures
        r == elapsed(since, now),
{
    if now < since {
        0
    } else {
        now - since
    }
}

fn enter_stakes(stakes: &mut Table<Pubkey, u64>, accounts: &Vec<VoteAccount>)
    requires
        old(stakes).wf(),
    ensures
        final(stakes).wf(),
        final(stakes)@ == with_stakes(old(stakes)@, accounts@),
{
    let ghost before = stakes@;
    let n: usize = accounts.len();
    let mut i: usize = 0;
    while i < n
        invariant
            i <= n,
            n == accounts@.len(),
            stakes.wf(),
            stakes@ == with_stakes(before, accounts@.take(i as int)),
        decreases n - i,
    {
        proof {
            let next = accounts@.take(i + 1);
            assert(next.drop_last() =~= accounts@.take(i as int));
            assert(next.last() == accounts@[i as int]);
        }
        match pubkey_from_text(accounts[i].node_pubkey.as_str()) {
            Some(pubkey) => stakes.insert(pubkey, accounts[i].activated_stake),
            None => {},
        }
        i += 1;
    }
    assert(accounts@.take(n as int) =~= accounts@);
}

/// Keeps the stakes up to date.
pub struct StakedNodesUpdaterService;

impl StakedNodesUpdaterService {
    /// Stakes that are no older than this are not asked for anew, in nanoseconds.
    pub const PK_TO_STAKE_REFRESH_DURATION: u64 = 5 * NANOS_PER_SEC;

    /// How long the stakes stand before an update is tried, in seconds.
    pub const UPDATE_INTERVAL_SECS: u64 = 60;

    /// How long to wait between two looks at the clock, in nanoseconds.
    pub const POLL_INTERVAL: u64 = 1 * NANOS_PER_SEC;

    /// What is staked with each validator.
    pub fn stake_map(accounts: &VoteAccounts) -> (r: Table<Pubkey, u64>)
        ensures
            r.wf(),
            r@ == stakes_of(*accounts),
    {
        let mut stakes: Table<Pubkey, u64> = Table::new();
        enter_stakes(&mut stakes, &accounts.current);
        enter_stakes(&mut stakes, &accounts.delinquent);
        stakes
    }

    /// Whether an update is to be tried, in the loop that runs once a second.
    pub fn update_due(last_stakes: u64, now: u64) -> (r: bool)
        ensures
            r <==> elapsed(last_stakes, now) >= Self::UPDATE_INTERVAL_SECS * NANOS_PER_SEC,
            r <==> now >= last_stakes + 60_000_000_000,
    {
        elapsed_nanos(last_stakes, now) / NANOS_PER_SEC >= Self::UPDATE_INTERVAL_SECS
    }

    /// Whether the stakes are old enough to be asked for.
    pub fn refresh_due(last_stakes: u64, now: u64) -> (r: bool)
        ensures
            r <==> elapsed(last_stakes, now) > Self::PK_TO_STAKE_REFRESH_DURATION,
            r <==> now > last_stakes + 5_000_000_000,
    {
        elapsed_nanos(last_stakes, now) > Self::PK_TO_STAKE_REFRESH_DURATION
    }

    /// Takes in what the RPC node answered at `answered_at` to what it was asked
    /// at `asked_at`. Stakes that are not old enough stay, and so do all on an
    /// error; else they are replaced, and it is noted when.
    pub fn try_refresh_pk_to_stake(
        last_stakes: &mut u64,
        pubkey_stake_map: &mut Table<Pubkey, u64>,
        asked_at: u64,
        vote_accounts: Result<VoteAccounts, String>,
        answered_at: u64,
    ) -> (r: Result<bool, String>)
        requires
            old(pubkey_stake_map).wf(),
        ensures
            final(pubkey_stake_map).wf(),
            if elapsed(*old(last_stakes), asked_at) > Self::PK_TO_STAKE_REFRESH_DURATION {
                match vote_accounts {
                    Ok(accounts) => {
                        &&& r == Ok::<bool, String>(true)
                        &&& final(pubkey_stake_map)@ == stakes_of(accounts)
                        &&& *final(last_stakes) == answered_at
                    },
                    Err(e) => {
                        &&& r == Err::<bool, String>(e)
                        &&& *final(pubkey_stake_map) == *old(pubkey_stake_map)
                        &&& *final(last_stakes) == *old(last_stakes)
                    },
                }
            } else {
                &&& r == Ok::<bool, String>(false)
                &&& *final(pubkey_stake_map) == *old(pubkey_stake_map)
                &&& *final(last_stakes) == *old(last_stakes)
            },
    {
        if !Self::refresh_due(*last_stakes, asked_at) {
            return Ok(false);
        }
        match vote_accounts {
            Ok(accounts) => {
                *pubkey_stake_map = Self::stake_map(&accounts);
                *last_stakes = answered_at;
                Ok(true)
            },
            Err(e) => Err(e),
        }
    }
}

/// An update that is due is never refused for being too early.
pub proof fn law_due_update_asks(last_stakes: u64, now: u64)
    requires
        elapsed(last_stakes, now) >= StakedNodesUpdaterService::UPDATE_INTERVAL_SECS
            * NANOS_PER_SEC,
    ensures
        elapsed(last_stakes, now) > StakedNodesUpdaterService::PK_TO_STAKE_REFRESH_DURATION,
{
}

/// What is staked with a validator is what its last account says.
pub proof fn law_last_account_counts(
    stakes: Map<Pubkey, u64>,
    accounts: Seq<VoteAccount>,
    i: int,
    pubkey: Pubkey,
)
    requires
        0 <= i < accounts.len(),
        parsed_pubkey(accounts[i].node_pubkey@) == Some(pubkey),
        forall|j: int|
            i < j < accounts.len() ==> parsed_pubkey((#[trigger] accounts[j]).node_pubkey@) != Some(
                pubkey,
            ),
    ensures
        with_stakes(stakes, accounts).contains_key(pubkey),
        with_stakes(stakes, accounts)[pubkey] == accounts[i].activated_stake,
    decreases accounts.len(),
{
    let before = accounts.drop_last();
    if i < accounts.len() - 1 {
        assert forall|j: int| i < j < before.len() implies parsed_pubkey(
            (#[trigger] before[j]).node_pubkey@,
        ) != Some(pubkey) by {
            assert(before[j] == accounts[j]);
        }
        assert(before[i] == accounts[i]);
        assert(accounts.last() == accounts[accounts.len() - 1]);
        law_last_account_counts(stakes, before, i, pubkey);
    }
}

/// A validator without an account keeps what it had: it is not entered.
pub proof fn law_only_named_validators_are_entered(
    stakes: Map<Pubkey, u64>,
    accounts: Seq<VoteAccount>,
    pubkey: Pubkey,
)
    requires
        forall|j: int|
            0 <= j < accounts.len() ==> parsed_pubkey((#[trigger] accounts[j]).node_pubkey@)
                != Some(pubkey),
    ensures
        with_stakes(stakes, accounts).contains_key(pubkey) <==> stakes.contains_key(pubkey),
        stakes.contains_key(pubkey) ==> with_stakes(stakes, accounts)[pubkey] == stakes[pubkey],
    decreases accounts.len(),
{
    if accounts.len() > 0 {
        let before = accounts.drop_last();
        assert forall|j: int| 0 <= j < before.len() implies parsed_pubkey(
            (#[trigger] before[j]).node_pubkey@,
        ) != Some(pubkey) by {
            assert(before[j] == accounts[j]);
        }
        assert(accounts.last() == accounts[accounts.len() - 1]);
        law_only_named_validators_are_entered(stakes, before, pubkey);
    }
}

} // verus!
