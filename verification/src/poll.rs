//! The poll loop as a state machine.
//!
//! The caller runs the loop: once per interval it queries every configured
//! address, ranks the outcomes and hands the ranking to [`step`]. While the
//! machine stays in [`PollState::Polling`] the caller sleeps and polls again;
//! once it is in [`PollState::Joining`] the caller launches the client for
//! the server named there, and the run is over.

use crate::error::QueryError;
use crate::rank::{is_ascending, RankedList};
use crate::server::{JoinPolicy, QueriedServer, ServerAddress};
use vstd::prelude::*;

verus! {

/// Seconds between two poll cycles, unless configured otherwise.
pub const POLL_INTERVAL_SECS: u64 = 1;

/// Seconds to wait for the reply to a query before the address counts as
/// timed out.
pub const RECEIVE_TIMEOUT_SECS: u64 = 1;

/// Where the poll loop stands.
#[derive(Debug, Clone, PartialEq, Eq)]
pub enum PollState {
    /// No server has qualified yet.
    Polling,
    /// This server qualified; it is the one to join.
    Joining(QueriedServer),
}

/// What a run polls, and when it joins.
#[derive(Debug, Clone, PartialEq, Eq)]
pub struct PollPlan {
    pub addresses: Vec<ServerAddress>,
    pub policy: JoinPolicy,
    pub interval_secs: u64,
}

impl PollPlan {
    /// A plan for the given addresses; a run needs at least one.
    pub fn new(addresses: Vec<ServerAddress>, policy: JoinPolicy, interval_secs: u64) -> (r: Result<
        Self,
        QueryError,
    >)
        ensures
            match r {
                Ok(plan) => {
                    &&& addresses@.len() > 0
                    &&& plan.addresses == addresses
                    &&& plan.policy == policy
                    &&& plan.interval_secs == interval_secs
                },
                Err(e) => e == QueryError::NoAddresses && addresses@.len() == 0,
            },
    {
        if addresses.len() == 0 {
            Err(QueryError::NoAddresses)
        } else {
            Ok(PollPlan { addresses, policy, interval_secs })
        }
    }
}

/// `index` is the first entry of `ranked` that `policy` admits.
pub open spec fn is_first_joinable(
    ranked: Seq<QueriedServer>,
    policy: JoinPolicy,
    index: int,
) -> bool {
    &&& 0 <= index < ranked.len()
    &&& ranked[index].is_joinable(policy)
    &&& forall|j: int| 0 <= j < index ==> !(#[trigger] ranked[j]).is_joinable(policy)
}

/// `policy` admits some entry of `ranked`.
pub open spec fn has_joinable(ranked: Seq<QueriedServer>, policy: JoinPolicy) -> bool {
    exists|index: int| 0 <= index < ranked.len() && (#[trigger] ranked[index]).is_joinable(policy)
}

/// Index of the first entry of `ranked` that `policy` admits.
pub open spec fn first_joinable(ranked: Seq<QueriedServer>, policy: JoinPolicy) -> int {
    choose|index: int| is_first_joinable(ranked, policy, index)
}

/// The state after a poll cycle that gave the ranking `ranked`.
///
/// Polling goes on until the ranking holds a server that the policy admits;
/// the first such server is the one to join. Once joining, the machine stays
/// there whatever later rankings hold.
pub open spec fn next_state(
    state: PollState,
    ranked: Seq<QueriedServer>,
    policy: JoinPolicy,
) -> PollState {
    match state {
        PollState::Joining(server) => PollState::Joining(server),
        PollState::Polling => if has_joinable(ranked, policy) {
            PollState::Joining(ranked[first_joinable(ranked, policy)])
        } else {
            PollState::Polling
        },
    }
}

/// Finds the first entry of `ranked` that `policy` admits.
pub fn select(ranked: &RankedList, policy: &JoinPolicy) -> (found: Option<usize>)
    ensures
        match found {
            Some(index) => is_first_joinable(ranked@, *policy, index as int),
            None => !has_joinable(ranked@, *policy),
        },
{
    let mut index: usize = 0;
    while index < ranked.len()
        invariant
            index <= ranked.len(),
            forall|j: int| 0 <= j < index ==> !(#[trigger] ranked@[j]).is_joinable(*policy),
        decreases ranked.len() - index,
    {
        if ranked[index].should_join(policy) {
            return Some(index);
        }
        index = index + 1;
    }
    None
}

/// Advances the poll loop by one cycle, whose ranking is `ranked`.
pub fn step(state: PollState, ranked: RankedList, policy: &JoinPolicy) -> (next: PollState)
    ensures
        next == next_state(state, ranked@, *policy),
{
    match state {
        PollState::Joining(server) => PollState::Joining(server),
        PollState::Polling => match select(&ranked, policy) {
            Some(index) => {
                proof {
                    lemma_first_joinable_is_unique(ranked@, *policy, index as int);
                }
                let mut ranked = ranked;
                PollState::Joining(ranked.remove(index))
            },
            None => PollState::Polling,
        },
    }
}

/// Only one entry is the first that the policy admits.
pub proof fn lemma_first_joinable_is_unique(
    ranked: Seq<QueriedServer>,
    policy: JoinPolicy,
    index: int,
)
    requires
        is_first_joinable(ranked, policy, index),
    ensures
        first_joinable(ranked, policy) == index,
{
    let chosen = first_joinable(ranked, policy);
    assert(is_first_joinable(ranked, policy, chosen));
    if chosen < index {
        assert(!ranked[chosen].is_joinable(policy));
    } else if index < chosen {
        assert(!ranked[index].is_joinable(policy));
    }
}

/// In a ranking, the server chosen for joining has the least latency among
/// those that the policy admits.
pub proof fn lemma_joined_is_nearest(ranked: Seq<QueriedServer>, policy: JoinPolicy, other: int)
    requires
        is_ascending(ranked),
        0 <= other < ranked.len(),
        ranked[other].is_joinable(policy),
    ensures
        is_first_joinable(ranked, policy, first_joinable(ranked, policy)),
        ranked[first_joinable(ranked, policy)].latency <= ranked[other].latency,
{
    lemma_some_joinable_has_first(ranked, policy, other);
    let chosen = first_joinable(ranked, policy);
    assert(is_first_joinable(ranked, policy, chosen));
    if other < chosen {
        assert(!ranked[other].is_joinable(policy));
    }
}

/// Where the policy admits some entry, there is a first one.
proof fn lemma_some_joinable_has_first(ranked: Seq<QueriedServer>, policy: JoinPolicy, at: int)
    requires
        0 <= at < ranked.len(),
        ranked[at].is_joinable(policy),
    ensures
        exists|index: int| is_first_joinable(ranked, policy, index),
    decreases at,
{
    if forall|j: int| 0 <= j < at ==> !(#[trigger] ranked[j]).is_joinable(policy) {
        assert(is_first_joinable(ranked, policy, at));
    } else {
        let j = choose|j: int| 0 <= j < at && (#[trigger] ranked[j]).is_joinable(policy);
        lemma_some_joinable_has_first(ranked, policy, j);
    }
}

/// Joining is final: no ranking moves the machine out of it.
pub proof fn lemma_joining_is_terminal(
    server: QueriedServer,
    ranked: Seq<QueriedServer>,
    policy: JoinPolicy,
)
    ensures
        next_state(PollState::Joining(server), ranked, policy) == PollState::Joining(server),
{
}

/// Polling ends with the first server that the policy admits: the machine
/// then joins that server, and none of the entries before it qualified.
pub proof fn lemma_polling_ends_at_first(ranked: Seq<QueriedServer>, policy: JoinPolicy)
    requires
        has_joinable(ranked, policy),
    ensures
        is_first_joinable(ranked, policy, first_joinable(ranked, policy)),
        next_state(PollState::Polling, ranked, policy) == PollState::Joining(
            ranked[first_joinable(ranked, policy)],
        ),
{
    let at = choose|index: int|
        0 <= index < ranked.len() && (#[trigger] ranked[index]).is_joinable(policy);
    lemma_some_joinable_has_first(ranked, policy, at);
}

} // verus!
