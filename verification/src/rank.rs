//! Ranking of the servers that answered in one poll cycle.
//!
//! A ranking holds the servers of the cycle in ascending order of latency;
//! servers of equal latency keep the order in which they were given. Addresses
//! whose query or probe failed are left out and do not disturb the others.

use crate::error::QueryError;
use crate::server::QueriedServer;
use vstd::prelude::*;

verus! {

/// The servers of one poll cycle in ascending order of latency, as [`rank`]
/// gives them.
pub type RankedList = Vec<QueriedServer>;

/// Latencies never fall from one entry to a later one.
pub open spec fn is_ascending(servers: Seq<QueriedServer>) -> bool {
    forall|i: int, j: int| 0 <= i <= j < servers.len() ==> servers[i].latency <= servers[j].latency
}

/// The entries of the given latency, in the order in which they stand.
pub open spec fn with_latency(servers: Seq<QueriedServer>, latency: u32) -> Seq<QueriedServer> {
    servers.filter(|q: QueriedServer| q.latency == latency)
}

/// `ranked` is the ranking of `servers`: the same servers, in ascending order
/// of latency, those of equal latency in the order they have in `servers`.
pub open spec fn is_ranking_of(ranked: Seq<QueriedServer>, servers: Seq<QueriedServer>) -> bool {
    &&& ranked.to_multiset() == servers.to_multiset()
    &&& is_ascending(ranked)
    &&& forall|latency: u32|
        #![trigger with_latency(ranked, latency)]
        #![trigger with_latency(servers, latency)]
        with_latency(ranked, latency) == with_latency(servers, latency)
}

/// The servers whose query and probe both succeeded, in the order of the
/// outcomes.
pub open spec fn successes(outcomes: Seq<Result<QueriedServer, QueryError>>) -> Seq<QueriedServer>
    decreases outcomes.len(),
{
    if outcomes.len() == 0 {
        Seq::empty()
    } else {
        let rest = successes(outcomes.drop_first());
        match outcomes[0] {
            Ok(server) => seq![server] + rest,
            Err(_) => rest,
        }
    }
}

proof fn lemma_with_latency_concat(a: Seq<QueriedServer>, b: Seq<QueriedServer>, latency: u32)
    ensures
        with_latency(a + b, latency) == with_latency(a, latency) + with_latency(b, latency),
{
    Seq::filter_distributes_over_add(a, b, |q: QueriedServer| q.latency == latency);
}

proof fn lemma_with_latency_single(server: QueriedServer, latency: u32)
    ensures
        with_latency(seq![server], latency) == if server.latency == latency {
            seq![server]
        } else {
            Seq::empty()
        },
{
    let pred = |q: QueriedServer| q.latency == latency;
    Seq::<QueriedServer>::empty().lemma_filter_push(server, pred);
    reveal(Seq::filter);
    assert(Seq::<QueriedServer>::empty().filter(pred) =~= Seq::empty());
    assert(seq![server] =~= Seq::<QueriedServer>::empty().push(server));
}

proof fn lemma_with_latency_absent(servers: Seq<QueriedServer>, latency: u32)
    requires
        forall|i: int| 0 <= i < servers.len() ==> servers[i].latency != latency,
    ensures
        with_latency(servers, latency) == Seq::<QueriedServer>::empty(),
    decreases servers.len(),
{
    reveal(Seq::filter);
    if servers.len() > 0 {
        lemma_with_latency_absent(servers.drop_last(), latency);
    }
}

/// Puts `server` into the ascending list before the first entry whose latency
/// is not below its own, so that it comes before the entries of equal latency.
fn place(ranked: &mut RankedList, server: QueriedServer)
    requires
        is_ascending(old(ranked)@),
    ensures
        is_ranking_of(final(ranked)@, seq![server] + old(ranked)@),
{
    let mut at: usize = 0;
    while at < ranked.len() && ranked[at].latency < server.latency
        invariant
            at <= ranked.len(),
            ranked@ == old(ranked)@,
            forall|i: int| 0 <= i < at ==> ranked@[i].latency < server.latency,
        decreases ranked.len() - at,
    {
        at = at + 1;
    }
    ranked.insert(at, server);
    proof {
        let before = old(ranked)@;
        let after = ranked@;
        let low = before.take(at as int);
        let high = before.skip(at as int);
        assert(before =~= low + high);
        assert(after =~= low + (seq![server] + high));
        assert forall|i: int| 0 <= i < high.len() implies high[i].latency >= server.latency by {
            assert(high[i] == before[at + i]);
            assert(before[at as int].latency <= before[at + i].latency);
        }
        assert(is_ascending(after)) by {
            assert forall|i: int, j: int| 0 <= i <= j < after.len() implies after[i].latency
                <= after[j].latency by {
                if i < at && j > at {
                    assert(after[j] == high[j - at - 1]);
                } else if i > at {
                    assert(after[i] == before[i - 1]);
                    assert(after[j] == before[j - 1]);
                }
            }
        }
        assert forall|latency: u32|
            with_latency(after, latency) == with_latency(
                seq![server] + before,
                latency,
            ) by {
            lemma_with_latency_concat(low, seq![server] + high, latency);
            lemma_with_latency_concat(seq![server], high, latency);
            lemma_with_latency_concat(low, high, latency);
            lemma_with_latency_concat(seq![server], before, latency);
            lemma_with_latency_single(server, latency);
            if server.latency == latency {
                lemma_with_latency_absent(low, latency);
            }
            assert(with_latency(after, latency) =~= with_latency(seq![server] + before, latency));
        }
        vstd::seq_lib::to_multiset_insert(before, at as int, server);
        vstd::seq_lib::to_multiset_insert(before, 0, server);
        assert(before.insert(0, server) =~= seq![server] + before);
    }
}

/// Ranks the servers of one poll cycle.
///
/// `outcomes` holds, address by address, the server as queried or the reason
/// why it could not be. The failures are dropped; the servers that answered
/// come back in ascending order of latency, those of equal latency in the
/// order of `outcomes`.
pub fn rank(outcomes: Vec<Result<QueriedServer, QueryError>>) -> (ranked: RankedList)
    ensures
        is_ranking_of(ranked@, successes(outcomes@)),
{
    let ghost all = outcomes@;
    let mut rest = outcomes;
    let mut ranked: RankedList = Vec::new();
    assert(all.skip(all.len() as int) =~= Seq::empty());
    while rest.len() > 0
        invariant
            rest@ == all.take(rest.len() as int),
            rest.len() <= all.len(),
            is_ranking_of(ranked@, successes(all.skip(rest.len() as int))),
        decreases rest.len(),
    {
        let ghost n = rest.len() as int;
        let last = rest.pop();
        proof {
            assert(all.skip(n - 1).drop_first() =~= all.skip(n));
            assert(all.skip(n - 1)[0] == all[n - 1]);
            assert(rest@ =~= all.take(n - 1));
        }
        match last {
            Some(Ok(server)) => {
                let ghost tail = ranked@;
                place(&mut ranked, server);
                proof {
                    let found = successes(all.skip(n));
                    vstd::seq_lib::to_multiset_insert(tail, 0, server);
                    vstd::seq_lib::to_multiset_insert(found, 0, server);
                    assert(tail.insert(0, server) =~= seq![server] + tail);
                    assert(found.insert(0, server) =~= seq![server] + found);
                    assert forall|latency: u32|
                        with_latency(ranked@, latency) == with_latency(
                            seq![server] + found,
                            latency,
                        ) by {
                        lemma_with_latency_concat(seq![server], tail, latency);
                        lemma_with_latency_concat(seq![server], found, latency);
                    }
                }
            },
            _ => {},
        }
    }
    assert(all.skip(0) =~= all);
    ranked
}

proof fn lemma_with_latency_last(servers: Seq<QueriedServer>, latency: u32)
    requires
        servers.len() > 0,
    ensures
        with_latency(servers, latency) == if servers.last().latency == latency {
            with_latency(servers.drop_last(), latency).push(servers.last())
        } else {
            with_latency(servers.drop_last(), latency)
        },
{
    reveal(Seq::filter);
}

/// An ascending list without its last entry is ascending.
proof fn lemma_without_last_is_ascending(servers: Seq<QueriedServer>)
    requires
        is_ascending(servers),
        servers.len() > 0,
    ensures
        is_ascending(servers.drop_last()),
{
    let shorter = servers.drop_last();
    assert forall|i: int, j: int| 0 <= i <= j < shorter.len() implies shorter[i].latency
        <= shorter[j].latency by {
        assert(shorter[i] == servers[i] && shorter[j] == servers[j]);
    }
}

/// A latency that occurs in an ascending list is at most that of the last
/// entry.
proof fn lemma_latency_is_bounded(servers: Seq<QueriedServer>, latency: u32)
    requires
        is_ascending(servers),
        with_latency(servers, latency).len() > 0,
    ensures
        servers.len() > 0,
        latency <= servers.last().latency,
{
    if forall|i: int| 0 <= i < servers.len() ==> servers[i].latency != latency {
        lemma_with_latency_absent(servers, latency);
    } else {
        let i = choose|i: int| 0 <= i < servers.len() && servers[i].latency == latency;
        assert(servers[i].latency <= servers[servers.len() - 1].latency);
    }
}

/// Two ascending lists that agree, latency by latency, on the entries of that
/// latency and their order are one and the same list.
proof fn lemma_ascending_lists_agree(a: Seq<QueriedServer>, b: Seq<QueriedServer>)
    requires
        is_ascending(a),
        is_ascending(b),
        forall|latency: u32|
            #![trigger with_latency(a, latency)]
            #![trigger with_latency(b, latency)]
            with_latency(a, latency) == with_latency(b, latency),
    ensures
        a == b,
    decreases a.len(),
{
    if a.len() == 0 {
        if b.len() > 0 {
            let lb = b.last().latency;
            lemma_with_latency_last(b, lb);
            assert(with_latency(a, lb) == with_latency(b, lb));
            lemma_latency_is_bounded(a, lb);
        }
        assert(a =~= b);
    } else {
        let la = a.last().latency;
        lemma_with_latency_last(a, la);
        assert(with_latency(a, la) == with_latency(b, la));
        lemma_latency_is_bounded(b, la);
        let lb = b.last().latency;
        lemma_with_latency_last(b, lb);
        assert(with_latency(a, lb) == with_latency(b, lb));
        lemma_latency_is_bounded(a, lb);
        assert(la == lb);
        let short_a = a.drop_last();
        let short_b = b.drop_last();
        let same_a = with_latency(short_a, la).push(a.last());
        let same_b = with_latency(short_b, la).push(b.last());
        assert(same_a == same_b);
        assert(a.last() == b.last()) by {
            assert(same_a.last() == same_b.last());
        }
        assert forall|latency: u32|
            with_latency(short_a, latency) == with_latency(short_b, latency) by {
            lemma_with_latency_last(a, latency);
            lemma_with_latency_last(b, latency);
            assert(with_latency(a, latency) == with_latency(b, latency));
            if latency == la {
                assert(with_latency(short_a, la) =~= same_a.drop_last());
                assert(with_latency(short_b, la) =~= same_b.drop_last());
            }
        }
        lemma_without_last_is_ascending(a);
        lemma_without_last_is_ascending(b);
        lemma_ascending_lists_agree(short_a, short_b);
        assert(a =~= short_a.push(a.last()));
        assert(b =~= short_b.push(b.last()));
    }
}

/// The ranking is determined by the servers and their order: two rankings of
/// the same servers are equal, entry by entry.
pub proof fn lemma_ranking_is_unique(
    a: Seq<QueriedServer>,
    b: Seq<QueriedServer>,
    servers: Seq<QueriedServer>,
)
    requires
        is_ranking_of(a, servers),
        is_ranking_of(b, servers),
    ensures
        a == b,
{
    assert forall|latency: u32| with_latency(a, latency) == with_latency(b, latency) by {
        assert(with_latency(a, latency) == with_latency(servers, latency));
        assert(with_latency(b, latency) == with_latency(servers, latency));
    }
    lemma_ascending_lists_agree(a, b);
}

/// A ranking holds each of the servers, as often as it was given, and nothing
/// else.
pub proof fn lemma_ranking_keeps_servers(ranked: Seq<QueriedServer>, servers: Seq<QueriedServer>)
    requires
        is_ranking_of(ranked, servers),
    ensures
        ranked.len() == servers.len(),
        forall|server: QueriedServer| ranked.contains(server) <==> servers.contains(server),
{
    broadcast use vstd::seq_lib::to_multiset_contains;

    vstd::seq_lib::to_multiset_len(ranked);
    vstd::seq_lib::to_multiset_len(servers);
    assert forall|server: QueriedServer| ranked.contains(server) <==> servers.contains(server) by {
        assert(ranked.to_multiset().count(server) == servers.to_multiset().count(server));
    }
}

/// Every address that answered is among the successes, whatever became of the
/// other addresses.
pub proof fn lemma_success_is_kept(outcomes: Seq<Result<QueriedServer, QueryError>>, i: int)
    requires
        0 <= i < outcomes.len(),
        outcomes[i] is Ok,
    ensures
        successes(outcomes).contains(outcomes[i]->Ok_0),
    decreases outcomes.len(),
{
    let rest = successes(outcomes.drop_first());
    let found = successes(outcomes);
    if i == 0 {
        assert(found[0] == outcomes[0]->Ok_0);
    } else {
        lemma_success_is_kept(outcomes.drop_first(), i - 1);
        let server = outcomes[i]->Ok_0;
        assert(outcomes.drop_first()[i - 1] == outcomes[i]);
        let k = choose|k: int| 0 <= k < rest.len() && rest[k] == server;
        match outcomes[0] {
            Ok(first) => {
                assert(found[k + 1] == server);
            },
            Err(_) => {
                assert(found[k] == server);
            },
        }
    }
}

/// Nothing but servers that answered is among the successes.
pub proof fn lemma_success_has_answered(
    outcomes: Seq<Result<QueriedServer, QueryError>>,
    server: QueriedServer,
)
    requires
        successes(outcomes).contains(server),
    ensures
        outcomes.contains(Ok(server)),
    decreases outcomes.len(),
{
    let rest = successes(outcomes.drop_first());
    let found = successes(outcomes);
    let k = choose|k: int| 0 <= k < found.len() && found[k] == server;
    if outcomes.len() > 0 {
        if outcomes[0] == Ok::<QueriedServer, QueryError>(server) {
        } else {
            match outcomes[0] {
                Ok(first) => {
                    assert(k > 0);
                    assert(rest[k - 1] == server);
                },
                Err(_) => {
                    assert(rest[k] == server);
                },
            }
            lemma_success_has_answered(outcomes.drop_first(), server);
            let j = choose|j: int|
                0 <= j < outcomes.drop_first().len() && outcomes.drop_first()[j] == Ok::<
                    QueriedServer,
                    QueryError,
                >(server);
            assert(outcomes[j + 1] == Ok::<QueriedServer, QueryError>(server));
        }
    }
}

/// Failures stay apart: the ranking of a cycle holds every server that
/// answered, however many of the other addresses failed, and holds no server
/// that did not answer.
pub proof fn lemma_failures_are_isolated(
    outcomes: Seq<Result<QueriedServer, QueryError>>,
    ranked: Seq<QueriedServer>,
)
    requires
        is_ranking_of(ranked, successes(outcomes)),
    ensures
        forall|i: int|
            0 <= i < outcomes.len() && outcomes[i] is Ok ==> ranked.contains(
                #[trigger] outcomes[i]->Ok_0,
            ),
        forall|k: int| 0 <= k < ranked.len() ==> outcomes.contains(Ok(#[trigger] ranked[k])),
{
    lemma_ranking_keeps_servers(ranked, successes(outcomes));
    assert forall|i: int| 0 <= i < outcomes.len() && outcomes[i] is Ok implies ranked.contains(
        #[trigger] outcomes[i]->Ok_0,
    ) by {
        lemma_success_is_kept(outcomes, i);
    }
    assert forall|k: int| 0 <= k < ranked.len() implies outcomes.contains(
        Ok(#[trigger] ranked[k]),
    ) by {
        assert(ranked.contains(ranked[k]));
        lemma_success_has_answered(outcomes, ranked[k]);
    }
}

} // verus!
