use server_poll::error::QueryError;
use server_poll::poll::{select, step, PollPlan, PollState, POLL_INTERVAL_SECS, RECEIVE_TIMEOUT_SECS};
use server_poll::rank::rank;
use server_poll::server::{JoinPolicy, QueriedServer, ServerAddress};
use server_poll::wire::ServerResponse;

fn reply(name: &str, players: u8, max_players: u8, bots: u8) -> Vec<u8> {
    ServerResponse {
        header: 0x49,
        protocol: 17,
        name: name.to_string(),
        map: "de_dust2".to_string(),
        folder: "csgo".to_string(),
        game: "Counter-Strike".to_string(),
        id: 730,
        players,
        max_players,
        bots,
    }
    .to_data()
}

fn report(ms: u32) -> String {
    format!("Reply from 10.0.0.1: bytes=32 time={}ms TTL=54", ms)
}

fn addr(last: u8) -> ServerAddress {
    ServerAddress { ip: [10, 0, 0, last], port: 27015 }
}

fn queried(last: u8, players: u8, max_players: u8, bots: u8, ms: u32) -> QueriedServer {
    let data = reply("s", players, max_players, bots);
    QueriedServer::from_addr(addr(last), Some(&data), true, &report(ms)).unwrap()
}

const POLICY: JoinPolicy = JoinPolicy { threshold: 8, latency_cap: Some(50) };

#[test]
fn from_addr_puts_reply_and_probe_together() {
    let data = reply("Frag Shack", 12, 16, 2);
    let server = QueriedServer::from_addr(addr(7), Some(&data), true, &report(20)).unwrap();
    assert_eq!(server.addr, addr(7));
    assert_eq!(server.latency, 20);
    assert_eq!(server.info.name, "Frag Shack");
    assert_eq!(server.info.map, "de_dust2");
    assert_eq!(server.info.id, 730);
    assert_eq!((server.info.players, server.info.max_players, server.info.bots), (12, 16, 2));
    assert_eq!(server.info, ServerResponse::from_data(&reply("Frag Shack", 12, 16, 2)).unwrap());
}

#[test]
fn from_addr_fails_on_a_reply_cut_short() {
    let whole = reply("s", 1, 2, 0);
    let cut = &whole[..whole.len() - 1];
    assert_eq!(
        QueriedServer::from_addr(addr(1), Some(cut), true, &report(20)),
        Err(QueryError::MalformedResponse)
    );
    assert_eq!(
        QueriedServer::from_addr(addr(1), Some(cut), false, ""),
        Err(QueryError::MalformedResponse)
    );
    assert_eq!(
        QueriedServer::from_addr(addr(1), Some(&[]), true, &report(20)),
        Err(QueryError::MalformedResponse)
    );
}

#[test]
fn from_addr_fails_without_a_reply() {
    assert_eq!(
        QueriedServer::from_addr(addr(1), None, true, &report(20)),
        Err(QueryError::QueryTimeout)
    );
    assert_eq!(QueriedServer::from_addr(addr(1), None, false, ""), Err(QueryError::QueryTimeout));
}

#[test]
fn from_addr_fails_on_a_failed_probe() {
    let whole = reply("s", 1, 2, 0);
    assert_eq!(
        QueriedServer::from_addr(addr(1), Some(&whole), false, &report(20)),
        Err(QueryError::ProbeFailed)
    );
    assert_eq!(
        QueriedServer::from_addr(addr(1), Some(&whole), true, "Request timed out."),
        Err(QueryError::ProbeFailed)
    );
}

#[test]
fn connect_reports_the_launch() {
    let server = queried(1, 15, 20, 5, 10);
    assert_eq!(server.connect(true), Ok(()));
    assert_eq!(server.connect(false), Err(QueryError::JoinFailed));
}

#[test]
fn quiet_servers_are_ranked_and_polling_goes_on() {
    let outcomes = vec![
        Ok(queried(1, 3, 20, 1, 80)),
        Ok(queried(2, 8, 20, 0, 20)),
        Ok(queried(3, 10, 20, 2, 50)),
    ];
    let ranked = rank(outcomes);
    let latencies: Vec<u32> = ranked.iter().map(|q| q.latency).collect();
    assert_eq!(latencies, vec![20, 50, 80]);
    assert_eq!(select(&ranked, &POLICY), None);
    assert_eq!(step(PollState::Polling, ranked, &POLICY), PollState::Polling);
}

#[test]
fn a_busy_server_nearby_is_joined() {
    let server = queried(4, 15, 20, 5, 10);
    assert_eq!(server.real_players(), 10);
    assert_eq!(server.available_slots(), 10);
    assert!(server.should_join(&POLICY));
    let ranked = rank(vec![Ok(server.clone())]);
    assert_eq!(select(&ranked, &POLICY), Some(0));
    assert_eq!(step(PollState::Polling, ranked, &POLICY), PollState::Joining(server));
}

#[test]
fn the_nearest_admitted_server_is_joined() {
    let ranked = rank(vec![
        Ok(queried(1, 15, 20, 5, 45)),
        Ok(queried(2, 2, 20, 0, 5)),
        Ok(queried(3, 15, 20, 5, 30)),
        Err(QueryError::QueryTimeout),
        Ok(queried(5, 15, 20, 5, 30)),
        Ok(queried(6, 20, 20, 0, 10)),
    ]);
    assert_eq!(select(&ranked, &POLICY), Some(2));
    assert_eq!(ranked[2].addr, addr(3));
    assert_eq!(
        step(PollState::Polling, ranked, &POLICY),
        PollState::Joining(queried(3, 15, 20, 5, 30))
    );
}

#[test]
fn a_server_beyond_the_cap_is_not_joined() {
    let ranked = rank(vec![Ok(queried(1, 15, 20, 5, 50)), Ok(queried(2, 15, 20, 5, 300))]);
    assert_eq!(select(&ranked, &POLICY), None);
    assert_eq!(step(PollState::Polling, ranked.clone(), &POLICY), PollState::Polling);
    let uncapped = JoinPolicy { threshold: 8, latency_cap: None };
    assert_eq!(
        step(PollState::Polling, ranked, &uncapped),
        PollState::Joining(queried(1, 15, 20, 5, 50))
    );
}

#[test]
fn an_empty_ranking_keeps_polling() {
    let ranked = rank(vec![Err(QueryError::QueryTimeout)]);
    assert_eq!(select(&ranked, &POLICY), None);
    assert_eq!(step(PollState::Polling, ranked, &POLICY), PollState::Polling);
}

#[test]
fn joining_is_final() {
    let better = rank(vec![Ok(queried(4, 15, 20, 5, 1))]);
    let nothing = rank(vec![]);
    let chosen = queried(9, 15, 20, 5, 40);
    let state = PollState::Joining(chosen.clone());
    assert_eq!(step(state.clone(), better, &POLICY), PollState::Joining(chosen.clone()));
    assert_eq!(step(state, nothing, &POLICY), PollState::Joining(chosen));
}

#[test]
fn a_timed_out_address_does_not_stop_the_join() {
    let data = reply("s", 15, 20, 5);
    let ranked = rank(vec![
        QueriedServer::from_addr(addr(1), None, true, &report(3)),
        QueriedServer::from_addr(addr(2), Some(&data[..9]), true, &report(1)),
        QueriedServer::from_addr(addr(3), Some(&data), false, ""),
        QueriedServer::from_addr(addr(4), Some(&data), true, &report(12)),
    ]);
    assert_eq!(ranked.len(), 1);
    assert_eq!(
        step(PollState::Polling, ranked, &POLICY),
        PollState::Joining(queried(4, 15, 20, 5, 12))
    );
}

#[test]
fn a_plan_needs_an_address() {
    assert_eq!(PollPlan::new(vec![], POLICY, 1), Err(QueryError::NoAddresses));
    let plan = PollPlan::new(vec![addr(1), addr(2)], POLICY, 3).unwrap();
    assert_eq!(plan.addresses, vec![addr(1), addr(2)]);
    assert_eq!(plan.policy, POLICY);
    assert_eq!(plan.interval_secs, 3);
}

#[test]
fn intervals_default_to_one_second() {
    assert_eq!(POLL_INTERVAL_SECS, 1);
    assert_eq!(RECEIVE_TIMEOUT_SECS, 1);
}
