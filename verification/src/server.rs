//! A server that answered a query, and the rule that decides whether to join
//! it.

use crate::decimal::{decimal_digits, push_decimal};
use crate::error::QueryError;
use crate::probe::{first_capture, ping, probe_outcome, PING_GROUP, PING_PATTERN};
use crate::wire::{decode, ServerInfo, ServerResponse};
use vstd::prelude::*;
use vstd::string::*;

verus! {

/// Where a server listens: an IPv4 address and a UDP port.
#[derive(Debug, Clone, Copy, PartialEq, Eq)]
pub struct ServerAddress {
    pub ip: [u8; 4],
    pub port: u16,
}

/// The launcher's address of the game: what the client is started with, up to
/// the server's address.
pub const LAUNCH_URI: &'static str = "steam://rungame/730/76561202255233023/+connect%20";

/// The address as it is written: the four parts of the IPv4 address in
/// decimal with dots between them, a colon, and the port in decimal.
pub open spec fn address_text(addr: ServerAddress) -> Seq<char> {
    decimal_digits(addr.ip[0] as nat) + "."@ + decimal_digits(addr.ip[1] as nat) + "."@
        + decimal_digits(addr.ip[2] as nat) + "."@ + decimal_digits(addr.ip[3] as nat) + ":"@
        + decimal_digits(addr.port as nat)
}

/// The command line that starts the game client on the server at `addr`.
pub open spec fn launch_text(addr: ServerAddress) -> Seq<char> {
    "start"@ + " "@ + LAUNCH_URI@ + address_text(addr)
}

impl ServerAddress {
    /// The command line that starts the game client on this server. Running
    /// it is the caller's business.
    pub fn launch_command(&self) -> (command: String)
        ensures
            command@ == launch_text(*self),
    {
        let mut command = String::from_str("start");
        command.append(" ");
        command.append(LAUNCH_URI);
        push_decimal(&mut command, self.ip[0] as u32);
        command.append(".");
        push_decimal(&mut command, self.ip[1] as u32);
        command.append(".");
        push_decimal(&mut command, self.ip[2] as u32);
        command.append(".");
        push_decimal(&mut command, self.ip[3] as u32);
        command.append(":");
        push_decimal(&mut command, self.port as u32);
        assert(command@ =~= launch_text(*self));
        command
    }
}

/// When a server is worth joining.
#[derive(Debug, Clone, Copy, PartialEq, Eq)]
pub struct JoinPolicy {
    /// A server qualifies only with more human players than this.
    pub threshold: u8,
    /// A server qualifies only with a latency below this, where one is set.
    pub latency_cap: Option<u32>,
}

/// Players that are not bots. The wire format does not promise that the bots
/// are counted among the players, so the difference stops at zero.
pub open spec fn real_players(info: ServerInfo) -> int {
    if info.players >= info.bots {
        info.players - info.bots
    } else {
        0
    }
}

/// Places left for human players, stopping at zero likewise.
pub open spec fn available_slots(info: ServerInfo) -> int {
    if info.max_players >= real_players(info) {
        info.max_players - real_players(info)
    } else {
        0
    }
}

/// The admission rule: a free place, more human players than the threshold,
/// and a latency under the cap where the policy sets one.
pub open spec fn admits(policy: JoinPolicy, info: ServerInfo, latency: u32) -> bool {
    &&& available_slots(info) > 0
    &&& real_players(info) > policy.threshold
    &&& match policy.latency_cap {
        Some(cap) => latency < cap,
        None => true,
    }
}

/// The line that reports a server: its name, its latency, the human players
/// out of the player limit, and the bots in brackets.
pub open spec fn summary_text(info: ServerInfo, latency: u32) -> Seq<char> {
    info.name + "  "@ + decimal_digits(latency as nat) + "ms  "@ + decimal_digits(
        real_players(info) as nat,
    ) + "/"@ + decimal_digits(info.max_players as nat) + " ("@ + decimal_digits(info.bots as nat)
        + ")"@
}

impl Default for JoinPolicy {
    /// More than six human players and a latency under 50 ms.
    fn default() -> (policy: Self)
        ensures
            policy.threshold == 6,
            policy.latency_cap == Some(50u32),
    {
        JoinPolicy { threshold: 6, latency_cap: Some(50) }
    }
}

/// A server together with what one poll cycle learned of it. A value is built
/// whole, once per cycle, and not changed afterwards.
#[derive(Debug, Clone, PartialEq, Eq)]
pub struct QueriedServer {
    pub addr: ServerAddress,
    pub info: ServerResponse,
    /// Round-trip time in milliseconds.
    pub latency: u32,
}

impl QueriedServer {
    /// Whether `policy` admits this server.
    pub open spec fn is_joinable(&self, policy: JoinPolicy) -> bool {
        admits(policy, self.info@, self.latency)
    }

    /// Puts together what a cycle learned of the server at `addr`.
    pub fn new(addr: ServerAddress, info: ServerResponse, latency: u32) -> (server: Self)
        ensures
            server.addr == addr,
            server.info == info,
            server.latency == latency,
    {
        QueriedServer { addr, info, latency }
    }

    /// Makes a queried server of what came back from the server at `addr`.
    ///
    /// `reply` is the datagram that answered the query, or nothing where none
    /// arrived in time; `probe_succeeded` and `probe_report` are the outcome
    /// of the latency probe. The reply is looked at first, so a missing or
    /// malformed reply is reported as such whatever the probe gave; then the
    /// latency is read from the report.
    pub fn from_addr(
        addr: ServerAddress,
        reply: Option<&[u8]>,
        probe_succeeded: bool,
        probe_report: &str,
    ) -> (r: Result<Self, QueryError>)
        ensures
            match reply {
                None => r matches Err(QueryError::QueryTimeout),
                Some(data) => match decode(data@) {
                    None => r matches Err(QueryError::MalformedResponse),
                    Some(info) => match probe_outcome(
                        probe_succeeded,
                        first_capture(PING_PATTERN@, PING_GROUP@, probe_report@),
                    ) {
                        Ok(ms) => r matches Ok(server) && server.addr == addr && server.info@
                            == info && server.latency == ms,
                        Err(e) => r matches Err(failure) && failure == e,
                    },
                },
            },
    {
        match reply {
            None => Err(QueryError::QueryTimeout),
            Some(data) => {
                let info = ServerResponse::from_data(data)?;
                let latency = ping(probe_succeeded, probe_report)?;
                Ok(QueriedServer::new(addr, info, latency))
            },
        }
    }

    /// Concludes a join attempt on this server: `launched` is what the
    /// external launcher reported. A launch that failed ends the run with an
    /// error; no other server is tried.
    pub fn connect(&self, launched: bool) -> (r: Result<(), QueryError>)
        ensures
            r == if launched {
                Ok::<(), QueryError>(())
            } else {
                Err(QueryError::JoinFailed)
            },
    {
        if launched {
            Ok(())
        } else {
            Err(QueryError::JoinFailed)
        }
    }

    /// Number of players that are not bots.
    pub fn real_players(&self) -> (n: u8)
        ensures
            n == real_players(self.info@),
    {
        self.info.players.saturating_sub(self.info.bots)
    }

    /// Number of places left for human players.
    pub fn available_slots(&self) -> (n: u8)
        ensures
            n == available_slots(self.info@),
    {
        self.info.max_players.saturating_sub(self.real_players())
    }

    /// The line that reports this server, as in `Frag Shack  20ms  10/16 (2)`.
    pub fn summary(&self) -> (line: String)
        ensures
            line@ == summary_text(self.info@, self.latency),
    {
        let mut line = self.info.name.clone();
        line.append("  ");
        push_decimal(&mut line, self.latency);
        line.append("ms  ");
        push_decimal(&mut line, self.real_players() as u32);
        line.append("/");
        push_decimal(&mut line, self.info.max_players as u32);
        line.append(" (");
        push_decimal(&mut line, self.info.bots as u32);
        line.append(")");
        line
    }

    /// Decides whether to join this server under `policy`.
    pub fn should_join(&self, policy: &JoinPolicy) -> (join: bool)
        ensures
            join == self.is_joinable(*policy),
    {
        let real_players = self.real_players();
        let available_slots = self.available_slots();
        let near_enough = match policy.latency_cap {
            Some(cap) => self.latency < cap,
            None => true,
        };
        available_slots > 0 && real_players > policy.threshold && near_enough
    }
}

/// Counts that contradict each other never lead to a join: with more bots
/// than players there are no human players, and with more human players than
/// places there is no place left. Either way the rule says no, whatever the
/// policy and the latency.
pub proof fn lemma_inconsistent_counts_never_admitted(
    policy: JoinPolicy,
    info: ServerInfo,
    latency: u32,
)
    requires
        info.bots > info.players || info.players - info.bots > info.max_players,
    ensures
        !admits(policy, info, latency),
{
}

} // verus!
