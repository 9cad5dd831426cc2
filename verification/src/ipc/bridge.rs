//! The decisions of the primal bridge: which primals count as connected,
//! how each domain's status reads, whether a call may go out (circuit
//! breaker, direct client, Neural API), what follows each attempt (retry,
//! done, give up), and the texts that stand in when a primal is absent.
//! Holding the connections and making the calls is the caller's part.

use vstd::prelude::*;
use vstd::string::*;

use crate::collections::{StrMap, StrSet};
use crate::ipc::discovery::PrimalEndpoint;
use crate::ipc::envelope::IpcError;
use crate::ipc::primal_names::domain_table;
use crate::ipc::resilience::{breaker_admits, breaker_after_admit, CircuitBreaker};
use crate::ipc::squirrel::{ChatResponse, DialogueResponse};

verus! {

/// Status of a single primal connection.
#[derive(Debug, Clone)]
pub struct PrimalStatus {
    /// Primal name.
    pub name: String,
    /// Capability domain.
    pub domain: String,
    /// Whether an endpoint was discovered (UDS or TCP).
    pub discovered: bool,
    /// Whether the primal responded to a health check.
    pub healthy: bool,
    /// Transport used for the connection (if connected).
    pub transport: Option<String>,
}

/// The mathematical content of a status: (name, domain, discovered,
/// healthy, transport).
pub open spec fn status_view(s: PrimalStatus) -> (Seq<char>, Seq<char>, bool, bool, Option<Seq<char>>) {
    (
        s.name@,
        s.domain@,
        s.discovered,
        s.healthy,
        match s.transport {
            Some(t) => Some(t@),
            None => None,
        },
    )
}

/// The statuses' contents, in order.
pub open spec fn status_views(s: Seq<PrimalStatus>) -> Seq<(Seq<char>, Seq<char>, bool, bool, Option<Seq<char>>)> {
    s.map_values(|x: PrimalStatus| status_view(x))
}

/// The status of a primal not (yet) found: nothing discovered, not healthy.
pub open spec fn idle_status(domain: Seq<char>, name: Seq<char>) -> (Seq<char>, Seq<char>, bool, bool, Option<Seq<char>>) {
    (name, domain, false, false, None)
}

/// A way to reach a primal: its TCP address or its Unix socket.
#[derive(Debug, Clone, PartialEq, Eq)]
pub enum ConnectAttempt {
    /// Connect over TCP to `host:port`.
    Tcp(String),
    /// Connect to the Unix socket at the path.
    Uds(String),
}

/// The ways to reach a discovered primal, in order of preference: TCP
/// first (it works across containers), then its Unix socket.
pub fn connect_attempts(ep: &PrimalEndpoint) -> (r: Vec<ConnectAttempt>)
    ensures
        r@.len() == (if ep.tcp_addr is Some { 1int } else { 0 }) + (if ep.socket_path is Some { 1int } else { 0 }),
        ep.tcp_addr is Some ==> (r@[0] matches ConnectAttempt::Tcp(a) && a@ == ep.tcp_addr->0@),
        ep.socket_path is Some ==> (r@[r@.len() - 1] matches ConnectAttempt::Uds(p) && p@ == ep.socket_path->0@),
{
    let mut r: Vec<ConnectAttempt> = Vec::new();
    if let Some(a) = &ep.tcp_addr {
        r.push(ConnectAttempt::Tcp(a.clone()));
    }
    if let Some(p) = &ep.socket_path {
        r.push(ConnectAttempt::Uds(p.clone()));
    }
    r
}

/// The label of the transport a connection used: `tcp:` or `uds:` and
/// the address.
pub fn attempt_label(a: &ConnectAttempt) -> (r: String)
    ensures
        r@ == match a {
            ConnectAttempt::Tcp(x) => "tcp:"@ + x@,
            ConnectAttempt::Uds(x) => "uds:"@ + x@,
        },
{
    match a {
        ConnectAttempt::Tcp(x) => crate::text::concat2("tcp:", x.as_str()),
        ConnectAttempt::Uds(x) => crate::text::concat2("uds:", x.as_str()),
    }
}

/// Whether a call may go out, and how.
#[derive(Debug)]
pub enum CallGate {
    /// Through the domain's own client.
    Direct,
    /// Through the Neural API's capability routing.
    ViaNeuralApi,
    /// Not at all: the error to report.
    Refused(IpcError),
}

/// What follows an attempt of a call.
#[derive(Debug)]
pub enum AttemptStep {
    /// The call succeeded.
    Done,
    /// The call failed recoverably and another attempt is left: wait the
    /// policy's delay for this attempt, then retry.
    Retry,
    /// The call failed for good: report this error.
    Failed(IpcError),
}

/// Whether the circuit of `domain` (if it has one) lets a request
/// through at `now`.
pub open spec fn circuit_admits(circuits: Map<Seq<char>, (u32, u64, u32, u64, bool)>, domain: Seq<char>, now: u64) -> bool {
    !circuits.contains_key(domain) || breaker_admits(circuits[domain], now)
}

/// Whether some status of `domain` reads healthy.
pub open spec fn healthy_in(s: Seq<(Seq<char>, Seq<char>, bool, bool, Option<Seq<char>>)>, domain: Seq<char>) -> bool {
    exists|i: int| 0 <= i < s.len() && (#[trigger] s[i]).1 == domain && s[i].3
}

/// Whether some status is that of `domain`.
pub open spec fn has_status_row(s: Seq<(Seq<char>, Seq<char>, bool, bool, Option<Seq<char>>)>, domain: Seq<char>) -> bool {
    exists|i: int| 0 <= i < s.len() && (#[trigger] s[i]).1 == domain
}

/// Marking the statuses of `domain` connected and healthy, and adding the
/// domain to the connected ones, keeps the connected domains those with a
/// healthy status, where the domain has a status.
proof fn lemma_connection_keeps_health(
    before: Seq<(Seq<char>, Seq<char>, bool, bool, Option<Seq<char>>)>,
    after: Seq<(Seq<char>, Seq<char>, bool, bool, Option<Seq<char>>)>,
    conn: Set<Seq<char>>,
    domain: Seq<char>,
    name: Seq<char>,
    label: Seq<char>,
)
    requires
        after.len() == before.len(),
        forall|i: int| 0 <= i < before.len() ==> #[trigger] after[i] == (if before[i].1 == domain {
            (name, domain, true, true, Some(label))
        } else {
            before[i]
        }),
        forall|d: Seq<char>| #[trigger] conn.contains(d) <==> healthy_in(before, d),
        has_status_row(before, domain),
    ensures
        forall|d: Seq<char>| #[trigger] conn.insert(domain).contains(d) <==> healthy_in(after, d),
{
    assert forall|d: Seq<char>| #[trigger] conn.insert(domain).contains(d) <==> healthy_in(after, d) by {
        if d == domain {
            let i = choose|i: int| 0 <= i < before.len() && (#[trigger] before[i]).1 == domain;
            assert(after[i].1 == domain && after[i].3);
        } else {
            if conn.contains(d) {
                let i = choose|i: int| 0 <= i < before.len() && (#[trigger] before[i]).1 == d && before[i].3;
                assert(after[i] == before[i]);
            }
            if healthy_in(after, d) {
                let i = choose|i: int| 0 <= i < after.len() && (#[trigger] after[i]).1 == d && after[i].3;
                assert(after[i] == before[i]);
                assert(healthy_in(before, d));
            }
        }
    }
}

/// The bridge's bookkeeping: the status of each domain, the domains with a
/// live client, whether the Neural API is connected, and a circuit
/// breaker per domain.
#[derive(Debug)]
pub struct BridgeState {
    statuses: Vec<PrimalStatus>,
    connected: StrSet,
    neural_api: bool,
    circuits: StrMap<CircuitBreaker>,
}

impl BridgeState {
    /// The statuses, in domain-table order.
    pub closed spec fn spec_statuses(&self) -> Seq<(Seq<char>, Seq<char>, bool, bool, Option<Seq<char>>)> {
        status_views(self.statuses@)
    }

    /// The domains with a live client.
    pub closed spec fn spec_connected(&self) -> Set<Seq<char>> {
        self.connected.members()
    }

    /// Whether the Neural API is connected.
    pub closed spec fn spec_neural_api(&self) -> bool {
        self.neural_api
    }

    /// The domains with a live client are exactly those whose status reads
    /// healthy.
    pub open spec fn connections_match_health(&self) -> bool {
        forall|d: Seq<char>| #[trigger] self.spec_connected().contains(d) <==> healthy_in(self.spec_statuses(), d)
    }

    /// The circuit breaker of each domain.
    pub closed spec fn spec_circuits(&self) -> Map<Seq<char>, (u32, u64, u32, u64, bool)> {
        self.circuits.as_map().map_values(|b: CircuitBreaker| b.view())
    }

    /// A bridge with no connections: every known domain idle, each with a
    /// fresh circuit breaker configured from the settings text.
    pub fn standalone(threshold: Option<&str>, cooldown_secs: Option<&str>) -> (r: BridgeState)
        ensures
            r.spec_statuses() == domain_table().map_values(|row: (Seq<char>, Seq<char>)| idle_status(row.0, row.1)),
            r.spec_connected() == Set::<Seq<char>>::empty(),
            !r.spec_neural_api(),
            r.spec_circuits().dom() == domain_table().map_values(|row: (Seq<char>, Seq<char>)| row.0).to_set(),
            forall|d: Seq<char>| #[trigger] r.spec_circuits().contains_key(d) ==> r.spec_circuits()[d].2 == 0
                && !r.spec_circuits()[d].4,
            r.connections_match_health(),
    {
        let t = crate::ipc::primal_names::domain_table_exec();
        let mut statuses: Vec<PrimalStatus> = Vec::new();
        let mut circuits: StrMap<CircuitBreaker> = StrMap::new();
        let ghost rows = domain_table();
        let mut i: usize = 0;
        while i < t.len()
            invariant
                i <= t@.len(),
                t@.len() == rows.len(),
                rows == domain_table(),
                forall|k: int| 0 <= k < t@.len() ==> (#[trigger] t@[k]).0@ == rows[k].0 && t@[k].1@ == rows[k].1,
                status_views(statuses@) == rows.subrange(0, i as int).map_values(|row: (Seq<char>, Seq<char>)| idle_status(row.0, row.1)),
                circuits.as_map().dom() == rows.subrange(0, i as int).map_values(|row: (Seq<char>, Seq<char>)| row.0).to_set(),
                forall|d: Seq<char>| #[trigger] circuits.as_map().contains_key(d) ==> circuits.as_map()[d].spec_failures() == 0
                    && !circuits.as_map()[d].spec_probe_out(),
            decreases t@.len() - i,
        {
            let s = PrimalStatus {
                name: String::from_str(t[i].1),
                domain: String::from_str(t[i].0),
                discovered: false,
                healthy: false,
                transport: None,
            };
            let ghost before = statuses@;
            statuses.push(s);
            let cb = CircuitBreaker::from_env(threshold, cooldown_secs);
            circuits.insert(String::from_str(t[i].0), cb);
            proof {
                let pre = rows.subrange(0, i as int);
                let post = rows.subrange(0, i + 1);
                assert(post == pre.push(rows[i as int]));
                assert(statuses@ == before.push(s));
                assert(status_views(statuses@) =~= status_views(before).push(status_view(s)));
                assert(post.map_values(|row: (Seq<char>, Seq<char>)| idle_status(row.0, row.1)) =~= pre.map_values(
                    |row: (Seq<char>, Seq<char>)| idle_status(row.0, row.1),
                ).push(idle_status(rows[i as int].0, rows[i as int].1)));
                assert(post.map_values(|row: (Seq<char>, Seq<char>)| row.0) =~= pre.map_values(|row: (Seq<char>, Seq<char>)| row.0).push(
                    rows[i as int].0,
                ));
                pre.map_values(|row: (Seq<char>, Seq<char>)| row.0).lemma_push_to_set_commute(rows[i as int].0);
            }
            i = i + 1;
        }
        proof {
            assert(rows.subrange(0, rows.len() as int) =~= rows);
        }
        let r = BridgeState { statuses, connected: StrSet::new(), neural_api: false, circuits };
        proof {
            assert(r.spec_circuits().dom() =~= r.circuits.as_map().dom());
            assert forall|d: Seq<char>| #[trigger] r.spec_connected().contains(d) <==> healthy_in(r.spec_statuses(), d) by {
                if healthy_in(r.spec_statuses(), d) {
                    let i = choose|i: int| 0 <= i < r.spec_statuses().len() && (#[trigger] r.spec_statuses()[i]).1 == d && r.spec_statuses()[i].3;
                    assert(r.spec_statuses()[i] == idle_status(rows[i].0, rows[i].1));
                }
            }
        }
        r
    }

    /// Status of all primal connections.
    pub fn statuses(&self) -> (r: &Vec<PrimalStatus>)
        ensures
            status_views(r@) == self.spec_statuses(),
    {
        &self.statuses
    }

    /// Whether calls for `domain` can go out: it has a live client, or the
    /// Neural API is connected.
    pub fn has(&self, domain: &str) -> (r: bool)
        ensures
            r == (self.spec_connected().contains(domain@) || self.spec_neural_api()),
    {
        self.connected.contains(domain) || self.neural_api
    }

    /// Number of domains with a live client.
    pub fn connected_count(&self) -> (r: usize)
        ensures
            r == self.spec_connected().len(),
    {
        self.connected.len()
    }

    /// Whether the Neural API is connected.
    pub fn has_neural_api(&self) -> (r: bool)
        ensures
            r == self.spec_neural_api(),
    {
        self.neural_api
    }

    /// Records that the Neural API is connected (or not).
    pub fn set_neural_api(&mut self, connected: bool)
        ensures
            final(self).spec_neural_api() == connected,
            final(self).spec_statuses() == old(self).spec_statuses(),
            final(self).spec_connected() == old(self).spec_connected(),
            final(self).spec_circuits() == old(self).spec_circuits(),
            old(self).connections_match_health() ==> final(self).connections_match_health(),
    {
        self.neural_api = connected;
    }

    /// Records a live client for `domain` reached over `transport_label`
    /// (its primal named `name`): the domain counts as connected, and its
    /// status reads discovered and healthy, with that transport and name.
    pub fn record_connection(&mut self, domain: &str, name: &str, transport_label: &str)
        ensures
            final(self).spec_connected() == old(self).spec_connected().insert(domain@),
            final(self).spec_statuses().len() == old(self).spec_statuses().len(),
            forall|i: int| 0 <= i < old(self).spec_statuses().len() ==> #[trigger] final(self).spec_statuses()[i] == (if old(self).spec_statuses()[i].1 == domain@ {
                (name@, domain@, true, true, Some(transport_label@))
            } else {
                old(self).spec_statuses()[i]
            }),
            final(self).spec_neural_api() == old(self).spec_neural_api(),
            final(self).spec_circuits() == old(self).spec_circuits(),
            old(self).connections_match_health() && has_status_row(old(self).spec_statuses(), domain@)
                ==> final(self).connections_match_health(),
    {
        self.connected.insert(String::from_str(domain));
        let ghost before = status_views(self.statuses@);
        let ghost conn0 = self.spec_connected();
        let mut i: usize = 0;
        while i < self.statuses.len()
            invariant
                self.spec_connected() == conn0,
                conn0 == old(self).spec_connected().insert(domain@),
                self.spec_neural_api() == old(self).spec_neural_api(),
                self.spec_circuits() == old(self).spec_circuits(),
                i <= self.statuses@.len(),
                before.len() == self.statuses@.len(),
                forall|k: int| 0 <= k < self.statuses@.len() ==> #[trigger] status_views(self.statuses@)[k] == (if k < i && before[k].1 == domain@ {
                    (name@, domain@, true, true, Some(transport_label@))
                } else {
                    before[k]
                }),
            decreases self.statuses@.len() - i,
        {
            proof {
                assert(status_views(self.statuses@)[i as int] == status_view(self.statuses@[i as int]));
            }
            if crate::text::str_eq(self.statuses[i].domain.as_str(), domain) {
                let s = PrimalStatus {
                    name: String::from_str(name),
                    domain: String::from_str(domain),
                    discovered: true,
                    healthy: true,
                    transport: Some(String::from_str(transport_label)),
                };
                let ghost prev = self.statuses@;
                self.statuses.set(i, s);
                proof {
                    assert forall|k: int| 0 <= k < self.statuses@.len() implies #[trigger] status_views(self.statuses@)[k] == (if k < i + 1 && before[k].1 == domain@ {
                        (name@, domain@, true, true, Some(transport_label@))
                    } else {
                        before[k]
                    }) by {
                        assert(status_views(self.statuses@)[k] == status_view(self.statuses@[k]));
                        assert(status_views(prev)[k] == status_view(prev[k]));
                    }
                }
            }
            i = i + 1;
        }
        proof {
            if old(self).connections_match_health() && has_status_row(old(self).spec_statuses(), domain@) {
                lemma_connection_keeps_health(
                    before,
                    self.spec_statuses(),
                    old(self).spec_connected(),
                    domain@,
                    name@,
                    transport_label@,
                );
            }
        }
    }

    /// Records that `domain`'s primal was discovered, though not reached.
    pub fn record_discovered(&mut self, domain: &str)
        ensures
            final(self).spec_statuses().len() == old(self).spec_statuses().len(),
            forall|i: int| 0 <= i < old(self).spec_statuses().len() ==> #[trigger] final(self).spec_statuses()[i] == (if old(self).spec_statuses()[i].1 == domain@ {
                ({
                    let s = old(self).spec_statuses()[i];
                    (s.0, s.1, true, s.3, s.4)
                })
            } else {
                old(self).spec_statuses()[i]
            }),
            final(self).spec_connected() == old(self).spec_connected(),
            final(self).spec_neural_api() == old(self).spec_neural_api(),
            final(self).spec_circuits() == old(self).spec_circuits(),
            old(self).connections_match_health() ==> final(self).connections_match_health(),
    {
        let ghost before = status_views(self.statuses@);
        let mut i: usize = 0;
        while i < self.statuses.len()
            invariant
                self.spec_connected() == old(self).spec_connected(),
                self.spec_neural_api() == old(self).spec_neural_api(),
                self.spec_circuits() == old(self).spec_circuits(),
                i <= self.statuses@.len(),
                before.len() == self.statuses@.len(),
                forall|k: int| 0 <= k < self.statuses@.len() ==> #[trigger] status_views(self.statuses@)[k] == (if k < i && before[k].1 == domain@ {
                    (before[k].0, before[k].1, true, before[k].3, before[k].4)
                } else {
                    before[k]
                }),
            decreases self.statuses@.len() - i,
        {
            proof {
                assert(status_views(self.statuses@)[i as int] == status_view(self.statuses@[i as int]));
            }
            if crate::text::str_eq(self.statuses[i].domain.as_str(), domain) {
                let old_s = &self.statuses[i];
                let s = PrimalStatus {
                    name: old_s.name.clone(),
                    domain: old_s.domain.clone(),
                    discovered: true,
                    healthy: old_s.healthy,
                    transport: match &old_s.transport {
                        Some(t) => Some(t.clone()),
                        None => None,
                    },
                };
                let ghost prev = self.statuses@;
                self.statuses.set(i, s);
                proof {
                    assert forall|k: int| 0 <= k < self.statuses@.len() implies #[trigger] status_views(self.statuses@)[k] == (if k < i + 1 && before[k].1 == domain@ {
                        (before[k].0, before[k].1, true, before[k].3, before[k].4)
                    } else {
                        before[k]
                    }) by {
                        assert(status_views(self.statuses@)[k] == status_view(self.statuses@[k]));
                        assert(status_views(prev)[k] == status_view(prev[k]));
                    }
                }
            }
            i = i + 1;
        }
        proof {
            let after = self.spec_statuses();
            assert forall|d: Seq<char>| healthy_in(after, d) <==> healthy_in(before, d) by {
                if healthy_in(after, d) {
                    let k = choose|k: int| 0 <= k < after.len() && (#[trigger] after[k]).1 == d && after[k].3;
                    assert(before[k].1 == d && before[k].3);
                }
                if healthy_in(before, d) {
                    let k = choose|k: int| 0 <= k < before.len() && (#[trigger] before[k]).1 == d && before[k].3;
                    assert(after[k].1 == d && after[k].3);
                }
            }
        }
    }

    /// Whether a call of `method` for `domain` may go out at time `now`:
    /// refused while the domain's circuit lets nothing through (open, or
    /// half-open with its probe out); through the domain's own client if it
    /// has one, the call then counting as the probe of a half-open circuit;
    /// else through the Neural API if that is connected; else the primal is
    /// not found.
    pub fn gate(&mut self, domain: &str, method: &str, now: u64) -> (r: CallGate)
        ensures
            final(self).spec_statuses() == old(self).spec_statuses(),
            final(self).spec_connected() == old(self).spec_connected(),
            final(self).spec_neural_api() == old(self).spec_neural_api(),
            old(self).connections_match_health() ==> final(self).connections_match_health(),
            match r {
                CallGate::Refused(e) => {
                    ||| (!circuit_admits(old(self).spec_circuits(), domain@, now) && e == IpcError::ConnectionRefused(
                        e->ConnectionRefused_0,
                    ) && e->ConnectionRefused_0@ == "circuit open for domain "@ + domain@ + " — skipping "@ + method@)
                    ||| (circuit_admits(old(self).spec_circuits(), domain@, now) && !old(self).spec_connected().contains(domain@)
                        && !old(self).spec_neural_api() && e == IpcError::PrimalNotFound { domain: e->PrimalNotFound_domain }
                        && e->PrimalNotFound_domain@ == domain@)
                },
                CallGate::Direct => circuit_admits(old(self).spec_circuits(), domain@, now) && old(self).spec_connected().contains(
                    domain@,
                ),
                CallGate::ViaNeuralApi => circuit_admits(old(self).spec_circuits(), domain@, now)
                    && !old(self).spec_connected().contains(domain@) && old(self).spec_neural_api(),
            },
            final(self).spec_circuits() == (if r is Direct && old(self).spec_circuits().contains_key(domain@) {
                old(self).spec_circuits().insert(domain@, breaker_after_admit(old(self).spec_circuits()[domain@], now))
            } else {
                old(self).spec_circuits()
            }),
    {
        let admitted = match self.circuits.get(domain) {
            Some(cb) => cb.admits_at(now),
            None => true,
        };
        if !admitted {
            let mut msg = String::from_str("circuit open for domain ");
            msg.append(domain);
            msg.append(" — skipping ");
            msg.append(method);
            return CallGate::Refused(IpcError::ConnectionRefused(msg));
        }
        if !self.connected.contains(domain) {
            if self.neural_api {
                return CallGate::ViaNeuralApi;
            }
            return CallGate::Refused(IpcError::PrimalNotFound { domain: String::from_str(domain) });
        }
        let ghost m0 = self.circuits.as_map();
        match self.circuits.remove(domain) {
            Some(mut cb) => {
                let _ = cb.is_allowed_at(now);
                self.circuits.insert(String::from_str(domain), cb);
                proof {
                    assert(self.circuits.as_map() == m0.remove(domain@).insert(domain@, cb));
                    assert(self.spec_circuits() =~= old(self).spec_circuits().insert(domain@, cb.view()));
                }
            },
            None => {
                proof {
                    assert(self.circuits.as_map() =~= m0);
                }
            },
        }
        proof {
            assert(self.statuses@ == old(self).statuses@);
            assert(self.spec_connected() == old(self).spec_connected());
        }
        CallGate::Direct
    }

    /// Records a success or a failure (at `now`) on the circuit breaker of
    /// `domain`, if it has one.
    fn update_circuit(&mut self, domain: &str, success: bool, now: u64)
        ensures
            final(self).spec_statuses() == old(self).spec_statuses(),
            final(self).spec_connected() == old(self).spec_connected(),
            final(self).spec_neural_api() == old(self).spec_neural_api(),
            final(self).spec_circuits() == (if old(self).spec_circuits().contains_key(domain@) {
                let b = old(self).spec_circuits()[domain@];
                old(self).spec_circuits().insert(
                    domain@,
                    if success { (b.0, b.1, 0u32, b.3, false) } else { (b.0, b.1, b.2.wrapping_add(1), now, false) },
                )
            } else {
                old(self).spec_circuits()
            }),
    {
        let ghost m0 = self.circuits.as_map();
        match self.circuits.remove(domain) {
            Some(mut cb) => {
                if success {
                    cb.record_success();
                } else {
                    cb.record_failure_at(now);
                }
                self.circuits.insert(String::from_str(domain), cb);
                proof {
                    assert(self.circuits.as_map() == m0.remove(domain@).insert(domain@, cb));
                    assert(self.spec_circuits() =~= old(self).spec_circuits().insert(domain@, cb.view()));
                }
            },
            None => {
                proof {
                    assert(self.circuits.as_map() =~= m0);
                }
            },
        }
    }

    /// What follows attempt `attempt` (counting from 0, with `max_retries`
    /// retries allowed) of a direct call for `domain` at time `now`, given
    /// its failure (`None` for success): a success resets the domain's
    /// circuit and is done; an unrecoverable failure, or a recoverable one
    /// with no attempt left, counts against the circuit and is reported; a
    /// recoverable failure with attempts left is retried.
    pub fn finish_attempt(&mut self, domain: &str, attempt: u32, max_retries: u32, failure: Option<IpcError>, now: u64) -> (r: AttemptStep)
        requires
            attempt <= max_retries,
        ensures
            final(self).spec_statuses() == old(self).spec_statuses(),
            final(self).spec_connected() == old(self).spec_connected(),
            final(self).spec_neural_api() == old(self).spec_neural_api(),
            old(self).connections_match_health() ==> final(self).connections_match_health(),
            match failure {
                None => r is Done && final(self).spec_circuits() == (if old(self).spec_circuits().contains_key(domain@) {
                    let b = old(self).spec_circuits()[domain@];
                    old(self).spec_circuits().insert(domain@, (b.0, b.1, 0u32, b.3, false))
                } else {
                    old(self).spec_circuits()
                }),
                Some(e) => if (e is ConnectionRefused || e is ConnectionReset || e is Timeout || e is ApplicationError) && attempt < max_retries {
                    r is Retry && final(self).spec_circuits() == old(self).spec_circuits()
                } else {
                    r == AttemptStep::Failed(e) && final(self).spec_circuits() == (if old(self).spec_circuits().contains_key(domain@) {
                        let b = old(self).spec_circuits()[domain@];
                        old(self).spec_circuits().insert(domain@, (b.0, b.1, b.2.wrapping_add(1), now, false))
                    } else {
                        old(self).spec_circuits()
                    })
                },
            },
    {
        match failure {
            None => {
                self.update_circuit(domain, true, now);
                AttemptStep::Done
            },
            Some(e) => {
                if e.is_recoverable() && attempt < max_retries {
                    AttemptStep::Retry
                } else {
                    self.update_circuit(domain, false, now);
                    AttemptStep::Failed(e)
                }
            },
        }
    }
}

/// The capability and operation a method names for Neural API routing:
/// the parts before and after its first `.`, or the domain and the whole
/// method where it has none.
pub open spec fn capability_split(domain: Seq<char>, method: Seq<char>) -> (Seq<char>, Seq<char>) {
    if exists|i: int| 0 <= i < method.len() && method[i] == '.' {
        let k = choose|i: int| 0 <= i < method.len() && method[i] == '.' && forall|j: int| 0 <= j < i ==> method[j] != '.';
        (method.subrange(0, k), method.subrange(k + 1, method.len() as int))
    } else {
        (domain, method)
    }
}

/// The capability and operation a method names for Neural API routing:
/// the parts before and after its first `.`, or the domain and the whole
/// method where it has none.
pub fn split_capability(domain: &str, method: &str) -> (r: (String, String))
    ensures
        (r.0@, r.1@) == capability_split(domain@, method@),
{
    let n = method.unicode_len();
    let mut i: usize = 0;
    while i < n
        invariant
            n == method@.len(),
            i <= n,
            forall|j: int| 0 <= j < i ==> method@[j] != '.',
        decreases n - i,
    {
        if method.get_char(i) == '.' {
            proof {
                let k = choose|k: int| 0 <= k < method@.len() && method@[k] == '.' && forall|j: int| 0 <= j < k ==> method@[j] != '.';
                if k < i {
                    assert(method@[k] != '.');
                } else if k > i {
                    assert(method@[i as int] != '.');
                }
            }
            return (String::from_str(method.substring_char(0, i)), String::from_str(method.substring_char(i + 1, n)));
        }
        i = i + 1;
    }
    (String::from_str(domain), String::from_str(method))
}

/// How many characters of context a degraded summary keeps, read from
/// its setting: a `usize`, else 200.
pub fn summary_limit(setting: Option<&str>) -> (r: usize)
    ensures
        r == crate::ipc::resilience::setting_or(setting, usize::MAX as nat, 200),
{
    crate::ipc::resilience::read_setting(setting, usize::MAX as u64, 200) as usize
}

/// The summary that stands in when the AI primal gives none: a marker,
/// then the first `limit` characters of the context, then `...`.
pub fn degraded_summary(context: &str, limit: usize) -> (r: String)
    ensures
        r@ == "[degraded: summary unavailable] "@ + context@.subrange(
            0,
            if limit < context@.len() { limit as int } else { context@.len() as int },
        ) + "..."@,
{
    let n = context.unicode_len();
    let k = if limit < n { limit } else { n };
    let mut r = String::from_str("[degraded: summary unavailable] ");
    r.append(context.substring_char(0, k));
    r.append("...");
    r
}

/// The narration that stands in for the AI primal's, naming the prompt.
pub fn narration_placeholder(prompt: &str) -> (r: ChatResponse)
    ensures
        r.text@ == "[AI primal unavailable — narration placeholder for: "@ + prompt@ + "]"@,
        r.model@ == "none"@,
        r.tokens == 0,
{
    ChatResponse {
        text: crate::text::concat3("[AI primal unavailable — narration placeholder for: ", prompt, "]"),
        model: String::from_str("none"),
        tokens: 0,
    }
}

/// The action narration that stands in when the AI primal gives none.
pub fn degraded_narration() -> (r: ChatResponse)
    ensures
        r.text@ == "[AI primal unavailable — narration degraded]"@,
        r.model@ == "none"@,
        r.tokens == 0,
{
    ChatResponse {
        text: String::from_str("[AI primal unavailable — narration degraded]"),
        model: String::from_str("none"),
        tokens: 0,
    }
}

/// The prompt that asks the AI primal to speak as an NPC: its id (else
/// "unknown") and the context (else empty).
pub fn npc_prompt(npc_id: Option<&str>, context: Option<&str>) -> (r: String)
    ensures
        r@ == "You are NPC '"@ + (match npc_id {
            Some(n) => n@,
            None => "unknown"@,
        }) + "' in a CRPG. Respond in character.\nContext: "@ + (match context {
            Some(c) => c@,
            None => Seq::<char>::empty(),
        }),
{
    let mut r = String::from_str("You are NPC '");
    match npc_id {
        Some(n) => r.append(n),
        None => r.append("unknown"),
    }
    r.append("' in a CRPG. Respond in character.\nContext: ");
    if let Some(c) = context {
        r.append(c);
    }
    proof {
        if context is None {
            assert(r@ =~= "You are NPC '"@ + (match npc_id {
                Some(n) => n@,
                None => "unknown"@,
            }) + "' in a CRPG. Respond in character.\nContext: "@ + Seq::<char>::empty());
        }
    }
    r
}

/// The text that asks the AI primal to narrate an action and its outcome
/// (else "unknown" and empty).
pub fn narrate_request(action: Option<&str>, outcome: Option<&str>) -> (r: String)
    ensures
        r@ == "Narrate: "@ + (match action {
            Some(a) => a@,
            None => "unknown"@,
        }) + ". Outcome: "@ + (match outcome {
            Some(o) => o@,
            None => Seq::<char>::empty(),
        }),
{
    let mut r = String::from_str("Narrate: ");
    match action {
        Some(a) => r.append(a),
        None => r.append("unknown"),
    }
    r.append(". Outcome: ");
    if let Some(o) = outcome {
        r.append(o);
    }
    proof {
        if outcome is None {
            assert(r@ =~= "Narrate: "@ + (match action {
                Some(a) => a@,
                None => "unknown"@,
            }) + ". Outcome: "@ + Seq::<char>::empty());
        }
    }
    r
}

/// The NPC dialogue that stands in when the AI primal is unavailable.
pub fn unavailable_dialogue() -> (r: DialogueResponse)
    ensures
        r.text@ == "[AI primal unavailable — NPC dialogue degraded]"@,
        r.voice_notes@.len() == 0,
        !r.passive_checks_fired,
        r.degraded,
{
    DialogueResponse {
        text: String::from_str("[AI primal unavailable — NPC dialogue degraded]"),
        voice_notes: Vec::new(),
        passive_checks_fired: false,
        degraded: true,
    }
}

/// The NPC dialogue when the AI primal's reply does not read.
pub fn unreadable_dialogue() -> (r: DialogueResponse)
    ensures
        r.text@ == "[AI response could not be parsed]"@,
        r.voice_notes@.len() == 0,
        !r.passive_checks_fired,
        r.degraded,
{
    DialogueResponse {
        text: String::from_str("[AI response could not be parsed]"),
        voice_notes: Vec::new(),
        passive_checks_fired: false,
        degraded: true,
    }
}

/// The NPC dialogue made of the AI primal's reply text.
pub fn dialogue_from_reply(text: String) -> (r: DialogueResponse)
    ensures
        r.text@ == text@,
        r.voice_notes@.len() == 0,
        !r.passive_checks_fired,
        !r.degraded,
{
    DialogueResponse { text, voice_notes: Vec::new(), passive_checks_fired: false, degraded: false }
}

/// The view of what each named reply field holds: a string, or `None`
/// where the field is absent or holds no string.
pub open spec fn field_texts(fields: Seq<Option<String>>) -> Seq<Option<Seq<char>>> {
    fields.map_values(|f: Option<String>| match f {
        Some(s) => Some(s@),
        None => None,
    })
}

/// The first string among the fields, in the order they are asked for.
pub open spec fn first_text(fields: Seq<Option<Seq<char>>>) -> Option<Seq<char>>
    decreases fields.len(),
{
    if fields.len() == 0 {
        None
    } else {
        match fields[0] {
            Some(s) => Some(s),
            None => first_text(fields.drop_first()),
        }
    }
}

/// The id a reply gives through a list of candidate fields (such as
/// `session_id`, then `id`): the first that holds a string. Each entry is
/// what one field holds, in the order the fields are asked for.
pub fn first_string_field(fields: &Vec<Option<String>>) -> (r: Option<String>)
    ensures
        match r {
            Some(s) => first_text(field_texts(fields@)) == Some(s@),
            None => first_text(field_texts(fields@)) is None,
        },
{
    let mut i: usize = 0;
    proof {
        assert(field_texts(fields@).subrange(0, fields@.len() as int) =~= field_texts(fields@));
    }
    while i < fields.len()
        invariant
            i <= fields@.len(),
            first_text(field_texts(fields@)) == first_text(field_texts(fields@).subrange(i as int, fields@.len() as int)),
        decreases fields@.len() - i,
    {
        let ghost rest = field_texts(fields@).subrange(i as int, fields@.len() as int);
        proof {
            assert(rest.drop_first() =~= field_texts(fields@).subrange(i + 1, fields@.len() as int));
        }
        match &fields[i] {
            Some(s) => {
                return Some(s.clone());
            },
            None => {},
        }
        i = i + 1;
    }
    None
}

/// The id an event append answers with: none without a result; else the
/// first string among its id fields, or "ok" where none holds one.
pub fn appended_event_id(result_fields: Option<&Vec<Option<String>>>) -> (r: Option<String>)
    ensures
        match result_fields {
            None => r is None,
            Some(f) => r matches Some(s) && s@ == match first_text(field_texts(f@)) {
                Some(t) => t,
                None => "ok"@,
            },
        },
{
    match result_fields {
        None => None,
        Some(f) => match first_string_field(f) {
            Some(id) => Some(id),
            None => Some(String::from_str("ok")),
        },
    }
}

/// What a degrading call gives: the value the primal's reply read as,
/// where the domain is reachable, the call went through and the reply
/// read; else the stand-in `default`. `reply` is `None` for a failed
/// call and `Some(None)` for a reply that did not read.
pub fn reply_or_default<T>(reachable: bool, reply: Option<Option<T>>, default: T) -> (r: T)
    ensures
        r == (if reachable {
            match reply {
                Some(Some(v)) => v,
                _ => default,
            }
        } else {
            default
        }),
{
    if !reachable {
        return default;
    }
    match reply {
        Some(Some(v)) => v,
        _ => default,
    }
}

} // verus!
