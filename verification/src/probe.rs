//! The bookkeeping of a run: which host and port to try next, and what
//! each attempt showed.
//!
//! The connection attempts themselves are made by the caller. A run hands
//! out one target at a time and takes back how the attempt ended.

use vstd::prelude::*;
use vstd::arithmetic::div_mod::{lemma_fundamental_div_mod, lemma_fundamental_div_mod_converse};
use vstd::string::StringExecFns;
use crate::address::Address;
use crate::resolver::Targets;
use crate::text::{append_decimal, decimal_text};
use crate::timeout::Timeout;

verus! {

/// How one connection attempt ended.
#[derive(Debug, Clone, Copy, PartialEq, Eq, Structural)]
pub enum ConnectOutcome {
    /// The connection was established within the timeout.
    Connected,
    /// The remote end refused the connection.
    Refused,
    /// The timeout passed before the connection was established.
    TimedOut,
    /// No route led to the host.
    Unreachable,
    /// The attempt failed for another reason.
    Failed,
}

/// What a probe reports of a port.
#[derive(Debug, Clone, Copy, PartialEq, Eq, Structural)]
pub enum PortStatus {
    Open,
    Closed,
}

/// The outcome of probing one port of one host. `cause` tells the
/// failures apart; `status` is what is reported.
#[derive(Debug, Clone, Copy, PartialEq, Eq, Structural)]
pub struct ProbeResult {
    pub host: Address,
    pub port: u16,
    pub status: PortStatus,
    pub cause: ConnectOutcome,
}

/// One connection attempt to make: where to connect and how long to
/// wait for the connection at most.
#[derive(Debug, Clone, Copy, PartialEq, Eq)]
pub struct Attempt {
    pub host: Address,
    pub port: u16,
    pub timeout: Timeout,
}

/// A port is open when the connection was established and closed in every
/// other case.
pub open spec fn status_of(outcome: ConnectOutcome) -> PortStatus {
    if outcome == ConnectOutcome::Connected {
        PortStatus::Open
    } else {
        PortStatus::Closed
    }
}

/// The status that an outcome is reported as.
pub fn classify(outcome: ConnectOutcome) -> (status: PortStatus)
    ensures
        status == status_of(outcome),
{
    match outcome {
        ConnectOutcome::Connected => PortStatus::Open,
        _ => PortStatus::Closed,
    }
}

/// The line printed for a port with the given status.
pub open spec fn report_text(port: u16, status: PortStatus) -> Seq<char> {
    match status {
        PortStatus::Open => "[+] "@ + decimal_text(port as nat) + " is OPEN"@,
        PortStatus::Closed => "[-] "@ + decimal_text(port as nat) + " is CLOSED"@,
    }
}

impl ProbeResult {
    /// The line printed for this result.
    pub fn report_line(&self) -> (line: String)
        ensures
            line@ == report_text(self.port, self.status),
    {
        match self.status {
            PortStatus::Open => {
                let mut line = "[+] ".to_owned();
                append_decimal(&mut line, self.port as u64);
                line.append(" is OPEN");
                line
            },
            PortStatus::Closed => {
                let mut line = "[-] ".to_owned();
                append_decimal(&mut line, self.port as u64);
                line.append(" is CLOSED");
                line
            },
        }
    }
}

/// The number of the attempt on port number `p` of host number `h`.
pub open spec fn attempt_of(run: SpecRun, h: int, p: int) -> int {
    h * run.ports.len() + p
}

/// The number of the host that attempt `k` is made on.
pub open spec fn host_position(run: SpecRun, k: int) -> int {
    k / (run.ports.len() as int)
}

/// The number of the port that attempt `k` is made on.
pub open spec fn port_position(run: SpecRun, k: int) -> int {
    k % (run.ports.len() as int)
}

/// A run as contracts see it: the hosts and ports to probe, the timeout
/// in milliseconds, and the results so far.
pub struct SpecRun {
    pub hosts: Seq<Address>,
    pub ports: Seq<u16>,
    pub timeout: nat,
    pub results: Seq<ProbeResult>,
}

impl SpecRun {
    /// The number of attempts of the whole run: one for each port of each
    /// host.
    pub open spec fn total(self) -> nat {
        self.hosts.len() * self.ports.len()
    }

    /// The host and port of attempt `k`: all ports of the first host in
    /// their order, then all ports of the second host, and so on.
    pub open spec fn target(self, k: int) -> (Address, u16) {
        (self.hosts[host_position(self, k)], self.ports[port_position(self, k)])
    }

    /// Every attempt has been made.
    pub open spec fn finished(self) -> bool {
        self.results.len() == self.total()
    }

    /// The results so far are those of the first attempts of the run, one
    /// each and in order, and each reports the status of its cause.
    pub open spec fn in_order(self) -> bool {
        &&& self.results.len() <= self.total()
        &&& forall|k: int|
            0 <= k < self.results.len() ==> {
                &&& (#[trigger] self.results[k]).host == self.target(k).0
                &&& self.results[k].port == self.target(k).1
                &&& self.results[k].status == status_of(self.results[k].cause)
            }
    }
}

/// Every port of every host has exactly one attempt, and the attempts go
/// host by host: port number `p` of host number `h`, both counted from
/// zero, is attempt `h * |ports| + p`, and every attempt of the run is of
/// that form for one `h` and one `p`.
pub proof fn lemma_one_attempt_per_pair(run: SpecRun)
    ensures
        forall|h: int, p: int|
            0 <= h < run.hosts.len() && 0 <= p < run.ports.len() ==> {
                &&& 0 <= #[trigger] attempt_of(run, h, p) < run.total()
                &&& run.target(attempt_of(run, h, p)) == (run.hosts[h], run.ports[p])
                &&& host_position(run, attempt_of(run, h, p)) == h
                &&& port_position(run, attempt_of(run, h, p)) == p
            },
        forall|k: int|
            0 <= k < run.total() ==> {
                &&& 0 <= #[trigger] host_position(run, k) < run.hosts.len()
                &&& 0 <= port_position(run, k) < run.ports.len()
                &&& k == attempt_of(run, host_position(run, k), port_position(run, k))
            },
{
    let rows = run.hosts.len() as int;
    let width = run.ports.len() as int;
    assert forall|h: int, p: int| 0 <= h < rows && 0 <= p < width implies {
        &&& 0 <= #[trigger] attempt_of(run, h, p) < run.total()
        &&& run.target(attempt_of(run, h, p)) == (run.hosts[h], run.ports[p])
        &&& host_position(run, attempt_of(run, h, p)) == h
        &&& port_position(run, attempt_of(run, h, p)) == p
    } by {
        lemma_cursor(rows, width, h, p);
        assert(h * width >= 0) by (nonlinear_arith)
            requires
                h >= 0,
                width >= 0,
        ;
    }
    assert forall|k: int| 0 <= k < run.total() implies {
        &&& 0 <= #[trigger] host_position(run, k) < rows
        &&& 0 <= port_position(run, k) < width
        &&& k == attempt_of(run, host_position(run, k), port_position(run, k))
    } by {
        assert(width > 0) by (nonlinear_arith)
            requires
                0 <= k < rows * width,
                width >= 0,
        ;
        lemma_fundamental_div_mod(k, width);
        let q = k / width;
        assert(0 <= k % width < width);
        assert(q >= 0) by (nonlinear_arith)
            requires
                width > 0,
                k >= 0,
                q == k / width,
        ;
        assert(q < rows) by (nonlinear_arith)
            requires
                k < rows * width,
                k == width * q + k % width,
                k % width >= 0,
                width > 0,
        ;
        assert(width * q == q * width) by (nonlinear_arith);
    }
}

/// A run over the targets: a cursor into hosts and ports, and the results
/// of the attempts made so far.
pub struct ProbeRun {
    targets: Targets,
    host_idx: usize,
    port_idx: usize,
    results: Vec<ProbeResult>,
}

impl View for ProbeRun {
    type V = SpecRun;

    closed spec fn view(&self) -> SpecRun {
        SpecRun {
            hosts: self.targets.hosts@,
            ports: self.targets.ports@,
            timeout: self.targets.timeout@,
            results: self.results@,
        }
    }
}

/// With `q` whole rows of `width` and `r` more in a row, the count is
/// below `rows * width`, and dividing it by `width` gives `q` and `r` back.
proof fn lemma_cursor(rows: int, width: int, q: int, r: int)
    requires
        0 <= q < rows,
        0 <= r < width,
    ensures
        q * width + r < rows * width,
        (q * width + r) / width == q,
        (q * width + r) % width == r,
        (q + 1) * width == q * width + width,
{
    lemma_fundamental_div_mod_converse(q * width + r, width, q, r);
    assert((q + 1) * width == q * width + width) by (nonlinear_arith);
    assert((q + 1) * width <= rows * width) by (nonlinear_arith)
        requires
            q + 1 <= rows,
            width > 0,
    ;
}

impl ProbeRun {
    #[verifier::type_invariant]
    spec fn well_formed(self) -> bool {
        let hosts = self.targets.hosts@.len();
        let ports = self.targets.ports@.len();
        &&& self.host_idx <= hosts
        &&& self.host_idx < hosts && ports > 0 ==> self.port_idx < ports
        &&& self.host_idx == hosts || ports == 0 ==> self.port_idx == 0
        &&& ports == 0 ==> self.host_idx == 0
        &&& self.results@.len() == self.host_idx * ports + self.port_idx
        &&& self@.in_order()
    }

    /// A run over `targets` in which no attempt has been made yet.
    pub fn new(targets: Targets) -> (run: ProbeRun)
        ensures
            run@.hosts == targets@.hosts,
            run@.ports == targets@.ports,
            run@.timeout == targets@.timeout,
            run@.results == Seq::<ProbeResult>::empty(),
            run@.in_order(),
    {
        let run = ProbeRun { targets, host_idx: 0, port_idx: 0, results: Vec::new() };
        proof {
            assert(0 * run.targets.ports@.len() == 0) by (nonlinear_arith);
        }
        run
    }

    /// Whether every attempt has been made.
    pub fn is_finished(&self) -> (done: bool)
        ensures
            done == self@.finished(),
    {
        proof {
            use_type_invariant(self);
            self.lemma_position();
        }
        self.targets.ports.len() == 0 || self.host_idx == self.targets.hosts.len()
    }

    /// The cursor stands at the attempt after the results so far.
    proof fn lemma_position(self)
        requires
            self.well_formed(),
        ensures
            self.targets.ports@.len() == 0 || self.host_idx == self.targets.hosts@.len()
                <==> self@.finished(),
            !self@.finished() ==> {
                &&& self.host_idx < self.targets.hosts@.len()
                &&& self.port_idx < self.targets.ports@.len()
                &&& self@.target(self.results@.len() as int) == (
                    self.targets.hosts@[self.host_idx as int],
                    self.targets.ports@[self.port_idx as int],
                )
            },
    {
        let hosts = self.targets.hosts@.len() as int;
        let ports = self.targets.ports@.len() as int;
        if ports == 0 {
            assert(hosts * ports == 0) by (nonlinear_arith)
                requires
                    ports == 0,
            ;
        } else if self.host_idx < hosts {
            lemma_cursor(hosts, ports, self.host_idx as int, self.port_idx as int);
        }
    }

    /// The attempt to make next: the next target of the run, with the
    /// timeout of the run. `None` when every attempt has been made.
    pub fn next_attempt(&self) -> (next: Option<Attempt>)
        ensures
            match next {
                Some(attempt) => {
                    &&& !self@.finished()
                    &&& (attempt.host, attempt.port) == self@.target(self@.results.len() as int)
                    &&& attempt.timeout@ == self@.timeout
                },
                None => self@.finished(),
            },
    {
        proof {
            use_type_invariant(self);
            self.lemma_position();
        }
        if self.targets.ports.len() == 0 || self.host_idx == self.targets.hosts.len() {
            None
        } else {
            Some(
                Attempt {
                    host: self.targets.hosts[self.host_idx],
                    port: self.targets.ports[self.port_idx],
                    timeout: self.targets.timeout,
                },
            )
        }
    }

    /// Takes in how the next attempt ended: appends its result and moves
    /// on to the target after it. When every attempt has
    /// been made already, nothing changes and the result is `None`.
    pub fn record(&mut self, outcome: ConnectOutcome) -> (recorded: Option<ProbeResult>)
        ensures
            final(self)@.hosts == old(self)@.hosts,
            final(self)@.ports == old(self)@.ports,
            final(self)@.timeout == old(self)@.timeout,
            final(self)@.in_order(),
            match recorded {
                Some(result) => {
                    &&& !old(self)@.finished()
                    &&& result.host == old(self)@.target(old(self)@.results.len() as int).0
                    &&& result.port == old(self)@.target(old(self)@.results.len() as int).1
                    &&& result.status == status_of(outcome)
                    &&& result.cause == outcome
                    &&& final(self)@.results == old(self)@.results.push(result)
                },
                None => old(self)@.finished() && final(self)@.results == old(self)@.results,
            },
    {
        let mut run = ProbeRun {
            targets: Targets { hosts: Vec::new(), ports: Vec::new(), timeout: Timeout::default() },
            host_idx: 0,
            port_idx: 0,
            results: Vec::new(),
        };
        proof {
            assert(0 * run.targets.ports@.len() == 0) by (nonlinear_arith);
        }
        core::mem::swap(self, &mut run);
        proof {
            use_type_invariant(&run);
            run.lemma_position();
        }
        let ProbeRun { targets, host_idx, port_idx, mut results } = run;
        if targets.ports.len() == 0 || host_idx == targets.hosts.len() {
            *self = ProbeRun { targets, host_idx, port_idx, results };
            return None;
        }
        let result = ProbeResult {
            host: targets.hosts[host_idx],
            port: targets.ports[port_idx],
            status: classify(outcome),
            cause: outcome,
        };
        proof {
            lemma_cursor(
                targets.hosts@.len() as int,
                targets.ports@.len() as int,
                host_idx as int,
                port_idx as int,
            );
        }
        results.push(result);
        let last_port: bool = port_idx + 1 == targets.ports.len();
        let next = ProbeRun {
            targets,
            host_idx: if last_port {
                host_idx + 1
            } else {
                host_idx
            },
            port_idx: if last_port {
                0
            } else {
                port_idx + 1
            },
            results,
        };
        proof {
            let before = old(self)@;
            assert(next@.results == before.results.push(result));
            assert forall|k: int| 0 <= k < next@.results.len() implies {
                &&& (#[trigger] next@.results[k]).host == next@.target(k).0
                &&& next@.results[k].port == next@.target(k).1
                &&& next@.results[k].status == status_of(next@.results[k].cause)
            } by {
                if k < before.results.len() {
                    assert(next@.results[k] == before.results[k]);
                }
            }
            if next.host_idx < next.targets.hosts@.len() {
                lemma_cursor(
                    next.targets.hosts@.len() as int,
                    next.targets.ports@.len() as int,
                    next.host_idx as int,
                    next.port_idx as int,
                );
            } else {
                assert(next.host_idx * next.targets.ports@.len() == (host_idx + 1)
                    * next.targets.ports@.len());
            }
        }
        *self = next;
        Some(result)
    }

    /// The results of the attempts made so far, in the order of the
    /// attempts.
    pub fn results(&self) -> (results: &Vec<ProbeResult>)
        ensures
            results@ == self@.results,
            self@.in_order(),
    {
        proof {
            use_type_invariant(self);
        }
        &self.results
    }
}

} // verus!
