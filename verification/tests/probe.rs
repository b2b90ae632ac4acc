use spark::address::Address;
use spark::probe::{classify, Attempt, ConnectOutcome, PortStatus, ProbeResult, ProbeRun};
use spark::resolver::{parse_args, Targets};
use spark::timeout::Timeout;

fn targets(hosts: Vec<Address>, ports: Vec<u16>) -> Targets {
    Targets { hosts, ports, timeout: Timeout::from_millis(250) }
}

fn run_with(targets: Targets, outcomes: &[ConnectOutcome]) -> (Vec<(Address, u16)>, Vec<String>) {
    let mut run = ProbeRun::new(targets);
    let mut tried = Vec::new();
    let mut lines = Vec::new();
    let mut i = 0;
    while let Some(attempt) = run.next_attempt() {
        assert_eq!(attempt.timeout.as_millis(), 250);
        let target = (attempt.host, attempt.port);
        tried.push(target);
        let result = run.record(outcomes[i % outcomes.len()]).unwrap();
        assert_eq!((result.host, result.port), target);
        lines.push(result.report_line());
        i += 1;
    }
    assert!(run.is_finished());
    assert_eq!(run.results().len(), tried.len());
    (tried, lines)
}

#[test]
fn only_an_established_connection_is_open() {
    assert_eq!(classify(ConnectOutcome::Connected), PortStatus::Open);
    assert_eq!(classify(ConnectOutcome::Refused), PortStatus::Closed);
    assert_eq!(classify(ConnectOutcome::TimedOut), PortStatus::Closed);
    assert_eq!(classify(ConnectOutcome::Unreachable), PortStatus::Closed);
    assert_eq!(classify(ConnectOutcome::Failed), PortStatus::Closed);
}

#[test]
fn local_listener_on_the_second_of_three_ports() {
    let args: Vec<String> =
        ["./spark", "127.0.0.1", "-p", "1-3"].iter().map(|s| s.to_string()).collect();
    let targets = parse_args(&args).unwrap();
    let mut run = ProbeRun::new(targets);
    let mut lines = Vec::new();
    while let Some(attempt) = run.next_attempt() {
        assert_eq!(attempt.host, Address::V4(0x7F00_0001));
        assert_eq!(attempt.timeout.as_millis(), 2000);
        let outcome = if attempt.port == 2 {
            ConnectOutcome::Connected
        } else {
            ConnectOutcome::Refused
        };
        lines.push(run.record(outcome).unwrap().report_line());
    }
    assert_eq!(lines, vec!["[-] 1 is CLOSED", "[+] 2 is OPEN", "[-] 3 is CLOSED"]);
}

#[test]
fn attempts_go_host_by_host_and_port_by_port() {
    let a = Address::V4(1);
    let b = Address::V6(2);
    let (tried, _) = run_with(
        targets(vec![a, b], vec![443, 80, 443]),
        &[ConnectOutcome::Refused],
    );
    assert_eq!(tried, vec![(a, 443), (a, 80), (a, 443), (b, 443), (b, 80), (b, 443)]);
}

#[test]
fn results_hold_target_status_and_cause() {
    let a = Address::V4(7);
    let mut run = ProbeRun::new(targets(vec![a], vec![1, 2, 3, 4, 5]));
    let outcomes = [
        ConnectOutcome::TimedOut,
        ConnectOutcome::Connected,
        ConnectOutcome::Unreachable,
        ConnectOutcome::Failed,
        ConnectOutcome::Refused,
    ];
    for o in outcomes.iter() {
        assert!(!run.is_finished());
        run.record(*o);
    }
    assert!(run.is_finished());
    let expected: Vec<ProbeResult> = outcomes
        .iter()
        .enumerate()
        .map(|(i, o)| ProbeResult {
            host: a,
            port: i as u16 + 1,
            status: if i == 1 { PortStatus::Open } else { PortStatus::Closed },
            cause: *o,
        })
        .collect();
    assert_eq!(run.results(), &expected);
}

#[test]
fn nothing_is_recorded_after_the_last_attempt() {
    let mut run = ProbeRun::new(targets(vec![Address::V4(1)], vec![9]));
    assert!(run.record(ConnectOutcome::Connected).is_some());
    assert_eq!(run.next_attempt(), None);
    assert_eq!(run.record(ConnectOutcome::Connected), None);
    assert_eq!(run.record(ConnectOutcome::Refused), None);
    assert_eq!(run.results().len(), 1);
    assert!(run.is_finished());
}

#[test]
fn asking_for_the_next_attempt_does_not_move_on() {
    let run = ProbeRun::new(targets(vec![Address::V4(1), Address::V4(2)], vec![9, 8]));
    let first = Attempt { host: Address::V4(1), port: 9, timeout: Timeout::from_millis(250) };
    assert_eq!(run.next_attempt(), Some(first));
    assert_eq!(run.next_attempt(), Some(first));
    assert_eq!(run.results().len(), 0);
}

#[test]
fn run_without_ports_or_hosts_is_finished_at_once() {
    let mut no_ports = ProbeRun::new(targets(vec![Address::V4(1)], vec![]));
    assert!(no_ports.is_finished());
    assert_eq!(no_ports.next_attempt(), None);
    assert_eq!(no_ports.record(ConnectOutcome::Connected), None);
    let no_hosts = ProbeRun::new(targets(vec![], vec![1, 2]));
    assert!(no_hosts.is_finished());
    assert_eq!(no_hosts.next_attempt(), None);
    let neither = ProbeRun::new(targets(vec![], vec![]));
    assert!(neither.is_finished());
}

#[test]
fn report_lines() {
    let open = ProbeResult {
        host: Address::V4(1),
        port: 65535,
        status: PortStatus::Open,
        cause: ConnectOutcome::Connected,
    };
    assert_eq!(open.report_line(), "[+] 65535 is OPEN");
    let closed = ProbeResult {
        host: Address::V6(1),
        port: 0,
        status: PortStatus::Closed,
        cause: ConnectOutcome::TimedOut,
    };
    assert_eq!(closed.report_line(), "[-] 0 is CLOSED");
    let mid = ProbeResult { port: 8080, ..closed };
    assert_eq!(mid.report_line(), "[-] 8080 is CLOSED");
    let ten = ProbeResult { port: 10, ..open };
    assert_eq!(ten.report_line(), "[+] 10 is OPEN");
}

#[test]
fn duplicate_ports_are_probed_again() {
    let (tried, lines) = run_with(
        targets(vec![Address::V4(5)], vec![80, 80]),
        &[ConnectOutcome::Connected, ConnectOutcome::Refused],
    );
    assert_eq!(tried, vec![(Address::V4(5), 80), (Address::V4(5), 80)]);
    assert_eq!(lines, vec!["[+] 80 is OPEN", "[-] 80 is CLOSED"]);
}
