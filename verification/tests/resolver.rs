use spark::address::Address;
use spark::error::ParseError;
use spark::resolver::{parse_args, resolve, Targets};
use spark::timeout::Timeout;

fn args(list: &[&str]) -> Vec<String> {
    let mut v = vec!["./spark".to_string()];
    for a in list.iter() {
        v.push(a.to_string());
    }
    v
}

#[test]
fn hosts_flag_and_ports() {
    let t = parse_args(&args(&["127.0.0.1", "-p", "1-3"])).unwrap();
    assert_eq!(t.hosts, vec![Address::V4(0x7F00_0001)]);
    assert_eq!(t.ports, vec![1, 2, 3]);
    assert_eq!(t.timeout.as_millis(), 2000);
    assert_eq!(
        t,
        Targets {
            hosts: vec![Address::V4(0x7F00_0001)],
            ports: vec![1, 2, 3],
            timeout: Timeout::from_secs(2),
        }
    );
}

#[test]
fn with_timeout() {
    let t = parse_args(&args(&["10.0.0.1,10.0.0.2", "-p", "443,80", "-t", "500ms"])).unwrap();
    assert_eq!(t.hosts, vec![Address::V4(0x0A00_0001), Address::V4(0x0A00_0002)]);
    assert_eq!(t.ports, vec![443, 80]);
    assert_eq!(t.timeout.as_millis(), 500);
    let t = parse_args(&args(&["::1", "-p", "22", "-t", "3s"])).unwrap();
    assert_eq!(t.hosts, vec![Address::V6(1)]);
    assert_eq!(t.timeout.as_millis(), 3000);
}

#[test]
fn too_few_arguments() {
    assert_eq!(parse_args(&Vec::new()), Err(ParseError::UsageError));
    assert_eq!(parse_args(&args(&[])), Err(ParseError::UsageError));
    assert_eq!(parse_args(&args(&["10.0.0.1"])), Err(ParseError::UsageError));
    assert_eq!(parse_args(&args(&["10.0.0.1", "-p"])), Err(ParseError::UsageError));
    assert_eq!(parse_args(&args(&["bad", "-x"])), Err(ParseError::UsageError));
}

#[test]
fn wrong_port_flag() {
    assert_eq!(parse_args(&args(&["10.0.0.1", "-P", "80"])), Err(ParseError::InvalidArgument));
    assert_eq!(parse_args(&args(&["10.0.0.1", "p", "80"])), Err(ParseError::InvalidArgument));
    assert_eq!(parse_args(&args(&["10.0.0.1", "--p", "80"])), Err(ParseError::InvalidArgument));
    assert_eq!(parse_args(&args(&["10.0.0.1", "-p ", "80"])), Err(ParseError::InvalidArgument));
    assert_eq!(parse_args(&args(&["10.0.0.1", "", "80"])), Err(ParseError::InvalidArgument));
    assert_eq!(parse_args(&args(&["10.0.0.1", "80", "-p"])), Err(ParseError::InvalidArgument));
    assert_eq!(parse_args(&args(&["10.0.0.1", "-t", "80"])), Err(ParseError::InvalidArgument));
}

#[test]
fn invalid_host_in_arguments() {
    assert_eq!(
        parse_args(&args(&["999.999.999.999", "-p", "80"])),
        Err(ParseError::InvalidHost("999.999.999.999".to_string()))
    );
}

#[test]
fn timeout_flag_without_value() {
    assert_eq!(
        parse_args(&args(&["10.0.0.1", "-p", "80", "-t"])),
        Err(ParseError::MissingTimeoutValue)
    );
}

#[test]
fn bad_timeout_in_arguments() {
    assert_eq!(
        parse_args(&args(&["10.0.0.1", "-p", "80", "-t", "5x"])),
        Err(ParseError::InvalidTimeoutUnit)
    );
    assert_eq!(
        parse_args(&args(&["10.0.0.1", "-p", "80", "-t", "fasts"])),
        Err(ParseError::InvalidTimeoutValue)
    );
}

#[test]
fn other_flag_in_place_of_the_timeout_flag() {
    assert_eq!(
        parse_args(&args(&["10.0.0.1", "-p", "80", "-x", "3s"])),
        Err(ParseError::InvalidArgument)
    );
    assert_eq!(
        parse_args(&args(&["10.0.0.1", "-p", "80", "3s"])),
        Err(ParseError::InvalidArgument)
    );
}

#[test]
fn arguments_after_the_timeout_are_not_read() {
    let t = parse_args(&args(&["10.0.0.1", "-p", "80", "-t", "1s", "more", "-p"])).unwrap();
    assert_eq!(t.timeout.as_millis(), 1000);
}

#[test]
fn groups_are_not_reordered() {
    assert!(parse_args(&args(&["-p", "80", "10.0.0.1"])).is_err());
    assert!(parse_args(&args(&["-t", "1s", "10.0.0.1", "-p", "80"])).is_err());
}

#[test]
fn earlier_group_decides_the_error() {
    assert_eq!(
        resolve("bad", "-x", "worse", Some("-y"), Some("worst")),
        Err(ParseError::InvalidHost("bad".to_string()))
    );
    assert_eq!(
        resolve("10.0.0.1", "-x", "worse", Some("-y"), Some("worst")),
        Err(ParseError::InvalidArgument)
    );
    assert_eq!(
        resolve("10.0.0.1", "-p", "9-1", Some("-y"), Some("worst")),
        Err(ParseError::InvalidPortRange)
    );
    assert_eq!(
        resolve("10.0.0.1", "-p", "x", Some("-t"), Some("worst")),
        Err(ParseError::InvalidPortNumber)
    );
    assert_eq!(
        resolve("10.0.0.1", "-p", "1", Some("-t"), Some("worst")),
        Err(ParseError::InvalidTimeoutUnit)
    );
    assert_eq!(
        resolve("10.0.0.0/8", "-p", "1", None, None),
        Err(ParseError::HostBlockTooLarge("10.0.0.0/8".to_string()))
    );
}

#[test]
fn resolve_without_timeout() {
    let t = resolve("10.0.0.0/31", "-p", "8000-8001", None, None).unwrap();
    assert_eq!(t.hosts, vec![Address::V4(0x0A00_0000), Address::V4(0x0A00_0001)]);
    assert_eq!(t.ports, vec![8000, 8001]);
    assert_eq!(t.timeout, Timeout::default());
}

#[test]
fn error_messages() {
    assert_eq!(ParseError::UsageError.message(), "Usage: ./spark <ips> -p <ports> [-t <timeout>]");
    assert_eq!(
        ParseError::InvalidHost("x".to_string()).message(),
        "Invalid IP address or CIDR range"
    );
    assert_eq!(
        ParseError::HostBlockTooLarge("x".to_string()).message(),
        "CIDR range is too large"
    );
    assert_eq!(ParseError::InvalidArgument.message(), "Invalid argument");
    assert_eq!(ParseError::InvalidPortNumber.message(), "Invalid port number");
    assert_eq!(ParseError::InvalidPortRange.message(), "Invalid port range");
    assert_eq!(ParseError::MissingTimeoutValue.message(), "Timeout value is missing");
    assert_eq!(ParseError::InvalidTimeoutValue.message(), "Invalid timeout value");
    assert_eq!(ParseError::InvalidTimeoutUnit.message(), "Invalid timeout unit");
}

#[test]
fn error_lines() {
    assert_eq!(ParseError::InvalidPortRange.report_line(), "Error: Invalid port range");
    assert_eq!(
        ParseError::UsageError.report_line(),
        "Error: Usage: ./spark <ips> -p <ports> [-t <timeout>]"
    );
}
