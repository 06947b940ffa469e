use strace_lite::cli::{parse_command_line, parse_pids, CommandLine};

#[test]
fn pids_separated_by_commas_and_white_space() {
    assert_eq!(parse_pids("1,2,3"), vec![1, 2, 3]);
    assert_eq!(parse_pids("10 20\t30\n40"), vec![10, 20, 30, 40]);
    assert_eq!(parse_pids(" 1, ,2,,"), vec![1, 2]);
}

#[test]
fn pids_that_do_not_parse_are_skipped() {
    assert_eq!(parse_pids("abc"), Vec::<i32>::new());
    assert_eq!(parse_pids("5,x7,9"), vec![5, 9]);
    assert_eq!(parse_pids("99999999999,4"), vec![4]);
    assert_eq!(parse_pids(""), Vec::<i32>::new());
}

#[test]
fn pids_signs_and_limits() {
    assert_eq!(parse_pids("+5 -7"), vec![5, -7]);
    assert_eq!(parse_pids("2147483647 -2147483648 2147483648"), vec![2147483647, -2147483648]);
    assert_eq!(parse_pids("- + +-1"), Vec::<i32>::new());
}

#[test]
fn pids_unicode_white_space_separates() {
    assert_eq!(parse_pids("1\u{a0}2\u{3000}3"), vec![1, 2, 3]);
}

#[test]
fn pids_round_trip_through_decimal_text() {
    let pids = vec![0, 1, -1, 42, i32::MAX, i32::MIN];
    let text = pids.iter().map(|p| p.to_string()).collect::<Vec<_>>().join(",");
    assert_eq!(parse_pids(&text), pids);
}

fn args(a: &[&str]) -> Vec<String> {
    a.iter().map(|s| s.to_string()).collect()
}

#[test]
fn command_line_usage() {
    assert!(matches!(parse_command_line(&args(&["strace"])), CommandLine::Usage));
}

#[test]
fn command_line_run_command() {
    match parse_command_line(&args(&["strace", "ls", "-l"])) {
        CommandLine::Run(i, verbose) => {
            assert_eq!(i, 1);
            assert!(!verbose);
        }
        _ => panic!("expected a command"),
    }
    match parse_command_line(&args(&["strace", "-v", "ls"])) {
        CommandLine::Run(i, verbose) => {
            assert_eq!(i, 2);
            assert!(verbose);
        }
        _ => panic!("expected a command"),
    }
}

#[test]
fn command_line_attach() {
    match parse_command_line(&args(&["strace", "-p", "1,2", "--attach", "3", "--verbose"])) {
        CommandLine::Attach(pids, verbose) => {
            assert_eq!(pids, vec![1, 2, 3]);
            assert!(verbose);
        }
        _ => panic!("expected attach"),
    }
}

#[test]
fn command_line_errors() {
    assert!(matches!(parse_command_line(&args(&["strace", "-p"])), CommandLine::MissingPid));
    match parse_command_line(&args(&["strace", "-p", "x"])) {
        CommandLine::InvalidPids(a) => assert_eq!(a, "x"),
        _ => panic!("expected invalid pids"),
    }
    assert!(matches!(parse_command_line(&args(&["strace", "-v"])), CommandLine::NoCommand));
}

#[test]
fn command_line_attach_wins_over_command() {
    match parse_command_line(&args(&["strace", "-p", "7", "ls"])) {
        CommandLine::Attach(pids, verbose) => {
            assert_eq!(pids, vec![7]);
            assert!(!verbose);
        }
        _ => panic!("expected attach"),
    }
}

#[test]
fn pids_of_comma_joined_texts_concatenate() {
    for (a, b) in [("1 2", "3"), ("", "4"), ("x", "5,6"), ("7,", ""), ("8", "-9 y")] {
        let joined = format!("{},{}", a, b);
        assert_eq!(parse_pids(&joined), [parse_pids(a), parse_pids(b)].concat());
    }
}
