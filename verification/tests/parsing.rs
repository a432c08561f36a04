use dpr::command::{parse_command_lines, split_whitespace_owned};
use dpr::logger::{stderr_log_path, stdout_log_path};
use dpr::numfmt::format_usize;

#[test]
fn splits_simple_command() {
    let tokens = split_whitespace_owned("echo a");
    assert_eq!(tokens, vec!["echo".to_string(), "a".to_string()]);
}

#[test]
fn splits_many_separators() {
    let tokens = split_whitespace_owned("  ls \t -l\t\t/tmp  ");
    assert_eq!(tokens, vec!["ls".to_string(), "-l".to_string(), "/tmp".to_string()]);
}

#[test]
fn splits_blank_to_nothing() {
    assert!(split_whitespace_owned("").is_empty());
    assert!(split_whitespace_owned("   \t  ").is_empty());
}

#[test]
fn parses_command_file() {
    let commands = parse_command_lines("echo a\nfalse\nsleep 1 && echo b\n");
    assert_eq!(
        commands,
        vec!["echo a".to_string(), "false".to_string(), "sleep 1 && echo b".to_string()]
    );
}

#[test]
fn parses_drops_blank_lines_and_trims() {
    let commands = parse_command_lines("echo a  \n\n   \t\nfalse\r\n");
    assert_eq!(commands, vec!["echo a".to_string(), "false".to_string()]);
}

#[test]
fn parses_empty_file_to_nothing() {
    assert!(parse_command_lines("").is_empty());
    assert!(parse_command_lines("\n\n").is_empty());
}

#[test]
fn parses_file_without_final_newline() {
    let commands = parse_command_lines("echo a\nfalse");
    assert_eq!(commands, vec!["echo a".to_string(), "false".to_string()]);
}

#[test]
fn formats_decimal() {
    assert_eq!(format_usize(0), "0");
    assert_eq!(format_usize(7), "7");
    assert_eq!(format_usize(10), "10");
    assert_eq!(format_usize(1234), "1234");
    assert_eq!(format_usize(usize::MAX), usize::MAX.to_string());
}

#[test]
fn names_log_files_by_job_id() {
    assert_eq!(stdout_log_path("logs", 3), "logs/3.out");
    assert_eq!(stderr_log_path("logs", 3), "logs/3.err");
    assert_eq!(stdout_log_path("/var/tmp/run", 41), "/var/tmp/run/41.out");
}

#[test]
fn builds_connection_url() {
    assert_eq!(
        dpr::dburl::build_db_url("alice", "pw", "db.example"),
        "mysql://alice:pw@db.example/alice_dpemr_experiments"
    );
}

#[test]
fn histogram_of_codes_counts_each_code() {
    let h = dpr::status::histogram_of_codes(&vec![0, 2, 2, 4, 1, 2]);
    assert_eq!(h, vec![1, 1, 3, 0, 1]);
    assert_eq!(dpr::status::histogram_of_codes(&vec![]), vec![0, 0, 0, 0, 0]);
}
