use std::str::FromStr;

use aptrb::command::{build, BuildError, TType, TransactionCommand};
use aptrb::executor::{classify_exit, should_record, ExecutionResult};
use aptrb::record::{deserialize_record, serialize_record, TransactionData};
use aptrb::resolver::resolve;
use aptrb::store::{append_to_log, parse_log, updated_log, StoreError};
use aptrb::timestamp::{current_time, format_timestamp, parse_timestamp, Timestamp};

fn ts(year: u32, month: u32, day: u32, hour: u32, minute: u32, second: u32, micro: u32) -> Timestamp {
    Timestamp { year, month, day, hour, minute, second, micro }
}

fn record(packages: &[&str], name: Option<&str>, stamp: Timestamp) -> TransactionData {
    TransactionData {
        packages: packages.iter().map(|p| p.to_string()).collect(),
        name: name.map(|n| n.to_string()),
        timestamp: stamp,
    }
}

#[test]
fn test_current_time() {
    // get current time
    // try to parse it with to toml datetime
    let time = current_time();
    let _ = toml::value::Datetime::from_str(&time).expect("Error while parsing time");
}

#[test]
fn test_transaction_command() {
    let cmd = TransactionCommand::new(TType::Transaction);
    assert_eq!(cmd.apt_command, "apt-get");
    assert_eq!(cmd.apt_subcommand, "install");
}

#[test]
fn test_rollback_command() {
    let mut cmd = TransactionCommand::new(TType::Rollback);
    let mut packages = vec!["package1".to_string(), "package2".to_string()];
    cmd.add_packages(&mut packages);
    assert_eq!(cmd.apt_command, "apt-get");
    assert_eq!(cmd.apt_subcommand, "purge");
    let mut iter = cmd.packages.iter();
    // this is that we don't have to interact
    assert_eq!(iter.next().unwrap(), "-y");
    assert_eq!(iter.next().unwrap(), "package1");
    assert_eq!(iter.next().unwrap(), "package2");
}

#[test]
fn build_install_arguments_in_order() {
    let packages = vec!["curl".to_string(), "git".to_string()];
    let cmd = build(TType::Transaction, &packages).expect("non-empty list must build");
    assert_eq!(cmd.apt_command, "apt-get");
    assert_eq!(cmd.apt_subcommand, "install");
    assert_eq!(cmd.packages, vec!["-y", "curl", "git"]);
}

#[test]
fn build_rollback_arguments_in_order() {
    let packages = vec!["curl".to_string(), "git".to_string()];
    let cmd = build(TType::Rollback, &packages).expect("non-empty list must build");
    assert_eq!(cmd.apt_command, "apt-get");
    assert_eq!(cmd.apt_subcommand, "purge");
    assert_eq!(cmd.packages, vec!["-y", "curl", "git"]);
}

#[test]
fn build_empty_list_rejected() {
    let packages: Vec<String> = vec![];
    match build(TType::Transaction, &packages) {
        Err(BuildError::EmptyPackages) => {}
        Ok(_) => panic!("an empty package list must be rejected"),
    }
}

#[test]
fn timestamp_format_round_trip() {
    let t = ts(2024, 1, 2, 3, 4, 5, 6);
    let text = format_timestamp(&t);
    assert_eq!(text, "2024-01-02T03:04:05.000006");
    let back = parse_timestamp(&text).expect("the fixed layout must re-parse");
    assert_eq!(back, t);
}

#[test]
fn timestamp_keeps_microseconds() {
    let t = ts(1999, 12, 31, 23, 59, 59, 999_999);
    let back = parse_timestamp(&format_timestamp(&t)).expect("must re-parse");
    assert_eq!(back.micro, 999_999);
}

#[test]
fn timestamp_rejects_malformed_text() {
    assert!(parse_timestamp("2024-01-02").is_none());
    assert!(parse_timestamp("2024-13-02T03:04:05.000006").is_none());
    assert!(parse_timestamp("2024-01-02 03:04:05.000006").is_none());
    assert!(parse_timestamp("2024-01-02T03:04:05.00000x").is_none());
}

#[test]
fn serialize_deserialize_round_trip() {
    let r = record(&["a", "b"], Some("demo"), ts(2024, 1, 2, 3, 4, 5, 6));
    let text = serialize_record(&r);
    assert_eq!(
        text,
        "[[transaction]]\npackages = [\"a\", \"b\"]\nname = \"demo\"\ntimestamp = 2024-01-02T03:04:05.000006\n"
    );
    let back = deserialize_record(&text).expect("a serialized record must deserialize");
    assert_eq!(back.packages, vec!["a", "b"]);
    assert_eq!(back.name.as_deref(), Some("demo"));
    assert_eq!(back.timestamp, r.timestamp);
}

#[test]
fn serialize_round_trip_without_name() {
    let r = record(&["only"], None, ts(2000, 6, 7, 8, 9, 10, 11));
    let text = serialize_record(&r);
    let back = deserialize_record(&text).expect("must deserialize");
    assert_eq!(back.packages, vec!["only"]);
    assert_eq!(back.name, None);
    assert_eq!(back.timestamp, r.timestamp);
}

#[test]
fn deserialize_rejects_garbage() {
    assert!(deserialize_record("not a record").is_none());
    assert!(deserialize_record("").is_none());
    assert!(deserialize_record("[[transaction]]\npackages = []\n").is_none());
}

#[test]
fn append_is_non_destructive() {
    let a = record(&["x"], Some("first"), ts(2024, 1, 1, 0, 0, 0, 0));
    let b = record(&["y", "z"], None, ts(2024, 1, 1, 0, 0, 1, 0));
    let after_a = append_to_log("", &a).expect("a valid record must append");
    let after_b = append_to_log(&after_a, &b).expect("a valid record must append");
    assert!(after_b.starts_with(&after_a));
    let records = parse_log(&after_b).expect("the log must parse");
    assert_eq!(records.len(), 2);
    assert_eq!(records[0].packages, vec!["x"]);
    assert_eq!(records[0].name.as_deref(), Some("first"));
    assert_eq!(records[1].packages, vec!["y", "z"]);
    assert_eq!(records[1].name, None);
}

#[test]
fn append_rejects_invalid_record() {
    let empty = record(&[], None, ts(2024, 1, 1, 0, 0, 0, 0));
    assert_eq!(append_to_log("", &empty), Err(StoreError::InvalidRecord));
}

#[test]
fn parse_empty_log() {
    let records = parse_log("").expect("an empty log holds zero records");
    assert!(records.is_empty());
}

#[test]
fn parse_log_rejects_trailing_garbage() {
    let a = record(&["x"], None, ts(2024, 1, 1, 0, 0, 0, 0));
    let log = append_to_log("", &a).expect("must append");
    assert!(parse_log(&format!("{}stray", log)).is_none());
}

#[test]
fn resolve_by_name_and_latest() {
    let stamp = ts(2024, 5, 6, 7, 8, 9, 10);
    let r1 = record(&["x"], Some("r1"), stamp);
    let r2 = record(&["y", "z"], Some("r2"), stamp);
    let log = append_to_log(&append_to_log("", &r1).unwrap(), &r2).unwrap();
    let records = parse_log(&log).expect("the store must parse");
    assert_eq!(resolve(&records, Some("r1")), Some(0));
    assert_eq!(resolve(&records, None), Some(1));
    assert_eq!(resolve(&records, Some("missing")), None);
    assert_eq!(records[resolve(&records, Some("r1")).unwrap()].packages, vec!["x"]);
    assert_eq!(records[resolve(&records, None).unwrap()].packages, vec!["y", "z"]);
}

#[test]
fn resolve_picks_most_recent_match() {
    let stamp = ts(2024, 5, 6, 7, 8, 9, 10);
    let first = record(&["old"], Some("twice"), stamp);
    let second = record(&["new"], Some("twice"), stamp);
    let log = append_to_log(&append_to_log("", &first).unwrap(), &second).unwrap();
    let records = parse_log(&log).expect("must parse");
    assert_eq!(resolve(&records, Some("twice")), Some(1));
}

#[test]
fn resolve_empty_store() {
    let records: Vec<TransactionData> = vec![];
    assert_eq!(resolve(&records, None), None);
    assert_eq!(resolve(&records, Some("anything")), None);
}

#[test]
fn execution_classification() {
    assert!(should_record(&classify_exit(true, String::new())));
    let failed = classify_exit(false, "E: broken".to_string());
    assert!(!should_record(&failed));
    match failed {
        ExecutionResult::Failed(text) => assert_eq!(text, "E: broken"),
        _ => panic!("a non-zero exit must classify as Failed"),
    }
}

#[test]
fn spawn_failure_appends_nothing() {
    let r = record(&["x"], None, ts(2024, 1, 1, 0, 0, 0, 0));
    let log = append_to_log("", &r).expect("must append");
    let outcome = ExecutionResult::SpawnFailure("no such program".to_string());
    assert!(!should_record(&outcome));
    let after = updated_log(&log, &r, &outcome).expect("a skipped append cannot fail");
    assert_eq!(after, None);
    let outcome = ExecutionResult::Failed("exit status 100".to_string());
    let after = updated_log(&log, &r, &outcome).expect("a skipped append cannot fail");
    assert_eq!(after, None);
}

#[test]
fn success_appends_record() {
    let r = record(&["x"], None, ts(2024, 1, 1, 0, 0, 0, 0));
    let after = updated_log("", &r, &ExecutionResult::Success)
        .expect("a valid record must append")
        .expect("a success must be recorded");
    assert_eq!(after, serialize_record(&r));
}

#[test]
fn record_new_stamps_current_time() {
    let r = TransactionData::new(vec!["pkg".to_string()], Some("label".to_string()))
        .expect("the clock must render a parseable time");
    assert_eq!(r.packages, vec!["pkg"]);
    assert_eq!(r.name.as_deref(), Some("label"));
    let rendered = format_timestamp(&r.timestamp);
    assert_eq!(parse_timestamp(&rendered), Some(r.timestamp));
}
