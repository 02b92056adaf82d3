use std::collections::HashMap;
use tauricode::observer::identity_contract::{
    collect_records, correlate, correlate_with, known_pids, started_at_within_tolerance, RawRecord,
};
use tauricode::observer::iso_parse::{days_from_civil, parse_iso8601_seconds};
use tauricode::observer::process_observe::{unix_seconds_to_iso8601, OsProcess};
use tauricode::observer::sexpr::{parse, Expr, ParseError};
use tauricode::observer::snapshot::{IdentityStatus, SelfReportedIdentity};
use tauricode::observer::time_util::{
    civil_from_days, format_iso8601, iso8601_from_unix_seconds, iso8601_now, UnixTime,
};

fn os_process(pid: u32, start_token: Option<&str>, started_at: Option<&str>) -> OsProcess {
    OsProcess {
        pid,
        command: "test".to_string(),
        cwd: None,
        started_at: started_at.map(|s| s.to_string()),
        start_token: start_token.map(|s| s.to_string()),
    }
}

fn record(
    pid: u32,
    token: Option<&str>,
    started_at: Option<&str>,
    updated_at: Option<&str>,
) -> RawRecord {
    RawRecord {
        schema_version: 1,
        pid,
        process_start_token: token.map(|s| s.to_string()),
        started_at: started_at.map(|s| s.to_string()),
        updated_at: updated_at.map(|s| s.to_string()),
        model: Some("Large Model 5".to_string()),
        role: Some("Ecosystem Lead".to_string()),
        repository: Some("tauricode".to_string()),
        instance: None,
        task: Some("testing".to_string()),
        declared_capabilities: Some(vec!["bash".to_string()]),
    }
}

#[test]
fn iso8601_seconds_round_trips_through_this_crates_own_formatter() {
    for secs in [0i64, 1_787_173_325, -1, 1_000_000_000] {
        let formatted = iso8601_from_unix_seconds(secs);
        assert_eq!(parse_iso8601_seconds(&formatted), Some(secs), "{formatted}");
    }
}

#[test]
fn not_found_when_no_record_for_pid() {
    let process = os_process(100, Some("123"), None);
    let records = HashMap::new();
    let (status, identity) = correlate_with(&process, &records, UnixTime::now());
    assert_eq!(status, IdentityStatus::NotFound);
    assert_eq!(identity, SelfReportedIdentity::default());
}

#[test]
fn fresh_when_token_matches_and_recently_updated() {
    let now = UnixTime::from_secs(2_000_000_000);
    let updated_at = iso8601_from_unix_seconds(1_999_999_990);
    let process = os_process(100, Some("42"), None);
    let mut records = HashMap::new();
    records.insert(100, record(100, Some("42"), None, Some(&updated_at)));
    let (status, identity) = correlate_with(&process, &records, now);
    assert_eq!(status, IdentityStatus::Fresh);
    assert_eq!(identity.model.as_deref(), Some("Large Model 5"));
}

#[test]
fn stale_when_token_matches_but_updated_at_too_old() {
    let now = UnixTime::from_secs(2_000_000_000);
    let updated_at = iso8601_from_unix_seconds(1_999_999_000);
    let process = os_process(100, Some("42"), None);
    let mut records = HashMap::new();
    records.insert(100, record(100, Some("42"), None, Some(&updated_at)));
    let (status, identity) = correlate_with(&process, &records, now);
    assert_eq!(status, IdentityStatus::Stale);
    assert_eq!(identity.model.as_deref(), Some("Large Model 5"));
}

#[test]
fn orphaned_when_start_token_mismatches_pid_reuse() {
    let process = os_process(100, Some("999-different"), None);
    let mut records = HashMap::new();
    records.insert(100, record(100, Some("42"), None, Some("2026-01-01T00:00:00.000Z")));
    let (status, identity) = correlate_with(&process, &records, UnixTime::now());
    assert_eq!(status, IdentityStatus::Orphaned);
    assert_eq!(identity, SelfReportedIdentity::default());
}

#[test]
fn fallback_started_at_tolerance_accepts_small_clock_skew_without_token() {
    let now = UnixTime::from_secs(2_000_000_000);
    let observed_started = iso8601_from_unix_seconds(1_000_000_000);
    let claimed_started = iso8601_from_unix_seconds(1_000_000_003);
    let updated_at = iso8601_from_unix_seconds(1_999_999_990);
    let process = os_process(100, None, Some(&observed_started));
    let mut records = HashMap::new();
    records.insert(100, record(100, None, Some(&claimed_started), Some(&updated_at)));
    let (status, _) = correlate_with(&process, &records, now);
    assert_eq!(status, IdentityStatus::Fresh);
}

#[test]
fn fallback_started_at_beyond_tolerance_is_orphaned() {
    let observed_started = iso8601_from_unix_seconds(1_000_000_000);
    let claimed_started = iso8601_from_unix_seconds(1_000_000_500);
    let process = os_process(100, None, Some(&observed_started));
    let mut records = HashMap::new();
    records.insert(
        100,
        record(100, None, Some(&claimed_started), Some("2026-01-01T00:00:00.000Z")),
    );
    let (status, identity) = correlate_with(&process, &records, UnixTime::now());
    assert_eq!(status, IdentityStatus::Orphaned);
    assert_eq!(identity, SelfReportedIdentity::default());
}

#[test]
fn missing_updated_at_is_stale_not_fresh_when_otherwise_correlated() {
    let process = os_process(100, Some("42"), None);
    let mut records = HashMap::new();
    records.insert(100, record(100, Some("42"), None, None));
    let (status, _) = correlate_with(&process, &records, UnixTime::now());
    assert_eq!(
        status,
        IdentityStatus::Stale,
        "unknown freshness must never look like confirmed-fresh"
    );
}

#[test]
fn heartbeat_a_minute_old_is_still_fresh() {
    let now = UnixTime::from_secs(2_000_000_000);
    let just_inside = iso8601_from_unix_seconds(2_000_000_000 - 60);
    let just_outside = iso8601_from_unix_seconds(2_000_000_000 - 61);
    let process = os_process(7, Some("t"), None);
    let mut inside = HashMap::new();
    inside.insert(7, record(7, Some("t"), None, Some(&just_inside)));
    let mut outside = HashMap::new();
    outside.insert(7, record(7, Some("t"), None, Some(&just_outside)));
    assert_eq!(correlate_with(&process, &inside, now).0, IdentityStatus::Fresh);
    assert_eq!(correlate_with(&process, &outside, now).0, IdentityStatus::Stale);
}

#[test]
fn no_token_and_no_start_time_cannot_be_correlated() {
    let process = os_process(9, None, None);
    let mut records = HashMap::new();
    records.insert(9, record(9, None, None, Some("2026-01-01T00:00:00.000Z")));
    let (status, identity) = correlate_with(&process, &records, UnixTime::from_secs(0));
    assert_eq!(status, IdentityStatus::Orphaned);
    assert_eq!(identity, SelfReportedIdentity::default());
}

#[test]
fn correlate_reads_the_record_list_the_same_way() {
    let now = UnixTime::from_secs(2_000_000_000);
    let updated_at = iso8601_from_unix_seconds(1_999_999_990);
    let process = os_process(100, Some("42"), None);
    let (status, identity) =
        correlate(&process, vec![record(100, Some("42"), None, Some(&updated_at))], now);
    assert_eq!(status, IdentityStatus::Fresh);
    assert_eq!(identity.task.as_deref(), Some("testing"));
}

#[test]
fn a_later_record_for_the_same_pid_wins() {
    let first = record(5, Some("old"), None, None);
    let mut second = record(5, Some("new"), None, None);
    second.model = Some("second".to_string());
    let map = collect_records(vec![first, second]);
    assert_eq!(map.len(), 1);
    assert_eq!(map.get(&5).unwrap().model.as_deref(), Some("second"));
    let pids = known_pids(&vec![record(1, None, None, None), record(2, None, None, None)]);
    assert!(pids.contains(&1) && pids.contains(&2) && pids.len() == 2);
}

#[test]
fn started_at_tolerance_is_five_seconds_either_way() {
    let base = Some(iso8601_from_unix_seconds(1_000_000_000));
    let plus5 = Some(iso8601_from_unix_seconds(1_000_000_005));
    let minus6 = Some(iso8601_from_unix_seconds(999_999_994));
    assert!(started_at_within_tolerance(&plus5, &base));
    assert!(!started_at_within_tolerance(&minus6, &base));
    assert!(!started_at_within_tolerance(&None, &base));
    assert!(!started_at_within_tolerance(&Some("garbage".to_string()), &base));
}

#[test]
fn timestamps_in_other_shapes_read_as_absent() {
    assert_eq!(parse_iso8601_seconds("2026-08-19T12:34:56Z"), Some(1_787_142_896));
    assert_eq!(parse_iso8601_seconds("2026-08-19T12:34:56.789Z"), Some(1_787_142_896));
    assert_eq!(parse_iso8601_seconds("2026-08-19 12:34:56Z"), None);
    assert_eq!(parse_iso8601_seconds("2026-08-19T12:34:56"), None);
    assert_eq!(days_from_civil(1970, 1, 1), Some(0));
    assert_eq!(days_from_civil(2000, 2, 29), Some(11016));
}

#[test]
fn parses_symbol_string_integer() {
    let exprs = parse(r#"foo "bar" 42"#).unwrap();
    assert_eq!(
        exprs,
        vec![
            Expr::Symbol("foo".to_string()),
            Expr::String("bar".to_string()),
            Expr::Integer(42),
        ]
    );
}

#[test]
fn parses_nested_lists() {
    let exprs = parse("(role observer-ide)").unwrap();
    assert_eq!(
        exprs,
        vec![Expr::List(vec![
            Expr::Symbol("role".to_string()),
            Expr::Symbol("observer-ide".to_string()),
        ])]
    );
}

#[test]
fn parses_dotted_pair() {
    let exprs = parse("(a . b)").unwrap();
    assert_eq!(
        exprs,
        vec![Expr::DottedList(
            vec![Expr::Symbol("a".to_string())],
            Box::new(Expr::Symbol("b".to_string())),
        )]
    );
}

#[test]
fn skips_comments() {
    let exprs = parse("; a comment\n(x 1) ; trailing\n(y 2)").unwrap();
    assert_eq!(exprs.len(), 2);
}

#[test]
fn empty_list_is_falsy_nonempty_is_truthy() {
    assert!(!Expr::List(vec![]).is_truthy());
    assert!(Expr::Symbol("t".to_string()).is_truthy());
    assert!(Expr::List(vec![Expr::Integer(1)]).is_truthy());
}

#[test]
fn assoc_finds_tagged_entry() {
    let repo_my =
        parse("(repo (name \"tauricode\") (role observer-ide) (authorities ide-ux))").unwrap();
    let root = &repo_my[0];
    let name = root.assoc("name").unwrap();
    assert_eq!(name[0].as_string(), Some("tauricode"));
    let role = root.assoc("role").unwrap();
    assert_eq!(role[0].as_symbol(), Some("observer-ide"));
    assert!(root.assoc("does-not-exist").is_none());
}

#[test]
fn unclosed_list_is_a_parse_error_not_a_panic() {
    let result = parse("(a b");
    assert_eq!(result, Err(ParseError::UnexpectedEof));
}

#[test]
fn unexpected_close_paren_is_a_parse_error_not_a_panic() {
    let result = parse(")");
    assert_eq!(result, Err(ParseError::UnexpectedToken(")".to_string())));
}

#[test]
fn negative_integers_and_spaced_strings_are_read() {
    let exprs = parse(r#"-17 "a b" x"#).unwrap();
    assert_eq!(
        exprs,
        vec![Expr::Integer(-17), Expr::String("a b".to_string()), Expr::Symbol("x".to_string())]
    );
}

#[test]
fn civil_from_days_matches_verified_references() {
    let cases: &[(i64, (i64, u32, u32))] = &[
        (0, (1970, 1, 1)),
        (11016, (2000, 2, 29)),
        (19782, (2024, 2, 29)),
        (20684, (2026, 8, 19)),
        (-1, (1969, 12, 31)),
        (47541, (2100, 3, 1)),
    ];
    for &(days, expected) in cases {
        assert_eq!(civil_from_days(days), expected, "days={days}");
    }
}

#[test]
fn format_iso8601_shape() {
    let s = format_iso8601(20684 * 86400 + 12 * 3600 + 34 * 60 + 56, 789);
    assert_eq!(s, "2026-08-19T12:34:56.789Z");
}

#[test]
fn pre_epoch_and_process_start_times_format() {
    assert_eq!(iso8601_from_unix_seconds(-1), "1969-12-31T23:59:59.000Z");
    assert_eq!(unix_seconds_to_iso8601(0).as_deref(), Some("1970-01-01T00:00:00.000Z"));
    let now = iso8601_now();
    assert_eq!(now.len(), 24);
    assert!(now.ends_with('Z'));
}
