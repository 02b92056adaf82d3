use tauricode::observer::identity_contract::default_base_dir;
use tauricode::observer::process_observe::{
    boot_time_of, clk_tck_of, command_of, start_token_of, started_at_of, uid_of,
};
use tauricode::scheduler::graph::{BlockReason, GlobalGraph, RepoTasks};
use tauricode::scheduler::tasks_file::ParsedTask;
use tauricode::text::{chars_of, parse_unsigned, sep_list};

#[test]
fn start_token_is_the_twentieth_word_after_the_name() {
    let stat = "1234 (my (odd) prog) S 1 1234 1234 0 -1 4194560 100 0 0 0 5 3 0 0 20 0 1 0 987654 1000 200 18446744073709551615";
    assert_eq!(start_token_of(stat).as_deref(), Some("987654"));
    assert_eq!(start_token_of("1234 no parens here"), None);
    assert_eq!(start_token_of("1 (x) S 1 2"), None);
}

#[test]
fn command_joins_arguments_or_falls_back_to_the_name() {
    assert_eq!(command_of(Some("opencode\0serve\0--port\0\0"), Some("oc\n")), "opencode serve --port");
    assert_eq!(command_of(Some(""), Some("kworker/0:1\n")), "kworker/0:1");
    assert_eq!(command_of(None, None), "");
}

#[test]
fn start_time_comes_from_ticks_and_boot_time() {
    assert_eq!(
        started_at_of("12345", Some(100), Some(1_000_000_000)).as_deref(),
        Some("2001-09-09T01:48:43.000Z")
    );
    assert_eq!(started_at_of("x", Some(100), Some(1)), None);
    assert_eq!(started_at_of("5", None, Some(1)), None);
    assert_eq!(started_at_of("5", Some(100), None), None);
}

#[test]
fn boot_time_uid_and_tick_rate_are_read_from_their_files() {
    assert_eq!(boot_time_of("cpu  1 2 3\nbtime 1700000000\nprocesses 5\n"), Some(1_700_000_000));
    assert_eq!(boot_time_of("cpu 1\n"), None);
    assert_eq!(uid_of("Name:\tbash\nUid:\t1000\t1000\t1000\t1000\nGid:\t1000\n"), Some(1000));
    assert_eq!(uid_of("Name:\tbash\n"), None);
    assert_eq!(clk_tck_of(Some("250\n")), 250);
    assert_eq!(clk_tck_of(Some("oops")), 100);
    assert_eq!(clk_tck_of(None), 100);
}

#[test]
fn unsigned_numbers_respect_their_bound() {
    assert_eq!(parse_unsigned(&chars_of("4294967295"), u32::MAX as u64), Some(4294967295));
    assert_eq!(parse_unsigned(&chars_of("4294967296"), u32::MAX as u64), None);
    assert_eq!(parse_unsigned(&chars_of("+7"), 10), Some(7));
    assert_eq!(parse_unsigned(&chars_of("-7"), 10), None);
    assert_eq!(parse_unsigned(&chars_of(""), 10), None);
    assert_eq!(sep_list("a,,b,", ','), vec!["a", "b"]);
}

#[test]
fn blocked_detail_lists_blocked_tasks_with_reasons() {
    let t = |id: &str, deps: &[&str]| ParsedTask {
        id: id.to_string(),
        priority: None,
        capabilities: vec![],
        depends_on: deps.iter().map(|d| d.to_string()).collect(),
        done: false,
        description: None,
        origin: None,
    };
    let g = GlobalGraph::build(vec![RepoTasks {
        repo: "r".to_string(),
        tasks: vec![t("A", &["GHOST"]), t("B", &[]), t("C", &["B"])],
    }]);
    let states = g.state_map();
    let detail = g.blocked_detail(&states);
    assert_eq!(
        detail,
        vec![
            ("A".to_string(), "r".to_string(), BlockReason::MissingDep("GHOST".to_string())),
            ("C".to_string(), "r".to_string(), BlockReason::WaitingOn("B".to_string())),
        ]
    );
}

#[test]
fn identity_records_default_to_the_runtime_directory() {
    assert_eq!(default_base_dir(Some("/run/user/1000"), Some(1000)), "/run/user/1000/ecosystem-agents");
    assert_eq!(default_base_dir(Some(""), Some(1000)), "/tmp/ecosystem-agents-1000");
    assert_eq!(default_base_dir(None, None), "/tmp/ecosystem-agents-0");
}

#[test]
fn runtime_dir_with_trailing_slash_gets_no_second_slash() {
    assert_eq!(default_base_dir(Some("/run/user/1000/"), Some(1000)), "/run/user/1000/ecosystem-agents");
}
