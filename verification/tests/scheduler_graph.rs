use tauricode::scheduler::graph::{unblock_impact, BlockReason, GlobalGraph, RepoTasks, TaskState};
use tauricode::scheduler::out::{
    blocked_json, blocked_text, graph_json, header_text, json_escape, route_head, sources_json, str_array,
};
use tauricode::scheduler::route::{from_origin, routable};
use tauricode::scheduler::sexpr::parse;
use tauricode::scheduler::tasks_file::{parse_tasks_file, ParsedTask};

fn task(id: &str, _repo: &str, done: bool, deps: &[&str]) -> ParsedTask {
    ParsedTask {
        id: id.to_string(),
        priority: Some("1.0".to_string()),
        capabilities: vec![],
        depends_on: deps.iter().map(|s| s.to_string()).collect(),
        done,
        description: None,
        origin: None,
    }
}

fn repo(name: &str, tasks: Vec<ParsedTask>) -> RepoTasks {
    RepoTasks { repo: name.to_string(), tasks }
}

#[test]
fn aggregates_across_repos_with_origin_fallback() {
    let g = GlobalGraph::build(vec![
        repo("cml", vec![task("CML-A", "cml", false, &[])]),
        repo("my-lisp", vec![task("MY-A", "my-lisp", false, &["CML-A"])]),
    ]);
    assert_eq!(g.node("CML-A").unwrap().origin, "cml");
    assert_eq!(g.node("MY-A").unwrap().origin, "my-lisp");
    assert_eq!(g.state_of("CML-A"), Some(TaskState::Ready));
    assert_eq!(
        g.state_of("MY-A"),
        Some(TaskState::Blocked(BlockReason::WaitingOn("CML-A".into())))
    );
}

#[test]
fn duplicate_ids_are_visible_not_silent() {
    let g = GlobalGraph::build(vec![
        repo("a", vec![task("X", "a", false, &[])]),
        repo("b", vec![task("X", "b", true, &[])]),
    ]);
    assert_eq!(g.nodes.len(), 1);
    assert_eq!(g.warnings.len(), 1);
    assert_eq!(g.node("X").unwrap().duplicate_in, vec!["b".to_string()]);
    assert!(!g.node("X").unwrap().done);
}

#[test]
fn missing_dep_is_reported_as_missing_not_cycle() {
    let g = GlobalGraph::build(vec![repo("r", vec![task("A", "r", false, &["GHOST"])])]);
    assert_eq!(
        g.state_of("A"),
        Some(TaskState::Blocked(BlockReason::MissingDep("GHOST".into())))
    );
}

#[test]
fn dependency_cycles_settle_as_cycle_after_fixpoint() {
    let g = GlobalGraph::build(vec![repo(
        "r",
        vec![
            task("A", "r", false, &["B"]),
            task("B", "r", false, &["A"]),
            task("C", "r", false, &[]),
        ],
    )]);
    assert_eq!(g.state_of("A"), Some(TaskState::Blocked(BlockReason::Cycle)));
    assert_eq!(g.state_of("B"), Some(TaskState::Blocked(BlockReason::Cycle)));
    assert_eq!(g.state_of("C"), Some(TaskState::Ready));
}

#[test]
fn chains_ready_when_head_dep_done() {
    let g = GlobalGraph::build(vec![repo(
        "r",
        vec![
            task("BASE", "r", true, &[]),
            task("MID", "r", false, &["BASE"]),
            task("TOP", "r", false, &["MID"]),
        ],
    )]);
    assert_eq!(g.state_of("MID"), Some(TaskState::Ready));
    assert_eq!(
        g.state_of("TOP"),
        Some(TaskState::Blocked(BlockReason::WaitingOn("MID".into())))
    );
}

#[test]
fn a_chain_into_a_cycle_is_a_cycle_too() {
    let g = GlobalGraph::build(vec![repo(
        "r",
        vec![
            task("A", "r", false, &["B"]),
            task("B", "r", false, &["C"]),
            task("C", "r", false, &["B"]),
        ],
    )]);
    assert_eq!(g.state_of("A"), Some(TaskState::Blocked(BlockReason::Cycle)));
}

#[test]
fn a_chain_onto_a_ready_task_keeps_waiting() {
    let g = GlobalGraph::build(vec![repo(
        "r",
        vec![
            task("A", "r", false, &["B"]),
            task("B", "r", false, &["C"]),
            task("C", "r", false, &[]),
        ],
    )]);
    assert_eq!(g.state_of("A"), Some(TaskState::Blocked(BlockReason::WaitingOn("B".into()))));
    assert_eq!(g.state_of("B"), Some(TaskState::Blocked(BlockReason::WaitingOn("C".into()))));
    assert_eq!(g.state_of("C"), Some(TaskState::Ready));
}

#[test]
fn nodes_come_out_sorted_by_id_and_counts_partition_them() {
    let g = GlobalGraph::build(vec![repo(
        "r",
        vec![
            task("Z", "r", true, &[]),
            task("M", "r", false, &["GHOST"]),
            task("A", "r", false, &["Z"]),
        ],
    )]);
    let ids: Vec<&str> = g.nodes.iter().map(|n| n.id.as_str()).collect();
    assert_eq!(ids, vec!["A", "M", "Z"]);
    let states = g.state_map();
    assert_eq!(g.counts(&states), (3, 1, 1, 1));
    assert_eq!(g.state_of("nope"), None);
}

#[test]
fn unblock_impact_counts_direct_dependents() {
    let g = GlobalGraph::build(vec![repo(
        "r",
        vec![
            task("BASE", "r", false, &[]),
            task("A", "r", false, &["BASE"]),
            task("B", "r", false, &["BASE", "A"]),
        ],
    )]);
    assert_eq!(unblock_impact(&g, "BASE"), 2);
    assert_eq!(unblock_impact(&g, "A"), 1);
    assert_eq!(unblock_impact(&g, "B"), 0);
}

#[test]
fn capability_matching_accepts_generic_tasks() {
    let mut lisp = task("LISP", "r", false, &[]);
    lisp.capabilities = vec!["lisp".to_string()];
    let mut both = task("BOTH", "r", false, &[]);
    both.capabilities = vec!["rust".to_string(), "lisp".to_string()];
    let g = GlobalGraph::build(vec![repo("r", vec![task("ANY", "r", false, &[]), lisp, both])]);
    let caps = vec!["rust".to_string()];
    assert!(tauricode::scheduler::route::matches(&caps, g.node("ANY").unwrap()));
    assert!(tauricode::scheduler::route::matches(&caps, g.node("BOTH").unwrap()));
    assert!(!tauricode::scheduler::route::matches(&caps, g.node("LISP").unwrap()));
    let states = g.state_map();
    assert_eq!(routable(&g, &states, &caps).len(), 2);
}

#[test]
fn escapes_json_control_chars() {
    assert_eq!(json_escape("a\"b\\c\nd"), "a\\\"b\\\\c\\nd");
}

#[test]
fn escapes_other_control_chars_as_unicode() {
    assert_eq!(json_escape("\t\r\u{1}"), "\\t\\r\\u0001");
    assert_eq!(str_array(&vec!["a".to_string(), "b\"".to_string()]), "[\"a\",\"b\\\"\"]");
    assert_eq!(str_array(&vec![]), "[]");
}

#[test]
fn round_trips_nested_form() {
    let text = r#"(peer-hello (protocol swarm/1) (node cml-1))"#;
    let parsed = parse(text).unwrap();
    assert_eq!(parsed.head(), Some("peer-hello"));
    assert_eq!(parsed.field_atom("node"), Some("cml-1"));
}

#[test]
fn parses_quoted_strings_with_escapes() {
    let text = r#"(payload (artifact "evidence/G8/a \"b\" c.my"))"#;
    let parsed = parse(text).unwrap();
    assert_eq!(parsed.field_atom("artifact"), Some("evidence/G8/a \"b\" c.my"));
}

#[test]
fn skips_comments_and_reports_unclosed_lists() {
    assert!(parse("; only a comment").is_err());
    assert!(parse("(a (b)").is_err());
    assert!(parse("(a))").is_ok());
}

#[test]
fn text_form_reads_back_the_same() {
    let parsed = parse(r#"(a "b c" (d))"#).unwrap();
    let again = parse(&parsed.to_text()).unwrap();
    assert_eq!(parsed, again);
}

#[test]
fn parses_the_ecosystem_tasks_my_shape() {
    let text = r#"
; a comment
((kind . tasks-my)
 (tasks .
  (("SWARM-P2P-CLIENT" . ((priority . 0.9) (capabilities . (lisp docs rust))
                          (done . t)))
   ("SWARM-P2P-HEARTBEAT" . ((priority . 0.7) (capabilities . (lisp docs))
                             (depends-on . ("SWARM-P2P-SYNC")))))))
"#;
    let tasks = parse_tasks_file(text).unwrap();
    assert_eq!(tasks.len(), 2);
    assert_eq!(tasks[0].id, "SWARM-P2P-CLIENT");
    let priority: f64 = tasks[0].priority.as_deref().unwrap().parse().unwrap();
    assert_eq!(priority, 0.9);
    assert_eq!(tasks[0].capabilities, vec!["lisp", "docs", "rust"]);
    assert!(tasks[0].done);
    assert_eq!(tasks[1].depends_on, vec!["SWARM-P2P-SYNC"]);
    assert!(!tasks[1].done);
}

#[test]
fn parses_optional_origin_field() {
    let text = r#"
((kind . tasks-my)
 (tasks .
  (("CML-FOO" . ((priority . 5) (origin . cml) (done . ())))
   ("ORPHAN-TASK" . ((priority . 3))))))
"#;
    let tasks = parse_tasks_file(text).unwrap();
    assert_eq!(tasks[0].origin.as_deref(), Some("cml"));
    assert_eq!(tasks[1].origin, None);
}

#[test]
fn structural_errors_are_reported_not_swallowed() {
    assert!(parse_tasks_file("(())").is_err());
    assert!(parse_tasks_file("((kind . tasks-my))").is_err());
    assert!(parse_tasks_file("atom").is_err());
}

#[test]
fn plan_sections_render_as_text_and_json() {
    let detail = vec![
        ("A".to_string(), "r1".to_string(), BlockReason::MissingDep("Z".to_string())),
        ("B".to_string(), "r2".to_string(), BlockReason::WaitingOn("A".to_string())),
        ("C".to_string(), "r2".to_string(), BlockReason::Cycle),
    ];
    assert_eq!(
        blocked_json(&detail),
        [
            r#"{"id":"A","origin":"r1","reason":{"kind":"missing-dep","dep":"Z"}}"#,
            r#"{"id":"B","origin":"r2","reason":{"kind":"waiting-on","dep":"A"}}"#,
            r#"{"id":"C","origin":"r2","reason":{"kind":"cycle"}}"#,
        ]
        .join(",")
    );
    assert_eq!(
        blocked_text(&detail),
        "== blocked ==\n  [r1] A: missing dep `Z`\n  [r2] B: waiting on `A`\n  [r2] C: dependency cycle\n"
    );
    assert_eq!(blocked_text(&vec![]), "");
    assert_eq!(blocked_json(&vec![]), "");
    assert_eq!(
        header_text(&vec!["dup".to_string()], (3, 1, 1, 1)),
        "WARN: dup\ngraph: 3 tasks | 1 done | 1 ready | 1 blocked\n\n"
    );
    assert_eq!(graph_json((3, 1, 1, 1)), r#"{"total":3,"done":1,"ready":1,"blocked":1}"#);
    assert_eq!(
        sources_json(&vec![("r1".to_string(), "/x/r1/tasks.my".to_string(), 2)]),
        r#"{"repo":"r1","path":"/x/r1/tasks.my","tasks":2}"#
    );
    assert_eq!(route_head("_any", &vec![], true), "== _any (caps: any) ==\n  (nothing actionable)\n");
    assert_eq!(
        route_head("n1", &vec!["rust".to_string(), "lisp".to_string()], false),
        "== n1 (caps: rust, lisp) ==\n"
    );
}

#[test]
fn origin_filter_keeps_one_repository_in_order() {
    let g = GlobalGraph::build(vec![
        repo("r1", vec![task("A", "r1", false, &[]), task("C", "r1", false, &[])]),
        repo("r2", vec![task("B", "r2", false, &[])]),
    ]);
    let states = g.state_map();
    let all = routable(&g, &states, &vec![]);
    assert_eq!(all.len(), 3);
    let r1: Vec<String> = from_origin(all, "r1").into_iter().map(|c| c.id).collect();
    assert_eq!(r1, vec!["A".to_string(), "C".to_string()]);
}

#[test]
fn the_label_names_the_first_blocking_dependency() {
    let g = GlobalGraph::build(vec![repo(
        "r",
        vec![
            task("A", "r", true, &[]),
            task("B", "r", false, &[]),
            task("C", "r", false, &["A", "B", "Z"]),
            task("D", "r", false, &["A", "Z", "B"]),
            task("E", "r", false, &["A"]),
        ],
    )]);
    assert_eq!(g.state_of("C"), Some(TaskState::Blocked(BlockReason::WaitingOn("B".to_string()))));
    assert_eq!(g.state_of("D"), Some(TaskState::Blocked(BlockReason::MissingDep("Z".to_string()))));
    assert_eq!(g.state_of("E"), Some(TaskState::Ready));
}
