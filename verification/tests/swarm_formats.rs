use tauricode::scheduler::cli::{parse_args, CliError, PlanOptions, SchedulerCommand};
use tauricode::scheduler::tasks_file::{parse_tasks_file, ParsedTask};
use tauricode::swarm::adapters::{
    slugify, task_from_md_note, task_to_gh_json, tasks_from_json, tasks_to_md_notes,
};
use tauricode::swarm::cli::{fmt_check_verdict, parse_swarm_args, task_form, CliErr, SwarmCommand, USAGE};
use tauricode::swarm::ops::{canonical_tasks, tasks_out};
use tauricode::swarm::out::to_json;

fn priority_of(t: &ParsedTask) -> f64 {
    t.priority.as_deref().map(|p| p.parse().unwrap()).unwrap_or(1.0)
}

fn args(items: &[&str]) -> Vec<String> {
    items.iter().map(|s| s.to_string()).collect()
}

#[test]
fn md_frontmatter_note_becomes_task() {
    let note = "---\ntitle: Bridge unblock\ntags: [docs, sanskrit]\npriority: 4\ndepends-on: [PANINI-A]\ndone: false\n---\n\nSome body line about the work.\n";
    let t = task_from_md_note(note).unwrap();
    assert_eq!(t.id, "BRIDGE-UNBLOCK");
    assert_eq!(priority_of(&t), 4.0);
    assert!(t.capabilities.contains(&"docs".to_string()));
    assert_eq!(t.depends_on, vec!["PANINI-A".to_string()]);
    assert_eq!(t.description.as_deref(), Some("Some body line about the work."));
    assert!(!t.done);
}

#[test]
fn explicit_task_id_beats_title_slug() {
    let note = "---\nid: MY-ID\ntitle: Something else\n---\n";
    assert_eq!(task_from_md_note(note).unwrap().id, "MY-ID");
}

#[test]
fn md_export_then_reimport_round_trips_core_fields() {
    let t = ParsedTask {
        id: "ROUND-TRIP".into(),
        priority: Some("5.5".to_string()),
        capabilities: vec!["a".into(), "b".into()],
        depends_on: vec![],
        done: true,
        description: Some("desc".into()),
        origin: Some("cml".into()),
    };
    let md = tasks_to_md_notes(&vec![t.clone()]);
    let back = task_from_md_note(&md).unwrap();
    assert_eq!(back.id, t.id);
    assert_eq!(priority_of(&back), priority_of(&t));
    assert!(back.capabilities == t.capabilities && back.done && back.origin == t.origin);
}

#[test]
fn json_tasks_import() {
    let raw = r#"{"tasks":[{"id":"X","priority":2,"capabilities":["r"],"depends_on":["Y"],"done":true,"origin":"cml"}]}"#;
    let tasks = tasks_from_json(raw).unwrap();
    assert_eq!(tasks.len(), 1);
    assert_eq!(tasks[0].id, "X");
    assert!(tasks[0].done);
    assert_eq!(tasks[0].origin.as_deref(), Some("cml"));
}

#[test]
fn json_import_reports_shape_errors() {
    assert_eq!(
        tasks_from_json(r#"{"other":1}"#).unwrap_err(),
        "JSON object must contain a `tasks` array"
    );
    assert_eq!(
        tasks_from_json("3").unwrap_err(),
        "top-level JSON must be an array or {tasks:[...]}"
    );
    assert_eq!(tasks_from_json("[1]").unwrap_err(), "task entry must be an object");
    assert_eq!(tasks_from_json(r#"[{"x":1}]"#).unwrap_err(), "task object needs `id`");
    let plain = tasks_from_json(r#"[{"id":"A","capabilities":["x",2,"y"],"priority":"high"}]"#).unwrap();
    assert_eq!(plain[0].capabilities, vec!["x", "y"]);
    assert_eq!(plain[0].priority, None);
    assert!(!plain[0].done);
}

#[test]
fn md_notes_report_missing_parts() {
    assert_eq!(task_from_md_note("no front").unwrap_err(), "no frontmatter block");
    assert_eq!(task_from_md_note("---\nid: X\n").unwrap_err(), "unterminated frontmatter");
    assert_eq!(
        task_from_md_note("---\npriority: 2\n---\n").unwrap_err(),
        "note has neither task-id/id nor title to derive one from"
    );
}

#[test]
fn md_note_values_are_trimmed_and_unquoted() {
    let note = "---\r\ntask-id: \"Q-1\"\r\ndone: yes\r\norigin:  repo \r\ncapabilities: [[a,, b ]]\r\n---\n\n\n   first real line  \nsecond\n";
    let t = task_from_md_note(note).unwrap();
    assert_eq!(t.id, "Q-1");
    assert!(t.done);
    assert_eq!(t.origin.as_deref(), Some("repo"));
    assert_eq!(t.capabilities, vec!["a", "b"]);
    assert_eq!(t.description.as_deref(), Some("first real line"));
}

#[test]
fn slugs_are_upper_case_words_joined_by_single_dashes() {
    assert_eq!(slugify("Bridge unblock"), "BRIDGE-UNBLOCK");
    assert_eq!(slugify("  --Hello,   World!! 42 "), "HELLO-WORLD-42");
    assert_eq!(slugify("ümlaut"), "MLAUT");
    assert_eq!(slugify("!!!"), "");
}

#[test]
fn markdown_export_shape() {
    let t = ParsedTask {
        id: "T".into(),
        priority: None,
        capabilities: vec!["a".into(), "b".into()],
        depends_on: vec!["D".into()],
        done: false,
        description: None,
        origin: None,
    };
    assert_eq!(
        tasks_to_md_notes(&vec![t]),
        "---\ntask-id: T\npriority: 1\ncapabilities: [a, b]\ndepends-on: [D]\ndone: false\n---\n\n# T\n\n\n"
    );
}

#[test]
fn github_issue_export() {
    let t = ParsedTask {
        id: "T".into(),
        priority: None,
        capabilities: vec!["rust".into()],
        depends_on: vec![],
        done: true,
        description: None,
        origin: None,
    };
    let j = task_to_gh_json(&t);
    assert_eq!(j.get("title").unwrap().as_str(), Some("T"));
    assert_eq!(j.get("state").unwrap().as_str(), Some("closed"));
    assert_eq!(j.get("labels").unwrap().as_arr().unwrap().len(), 1);
}

#[test]
fn scheduler_arguments_are_read_in_order() {
    let cmd = parse_args(&args(&[
        "--repo", "/r/a", "--agent", "ganaka-1=rust,,lisp", "--format", "json", "--origin", "cml",
        "--github-root", "/gh",
    ]))
    .unwrap();
    assert_eq!(
        cmd,
        SchedulerCommand::Plan(PlanOptions {
            github_root: Some("/gh".to_string()),
            repos: vec!["/r/a".to_string()],
            agents: vec![("ganaka-1".to_string(), vec!["rust".to_string(), "lisp".to_string()])],
            format: "json".to_string(),
            origin_filter: Some("cml".to_string()),
        })
    );
    assert_eq!(parse_args(&args(&["--repo", "x", "-h"])).unwrap(), SchedulerCommand::Help);
    assert_eq!(parse_args(&args(&["--version"])).unwrap(), SchedulerCommand::Version);
}

#[test]
fn scheduler_usage_errors() {
    assert_eq!(
        parse_args(&args(&["--format", "xml"])).unwrap_err(),
        CliError::Usage("--format must be text|json (got `xml`)".to_string())
    );
    assert_eq!(
        parse_args(&args(&["--agent", "nocaps"])).unwrap_err(),
        CliError::Usage("--agent must be ID=c1,c2 (got `nocaps`)".to_string())
    );
    assert_eq!(
        parse_args(&args(&["--agent", "=a"])).unwrap_err(),
        CliError::Usage("--agent id must not be empty".to_string())
    );
    assert_eq!(
        parse_args(&args(&["--repo"])).unwrap_err(),
        CliError::Usage("--repo needs a value".to_string())
    );
    assert_eq!(
        parse_args(&args(&["plan"])).unwrap_err(),
        CliError::Usage("unknown argument `plan`".to_string())
    );
}

#[test]
fn swarm_cli_reads_options_anywhere() {
    let inv = parse_swarm_args(&args(&["explain", "--yaml", "T-1", "--repos", "/x"]), None).unwrap();
    assert_eq!(inv.command, SwarmCommand::Explain { task_id: "T-1".to_string() });
    assert_eq!(inv.format, "yaml");
    assert_eq!(inv.repos, "/x");
    assert_eq!(inv.node, "127.0.0.1:9104");
    let inv = parse_swarm_args(&args(&["check", "--node", "h:1"]), Some("env:2".to_string())).unwrap();
    assert_eq!(inv.command, SwarmCommand::Check);
    assert_eq!(inv.node, "h:1");
    let inv = parse_swarm_args(&args(&["fmt", "f.my", "--check"]), Some("env:2".to_string())).unwrap();
    assert_eq!(inv.command, SwarmCommand::Fmt { file: "f.my".to_string(), check_only: true });
    assert_eq!(inv.node, "env:2");
}

#[test]
fn swarm_cli_nba_capabilities() {
    let inv = parse_swarm_args(&args(&["nba", "--caps", "rust,lisp", "docs"]), None).unwrap();
    assert_eq!(
        inv.command,
        SwarmCommand::Nba { caps: vec!["rust".to_string(), "lisp".to_string(), "docs".to_string()] }
    );
    let inv = parse_swarm_args(&args(&["nba", "--capsa,b"]), None).unwrap();
    assert_eq!(inv.command, SwarmCommand::Nba { caps: vec!["a".to_string(), "b".to_string()] });
}

#[test]
fn swarm_cli_task_forms() {
    let inv = parse_swarm_args(&args(&["task", "claim", "T-1"]), None).unwrap();
    assert_eq!(inv.command, SwarmCommand::Task { form: "(claim-task (task T-1))".to_string() });
    let inv = parse_swarm_args(&args(&["task", "release", "T-1", "--gen", "7"]), None).unwrap();
    assert_eq!(
        inv.command,
        SwarmCommand::Task { form: "(release-task (task T-1) (generation 7))".to_string() }
    );
    assert_eq!(
        task_form("define", "D-1", &None, "2.5", "do it", "a,b"),
        Ok("(define-task (task D-1) (priority 2.5) (capabilities (a b)) (description \"do it\"))".to_string())
    );
    assert_eq!(
        task_form("define", "D-2", &None, "1.0", "", ""),
        Ok("(define-task (task D-2) (priority 1.0))".to_string())
    );
    assert_eq!(
        task_form("complete", "T", &None, "1.0", "", ""),
        Err("task complete requires --gen N".to_string())
    );
}

#[test]
fn swarm_cli_usage_errors_carry_the_usage_text() {
    let e = parse_swarm_args(&args(&[]), None).unwrap_err();
    assert_eq!(e, CliErr { msg: format!("missing command\n\n{USAGE}"), code: 2 });
    let e = parse_swarm_args(&args(&["--json", "check"]), None).unwrap_err();
    assert!(e.msg.starts_with("global flags must follow the command (got `--json`)"));
    let e = parse_swarm_args(&args(&["task", "claim", "T", "--bogus", "1"]), None).unwrap_err();
    assert!(e.msg.starts_with("unknown task flag `--bogus`"));
    let e = parse_swarm_args(&args(&["task", "frobnicate", "T"]), None).unwrap_err();
    assert!(e.msg.starts_with("unknown task subcommand `frobnicate`"));
    let e = parse_swarm_args(&args(&["wat"]), None).unwrap_err();
    assert!(e.msg.starts_with("unknown command `wat`"));
    assert_eq!(CliErr::src("bad file"), CliErr { msg: "bad file".to_string(), code: 3 });
    assert!(USAGE.starts_with("swarm-cli"));
    assert!(USAGE.ends_with("claim-task."));
}

#[test]
fn convert_lists_every_task_field() {
    let t = ParsedTask {
        id: "T-1".to_string(),
        priority: Some("2".to_string()),
        capabilities: vec!["rust".to_string()],
        depends_on: vec!["T-0".to_string()],
        done: false,
        description: None,
        origin: Some("eco".to_string()),
    };
    let out = tasks_out(&vec![t], &vec!["2".to_string()]);
    assert_eq!(
        to_json(&out),
        r#"{"tasks":[{"id":"T-1","priority":2,"capabilities":["rust"],"depends_on":["T-0"],"done":false,"description":"","origin":"eco"}]}"#
    );
    assert_eq!(to_json(&tasks_out(&vec![], &vec![])), r#"{"tasks":[]}"#);
}

#[test]
fn fmt_check_reports_canonical_or_would_reformat() {
    assert_eq!(fmt_check_verdict("a.my", "x", "x", 3), Ok("a.my: canonical (3 tasks)".to_string()));
    let e = fmt_check_verdict("a.my", "x", "y", 12).unwrap_err();
    assert_eq!(e.code, 3);
    assert_eq!(e.msg, "a.my: would reformat (12 tasks)");
}

#[test]
fn md_note_keeps_fields_without_priority_or_origin() {
    let t = ParsedTask {
        id: "T-9".to_string(),
        priority: None,
        capabilities: vec![],
        depends_on: vec!["A-1".to_string(), "B: 2".to_string()],
        done: false,
        description: None,
        origin: None,
    };
    let back = task_from_md_note(&tasks_to_md_notes(&vec![t.clone()])).unwrap();
    assert_eq!(back.id, "T-9");
    assert_eq!(back.priority.as_deref(), Some("1"));
    assert!(back.capabilities.is_empty());
    assert_eq!(back.depends_on, t.depends_on);
    assert!(!back.done);
    assert_eq!(back.origin, None);
}

fn rendered_priorities(tasks: &[ParsedTask]) -> Vec<String> {
    tasks
        .iter()
        .map(|t| {
            let v: f64 = t.priority.as_deref().and_then(|s| s.parse().ok()).unwrap_or(1.0);
            v.to_string()
        })
        .collect()
}

#[test]
fn canonical_text_is_a_fixed_point() {
    let text = "((kind . tasks-my)\n (tasks . ((\"B\" . ((done . t))) (\"A\" . ((priority . 3)))))\n)";
    let tasks = parse_tasks_file(text).unwrap();
    assert_eq!(tasks.len(), 2);
    let canonical = canonical_tasks(&tasks, &rendered_priorities(&tasks));
    assert_ne!(canonical, text);
    assert!(canonical.contains("(\"A\" . ("));
    assert!(canonical.contains("(priority . 3)"));
    let again = parse_tasks_file(&canonical).unwrap();
    assert_eq!(again.len(), 2);
    assert_eq!(again[0].id, "B");
    assert_eq!(again[0].priority, Some("1".to_string()));
    assert!(again[0].done);
    assert_eq!(again[1].priority, Some("3".to_string()));
    assert_eq!(canonical_tasks(&again, &rendered_priorities(&again)), canonical);
}

#[test]
fn canonical_text_keeps_every_field() {
    let text = "((kind . tasks-my) (tasks . ((\"t-1\" . ((priority . 2.5) (capabilities . (rust git)) (depends-on . (\"t-0\")) (description . \"Fix it\") (origin . gh))))))";
    let tasks = parse_tasks_file(text).unwrap();
    let canonical = canonical_tasks(&tasks, &rendered_priorities(&tasks));
    let again = parse_tasks_file(&canonical).unwrap();
    assert_eq!(again.len(), 1);
    assert_eq!(again[0].id, "t-1");
    assert_eq!(again[0].priority, Some("2.5".to_string()));
    assert_eq!(again[0].capabilities, vec!["rust".to_string(), "git".to_string()]);
    assert_eq!(again[0].depends_on, vec!["t-0".to_string()]);
    assert!(!again[0].done);
    assert_eq!(again[0].description, Some("Fix it".to_string()));
    assert_eq!(again[0].origin, Some("gh".to_string()));
    assert_eq!(canonical_tasks(&again, &rendered_priorities(&again)), canonical);
}
