use tauricode::scheduler::sexpr::parse as parse_sexp;
use tauricode::swarm::adapters::task_from_gh_issue;
use tauricode::swarm::minijson::{parse, Json};
use tauricode::swarm::ops::{all_contexts, check, context, nba, nba_request, task_op};
use tauricode::swarm::out::{to_json, to_yaml, yaml_needs_quotes, yaml_scalar, Out};
use tauricode::swarm::wire::Client;

#[test]
fn json_round_trip_shapes() {
    let v = Out::m(vec![
        ("a", Out::S("x\"y".into())),
        ("n", Out::N("3".into())),
        ("ok", Out::B(true)),
        ("list", Out::L(vec![Out::N("1".into()), Out::S("b".into())])),
        ("empty", Out::L(vec![])),
    ]);
    assert_eq!(to_json(&v), r#"{"a":"x\"y","n":3,"ok":true,"list":[1,"b"],"empty":[]}"#);
}

#[test]
fn yaml_maps_lists_scalars() {
    let v = Out::m(vec![
        ("node", Out::S("ganaka-1".into())),
        ("synced", Out::B(true)),
        ("caps", Out::L(vec![Out::S("rust".into()), Out::S("lisp".into())])),
        ("none", Out::L(vec![])),
        ("sub", Out::m(vec![("k", Out::S("v: 1".into()))])),
    ]);
    let y = to_yaml(&v);
    assert!(y.contains("node: ganaka-1"));
    assert!(y.contains("synced: true"));
    assert!(y.contains("- rust"));
    assert!(y.contains("none: []"));
    assert!(y.contains("k: \"v: 1\""));
}

#[test]
fn yaml_quotes_only_what_would_misread() {
    assert!(!yaml_needs_quotes("plain-word"));
    assert!(yaml_needs_quotes(""));
    assert!(yaml_needs_quotes("a: b"));
    assert!(yaml_needs_quotes("true"));
    assert!(!yaml_needs_quotes("12"));
    assert_eq!(yaml_scalar("plain"), "plain");
    assert_eq!(yaml_scalar("a: b"), "\"a: b\"");
}

#[test]
fn parses_gh_issue_like_object() {
    let j = parse(
        r#"{"number":42,"title":"fix \"it\"","labels":[{"name":"rust"},{"name":"docs"}],"state":"open","body":"line1\nline2"}"#,
    )
    .unwrap();
    let number: Option<f64> =
        j.get("number").and_then(|v| v.as_number_text()).map(|t| t.parse().unwrap());
    assert_eq!(number, Some(42.0));
    assert_eq!(j.get("title").and_then(|v| v.as_str()), Some("fix \"it\""));
    assert_eq!(j.get("labels").unwrap().as_arr().unwrap().len(), 2);
    assert_eq!(j.get("body").and_then(|v| v.as_str()), Some("line1\nline2"));
}

#[test]
fn rejects_garbage_strictly() {
    assert!(parse("{").is_err());
    assert!(parse("[1,]").is_err());
    assert!(parse("{} trailing").is_err());
    assert!(parse("{'a':1}").is_err());
}

#[test]
fn scalars_and_null() {
    assert_eq!(parse("null").unwrap(), Json::Null);
    assert_eq!(parse("true").unwrap(), Json::Bool(true));
    let n = parse("-2.5e2").unwrap();
    assert_eq!(n, Json::Num("-2.5e2".to_string()));
    let value: f64 = n.as_number_text().unwrap().parse().unwrap();
    assert_eq!(value, -250.0);
}

#[test]
fn unicode_escapes_and_bad_escapes() {
    assert_eq!(parse(r#""\u0041\n""#).unwrap(), Json::Str("A\n".to_string()));
    assert!(parse(r#""\u00""#).is_err());
    assert!(parse(r#""\q""#).is_err());
    assert_eq!(parse(" [ ] ").unwrap(), Json::Arr(vec![]));
    assert_eq!(parse(r#"{"a":false}"#).unwrap().get("a").unwrap().as_bool(), Some(false));
}

#[test]
fn check_reports_health_from_metrics_and_status() {
    let metrics =
        parse_sexp("(metrics (node ganaka-1) (epoch 3) (peer-count 2) (uptime-secs 9) (event-count 4))")
            .unwrap();
    let status = parse_sexp("(status (synced t) (presence a b) (members x y z))").unwrap();
    let (out, healthy) = check(&metrics, &status).unwrap();
    assert!(healthy);
    let json = to_json(&out);
    assert!(json.contains("\"node\":\"ganaka-1\""));
    assert!(json.contains("\"peer_count\":2"));
    assert!(json.contains("\"member_count\":3"));
    assert!(json.contains("\"presence\":[\"a\",\"b\"]"));

    let lonely = parse_sexp("(metrics (node n) (peer-count 0))").unwrap();
    assert!(!check(&lonely, &status).unwrap().1);
    assert!(check(&status, &status).is_err());
}

#[test]
fn nba_request_and_answer() {
    assert_eq!(nba_request(&vec![]), "(next-best-action (from l0-agent) )");
    assert_eq!(
        nba_request(&vec!["rust".to_string(), "lisp".to_string()]),
        "(next-best-action (from l0-agent) (capabilities (rust lisp)))"
    );
    let resp = parse_sexp("(next-best-action (task T-1))").unwrap();
    assert!(to_json(&nba(&resp).unwrap()).contains("next-best-action"));
    assert!(nba(&parse_sexp("(error boom)").unwrap()).is_err());
}

#[test]
fn task_op_reads_back_ok_and_refusals() {
    let (out, ok) = task_op(&parse_sexp("(ok (task T-1) (generation 4))").unwrap());
    assert!(ok);
    assert!(to_json(&out).contains("\"op_response_head\":\"ok\""));
    let (_, refused) = task_op(&parse_sexp("(error (reason stale))").unwrap());
    assert!(!refused);
}

#[test]
fn client_keeps_its_address() {
    let c = Client::new("127.0.0.1:9104".to_string());
    assert_eq!(c.addr(), "127.0.0.1:9104");
}

#[test]
fn gh_issue_becomes_a_task() {
    let j = parse(
        r#"{"number":42,"title":"fix it","labels":[{"name":"rust"},"docs",{"x":1}],"state":"closed","body":"line1"}"#,
    )
    .unwrap();
    let t = task_from_gh_issue(&j, Some(42), Some("eco-"), "2").unwrap();
    assert_eq!(t.id, "eco-GH-42");
    assert_eq!(t.priority.as_deref(), Some("2"));
    assert_eq!(t.capabilities, vec!["rust".to_string(), "docs".to_string()]);
    assert!(t.done);
    assert_eq!(t.description.as_deref(), Some("fix it\n\nline1"));
    assert!(t.depends_on.is_empty() && t.origin.is_none());
    let bare = parse(r#"{"number":7}"#).unwrap();
    let b = task_from_gh_issue(&bare, Some(7), None, "1").unwrap();
    assert_eq!(b.id, "GH-7");
    assert!(!b.done);
    assert_eq!(b.description.as_deref(), Some(""));
    assert_eq!(task_from_gh_issue(&bare, None, None, "1").unwrap_err(), "issue object needs `number`");
}

#[test]
fn gh_issue_array_maps_labels_state_and_ids() {
    let raw = r#"[
      {"number":7,"title":"add SLP1 bridge","state":"open",
       "labels":[{"name":"sanskrit"},{"name":"rust"}],"body":"bridge notes"},
      {"number":8,"title":"typo","state":"closed","labels":[]}
    ]"#;
    let issues = parse(raw).unwrap();
    let tasks: Vec<_> = issues
        .as_arr()
        .unwrap()
        .iter()
        .map(|v| {
            let number = v
                .get("number")
                .and_then(|x| x.as_number_text())
                .and_then(|t| t.parse::<f64>().ok())
                .map(|f| f as u64);
            task_from_gh_issue(v, number, None, &3.0f64.to_string()).unwrap()
        })
        .collect();
    assert_eq!(tasks.len(), 2);
    assert_eq!(tasks[0].id, "GH-7");
    assert!(tasks[0].capabilities.contains(&"rust".to_string()));
    assert!(!tasks[0].done);
    assert_eq!(tasks[0].description.as_deref(), Some("add SLP1 bridge\n\nbridge notes"));
    assert!(tasks[1].done);
}

#[test]
fn context_card_reads_multiline_lists_and_counts_tasks() {
    let repo_my = r#"(repository
  (id demo)
  (role tester-role)
  (exports
    thing-a
    thing-b)
  (imports language-contract)
  (capabilities rust docs)
  (authorities demo-stuff)
  (non-authorities everything-else))"#;
    let tasks_my = "((kind . tasks-my)\n (tasks . ((\"T1\" . ((done . t))) (\"T2\" . ((done . ()))))))\n";
    let card = context(repo_my, "\"/x/demo/repo.my\"", "/x/demo/repo.my", Some(tasks_my)).unwrap();
    let json = to_json(&card);
    assert!(json.contains("\"repo\":\"demo\""));
    assert!(json.contains("\"role\":\"tester-role\""));
    assert!(json.contains("\"exports\":[\"thing-a\",\"thing-b\"]"));
    assert!(json.contains("\"tasks_total\":2"));
    assert!(json.contains("\"tasks_done\":1"));
    assert!(json.contains("\"source\":\"/x/demo/repo.my\""));
    let no_tasks = context(repo_my, "\"/x/demo/repo.my\"", "/x/demo/repo.my", None).unwrap();
    assert!(to_json(&no_tasks).contains("\"tasks_total\":0"));
    assert!(context("(other)", "\"f\"", "f", None).is_err());
}

#[test]
fn all_contexts_keeps_the_cards_that_could_be_made() {
    let a = context("(repository (id alpha) (role r))", "\"a\"", "a", None);
    let b = context("(repository (id beta) (role r))", "\"b\"", "b", None);
    let broken: Result<Out, String> = Err("cannot read gamma".to_string());
    let json = to_json(&all_contexts(vec![a, broken, b]));
    assert!(json.contains("\"count\":2"));
    assert!(json.contains("\"repo\":\"alpha\""));
    assert!(json.contains("\"repo\":\"beta\""));
    assert!(!json.contains("gamma"));
}
