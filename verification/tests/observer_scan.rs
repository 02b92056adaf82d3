use tauricode::observer::scope::{ecosystem_repos, ecosystem_root, snapshot_input};
use tauricode::observer::discover::{
    bare_probe_verdict, scan_id, toplevel_verdict, discover_ecosystem, find_repo_association, gather_local_processes, resolve_targets,
    scan_repository, sort_names, summarize, DiscoverInput, DiscoveryReadings, PathObservation,
    ProbeRuns, RepoKind,
};
use tauricode::observer::git_read::{
    is_git_repo, read_branch, read_dirty_state, read_head_sha, read_remotes, GitOutput,
};
use tauricode::observer::identity_contract::RawRecord;
use tauricode::observer::process_observe::OsProcess;
use tauricode::observer::snapshot::{IdentityStatus, ProbeFailure, ScanStatus};
use tauricode::observer::time_util::UnixTime;

fn ok(stdout: &[u8]) -> Result<GitOutput, String> {
    Ok(GitOutput { success: true, stdout: stdout.to_vec(), stderr: vec![] })
}

fn failed(stderr: &str) -> Result<GitOutput, String> {
    Ok(GitOutput { success: false, stdout: vec![], stderr: stderr.as_bytes().to_vec() })
}

fn clean_runs() -> ProbeRuns {
    ProbeRuns {
        branch: ok(b"main\n"),
        head_sha: ok(b"abc123\n"),
        status: ok(b""),
        remotes: ok(b"origin\tgit@example:me/r.git (fetch)\norigin\tgit@example:me/r.git (push)\n"),
    }
}

#[test]
fn probe_readers_follow_git_exit_status() {
    assert!(is_git_repo(&ok(b"true\n")));
    assert!(!is_git_repo(&ok(b"false\n")));
    assert!(!is_git_repo(&failed("fatal")));
    assert_eq!(read_branch(&ok(b"dev\n")), Ok((Some("dev".to_string()), false)));
    assert_eq!(read_branch(&failed("not a symbolic ref")), Ok((None, true)));
    assert_eq!(read_head_sha(&failed("no commits")), Ok(None));
    assert_eq!(read_head_sha(&Err("spawn failed".to_string())), Err("spawn failed".to_string()));
}

#[test]
fn dirty_state_lists_changed_paths_and_renames() {
    let (dirty, paths) = read_dirty_state(&ok(b" M a.txt\0R  new.txt\0old.txt\0?? b.txt\0")).unwrap();
    assert!(dirty);
    assert_eq!(paths, vec!["a.txt".to_string(), "old.txt -> new.txt".to_string(), "b.txt".to_string()]);
    let (clean, none) = read_dirty_state(&ok(b"")).unwrap();
    assert!(!clean && none.is_empty());
    assert!(read_dirty_state(&failed("boom")).is_err());
}

#[test]
fn remotes_are_listed_once_each() {
    let remotes = read_remotes(&ok(
        b"origin\thttps://a (fetch)\norigin\thttps://a (push)\nup\thttps://b (fetch)\n",
    ))
    .unwrap();
    assert_eq!(remotes.len(), 2);
    assert_eq!(remotes[0].name, "origin");
    assert_eq!(remotes[0].url, "https://a");
    assert_eq!(remotes[1].name, "up");
    assert!(read_remotes(&ok(b"")).unwrap().is_empty());
}

#[test]
fn a_clean_working_tree_scans_complete() {
    let snap = scan_repository(
        "r",
        "/repos/r",
        &PathObservation::Present(Ok(RepoKind::WorkingTree)),
        &Some(clean_runs()),
    );
    assert_eq!(snap.scan_status, ScanStatus::Complete);
    let git = snap.git.unwrap();
    assert_eq!(git.branch.as_deref(), Some("main"));
    assert!(!git.is_detached);
    assert_eq!(git.head_sha.as_deref(), Some("abc123"));
    assert!(!git.is_dirty);
    assert_eq!(git.remotes.len(), 1);
    assert!(git.unavailable.is_empty());
    assert_eq!(snap.error, None);
}

#[test]
fn one_failed_probe_makes_the_scan_partial() {
    let mut runs = clean_runs();
    runs.remotes = failed("remote broken");
    let snap = scan_repository(
        "r",
        "/repos/r",
        &PathObservation::Present(Ok(RepoKind::WorkingTree)),
        &Some(runs),
    );
    assert_eq!(snap.scan_status, ScanStatus::Partial);
    let git = snap.git.unwrap();
    assert_eq!(git.branch.as_deref(), Some("main"));
    assert_eq!(git.unavailable.len(), 1);
    assert_eq!(git.unavailable[0].probe, "remotes");
    assert!(git.unavailable[0].reason.contains("remote broken"));
}

#[test]
fn every_probe_failing_makes_the_scan_failed() {
    let runs = ProbeRuns {
        branch: Err("no git".to_string()),
        head_sha: Err("no git".to_string()),
        status: Err("no git".to_string()),
        remotes: Err("no git".to_string()),
    };
    let snap = scan_repository(
        "r",
        "/repos/r",
        &PathObservation::Present(Ok(RepoKind::WorkingTree)),
        &Some(runs),
    );
    assert_eq!(snap.scan_status, ScanStatus::Failed);
    assert!(snap.git.is_none());
    assert_eq!(
        snap.error.as_deref(),
        Some("branch: no git; head_sha: no git; dirty: no git; remotes: no git")
    );
}

#[test]
fn paths_that_are_not_working_trees_fail_with_a_reason() {
    let missing = scan_repository("m", "/nope", &PathObservation::Missing, &None);
    assert_eq!(missing.scan_status, ScanStatus::Failed);
    assert_eq!(missing.error.as_deref(), Some("path does not exist"));
    let link = scan_repository("l", "/link", &PathObservation::BrokenSymlink, &None);
    assert_eq!(link.error.as_deref(), Some("broken symlink (target does not exist)"));
    let plain = scan_repository(
        "p",
        "/plain",
        &PathObservation::Present(Ok(RepoKind::NotARepository { reason: "not a git repository".to_string() })),
        &None,
    );
    assert_eq!(plain.error.as_deref(), Some("not a git repository"));
    let bare = scan_repository("b", "/bare", &PathObservation::Present(Ok(RepoKind::Bare)), &None);
    assert_eq!(bare.scan_status, ScanStatus::Failed);
    assert!(bare.error.unwrap().starts_with("bare repository"));
    let unknown =
        scan_repository("u", "/u", &PathObservation::Present(Err("permission denied".to_string())), &None);
    assert_eq!(
        unknown.error.as_deref(),
        Some("failed to determine repository kind: permission denied")
    );
}

#[test]
fn summaries_join_failures_in_order() {
    let failures = vec![
        ProbeFailure { probe: "branch".to_string(), reason: "x".to_string() },
        ProbeFailure { probe: "dirty".to_string(), reason: "y".to_string() },
    ];
    assert_eq!(summarize(&failures), "branch: x; dirty: y");
    assert_eq!(summarize(&vec![]), "");
}

#[test]
fn names_sort_by_text() {
    let sorted = sort_names(vec!["b".to_string(), "a".to_string(), "B".to_string(), "a".to_string()]);
    assert_eq!(sorted, vec!["B", "a", "a", "b"]);
}

#[test]
fn targets_follow_the_request_or_the_sorted_listing() {
    let named = DiscoverInput {
        root: "/repos".to_string(),
        repositories: Some(vec!["zeta".to_string(), "alpha".to_string()]),
        identity_base_dir: None,
    };
    let t = resolve_targets(&named, vec!["ignored".to_string()]);
    assert_eq!(
        t,
        vec![
            ("zeta".to_string(), "/repos/zeta".to_string()),
            ("alpha".to_string(), "/repos/alpha".to_string())
        ]
    );
    let all = DiscoverInput { root: "/repos".to_string(), repositories: None, identity_base_dir: None };
    let t = resolve_targets(&all, vec!["m".to_string(), "c".to_string()]);
    assert_eq!(t, vec![("c".to_string(), "/repos/c".to_string()), ("m".to_string(), "/repos/m".to_string())]);
}

fn proc(pid: u32, cwd: Option<&str>) -> OsProcess {
    OsProcess {
        pid,
        command: "agent".to_string(),
        cwd: cwd.map(|c| c.to_string()),
        started_at: None,
        start_token: Some("tok".to_string()),
    }
}

fn rec(pid: u32) -> RawRecord {
    RawRecord {
        schema_version: 1,
        pid,
        process_start_token: Some("tok".to_string()),
        started_at: None,
        updated_at: None,
        model: Some("m".to_string()),
        role: None,
        repository: None,
        instance: None,
        task: None,
        declared_capabilities: None,
    }
}

#[test]
fn one_scan_puts_repositories_and_processes_together() {
    let targets = vec![
        ("r".to_string(), "/repos/r".to_string()),
        ("gone".to_string(), "/repos/gone".to_string()),
    ];
    let readings = DiscoveryReadings {
        scan_id: "scan-1".to_string(),
        started_at: "2026-01-01T00:00:00.000Z".to_string(),
        finished_at: "2026-01-01T00:00:01.000Z".to_string(),
        paths: vec![
            (PathObservation::Present(Ok(RepoKind::WorkingTree)), Some(clean_runs())),
            (PathObservation::Missing, None),
        ],
        records: vec![rec(20), rec(99)],
        live: vec![proc(10, Some("/repos/r/src")), proc(11, Some("/elsewhere")), proc(20, None)],
        now: UnixTime::from_secs(0),
    };
    let snap = discover_ecosystem(&targets, readings);
    assert_eq!(snap.scan.scan_id, "scan-1");
    assert_eq!(snap.repositories.len(), 2);
    assert_eq!(snap.repositories[0].scan_status, ScanStatus::Complete);
    assert_eq!(snap.repositories[1].scan_status, ScanStatus::Failed);
    let pids: Vec<u32> = snap.local_processes.iter().map(|p| p.pid).collect();
    assert_eq!(pids, vec![10, 20, 99]);
    assert_eq!(
        snap.local_processes[0].os_observed.as_ref().unwrap().repo_association.as_deref(),
        Some("r")
    );
    assert_eq!(snap.local_processes[0].identity_status, IdentityStatus::NotFound);
    assert_eq!(snap.local_processes[1].identity_status, IdentityStatus::Stale);
    assert_eq!(snap.local_processes[2].identity_status, IdentityStatus::Orphaned);
    assert!(snap.local_processes[2].os_observed.is_none());
}

#[test]
fn repository_association_needs_the_path_prefix() {
    let snap = scan_repository("r", "/repos/r", &PathObservation::Missing, &None);
    let repos = vec![snap];
    assert_eq!(find_repo_association("/repos/r/deep/dir", &repos).as_deref(), Some("r"));
    assert_eq!(find_repo_association("/repos/rx", &repos), None);
    let gathered = gather_local_processes(&repos, vec![], vec![proc(1, Some("/repos/r"))], UnixTime::from_secs(0));
    assert_eq!(gathered.len(), 1);
}

#[test]
fn scan_scope_takes_settings_or_the_ecosystem_defaults() {
    let six = vec!["my-lisp", "fpga-lisp", "cml", "my-idea", "my-lisp-panini", "shiva-sutras"];
    assert_eq!(ecosystem_repos(None), six);
    assert_eq!(ecosystem_repos(Some(" , ,")), six);
    assert_eq!(ecosystem_repos(Some("repo-a, repo-b ,,repo-c")), vec!["repo-a", "repo-b", "repo-c"]);
    assert_eq!(ecosystem_root(None), "/home/agents/GitHub");
    assert_eq!(ecosystem_root(Some("/srv/eco")), "/srv/eco");
    let input = snapshot_input(Some("/srv/eco"), Some("x"));
    assert_eq!(input.root, "/srv/eco");
    assert_eq!(input.repositories, Some(vec!["x".to_string()]));
    assert!(input.identity_base_dir.is_none());
}

#[test]
fn repository_kind_follows_the_rev_parse_answers() {
    let not_repo = failed("fatal: not a git repository\n").unwrap();
    assert_eq!(
        bare_probe_verdict(&not_repo),
        Some(RepoKind::NotARepository { reason: "not a git repository".to_string() })
    );
    assert_eq!(bare_probe_verdict(&ok(b"true\n").unwrap()), Some(RepoKind::Bare));
    assert_eq!(bare_probe_verdict(&ok(b"false\n").unwrap()), None);
    assert_eq!(toplevel_verdict(&ok(b"/srv/r\n").unwrap(), true), RepoKind::WorkingTree);
    assert_eq!(
        toplevel_verdict(&ok(b"/srv/r\n").unwrap(), false),
        RepoKind::NotARepository { reason: "not the root of a git repository (inside /srv/r)".to_string() }
    );
}

#[test]
fn scan_ids_name_the_instant_and_the_process() {
    assert_eq!(scan_id(1_700_000_000_123_456_789, 4242), "scan-1700000000123456789-4242");
    assert_eq!(scan_id(u128::MAX, 0), format!("scan-{}-0", u128::MAX));
}

#[test]
fn non_git_directory_is_reported_failed_not_panicking() {
    // `git rev-parse --is-bare-repository` fails in a directory outside any
    // repository; the verdict and the scan carry that through.
    let probe = failed("fatal: not a git repository (or any of the parent directories): .git\n").unwrap();
    let kind = bare_probe_verdict(&probe).expect("a failed probe settles the kind");
    let snap = scan_repository("nongit", "/tmp/nongit", &PathObservation::Present(Ok(kind)), &None);
    assert_eq!(snap.scan_status, ScanStatus::Failed);
    assert!(snap.git.is_none());
    assert_eq!(snap.error.as_deref(), Some("not a git repository"));

    let missing = scan_repository("missing", "/tmp/root/does-not-exist", &PathObservation::Missing, &None);
    assert_eq!(missing.scan_status, ScanStatus::Failed);
    assert!(missing.git.is_none());
    assert!(missing.error.is_some());
}

#[test]
fn each_recorded_pid_without_a_process_appears_once() {
    let repos = vec![scan_repository("r", "/repos/r", &PathObservation::Missing, &None)];
    let records = vec![rec(99), rec(20), rec(99)];
    let live = vec![proc(11, Some("/elsewhere")), proc(10, Some("/repos/r/src")), proc(20, None)];
    let gathered = gather_local_processes(&repos, records, live, UnixTime::from_secs(0));
    let pids: Vec<u32> = gathered.iter().map(|p| p.pid).collect();
    assert_eq!(pids, vec![10, 20, 99]);
    assert_eq!(gathered[0].os_observed.as_ref().unwrap().repo_association.as_deref(), Some("r"));
    assert_eq!(gathered[1].os_observed.as_ref().unwrap().repo_association, None);
    assert_eq!(gathered[2].identity_status, IdentityStatus::Orphaned);
    assert!(gathered[2].os_observed.is_none());
}
