//! One scan: what each repository's state is, independently of the
//! others (one repository failing never removes another's data), and
//! which running processes are relevant to the scanned repositories.
//! The file system, git and `/proc` are read by the caller; what they
//! showed is handed in here.

use vstd::prelude::*;
use crate::observer::git_read::{
    dirty_spec, lossy_text, read_branch, read_dirty_state, read_head_sha, read_remotes,
    remotes_spec, stdout_trimmed, GitOutput,
};
use crate::observer::identity_contract::{
    collect_records, correlate_with, correlation_status, credited_identity, known_pids,
    records_map, same_claims, RawRecord,
};
use crate::observer::process_observe::OsProcess;
use crate::observer::snapshot::{
    opt_text, pairs_of_failures, pairs_of_remotes, texts, AgentProcess, GitState, GitStateV,
    EcosystemSnapshot, IdentityStatus, OsObservedFacts, ProbeFailure, RepoSnapV, RepositorySnapshot,
    ScanMetadata, ScanStatus, SelfReportedIdentity,
};
use crate::observer::time_util::UnixTime;
use crate::text::{
    dec, push_decimal, push_decimal_wide, lemma_seq_lt_asymmetric, lemma_seq_lt_total, lemma_seq_lt_transitive, push_str, seq_lt, str_eq, str_lt,
    trim_spec,
};

verus! {

/// What a path holding a git directory turned out to be.
#[derive(Debug, PartialEq, Eq)]
pub enum RepoKind {
    /// Not the root of a repository at this exact path, with why.
    NotARepository { reason: String },
    /// A bare repository: no working tree to report on.
    Bare,
    /// A working tree (an ordinary repository or a linked worktree).
    WorkingTree,
}

/// What `git rev-parse --is-bare-repository` run at a path settles by
/// itself: a failed run means there is no repository there (reported as
/// exactly "not a git repository", whatever git said), `true` means a bare
/// one; `None` leaves it to the top-level check.
pub fn bare_probe_verdict(bare: &GitOutput) -> (r: Option<RepoKind>)
    ensures
        !bare.success ==> (r matches Some(RepoKind::NotARepository { reason }) && reason@
            == "not a git repository"@),
        bare.success && trim_spec(lossy_text(bare.stdout@)) == "true"@ ==> r == Some(
            RepoKind::Bare,
        ),
        bare.success && trim_spec(lossy_text(bare.stdout@)) != "true"@ ==> r is None,
{
    if !bare.success {
        return Some(RepoKind::NotARepository { reason: String::from_str("not a git repository") });
    }
    let answer = stdout_trimmed(bare);
    if str_eq(answer.as_str(), "true") {
        Some(RepoKind::Bare)
    } else {
        None
    }
}

/// The verdict once `git rev-parse --show-toplevel` has run: a working
/// tree when it succeeded and named this very directory (`same_dir`, found
/// by the caller resolving both paths); else not a repository root, with
/// the top level it is inside.
pub fn toplevel_verdict(top: &GitOutput, same_dir: bool) -> (r: RepoKind)
    ensures
        top.success && same_dir ==> r == RepoKind::WorkingTree,
        !(top.success && same_dir) ==> (r matches RepoKind::NotARepository { reason } && reason@
            == "not the root of a git repository (inside "@ + trim_spec(lossy_text(top.stdout@))
            + ")"@),
{
    if top.success && same_dir {
        RepoKind::WorkingTree
    } else {
        let mut reason = String::from_str("not the root of a git repository (inside ");
        let inside = stdout_trimmed(top);
        push_str(&mut reason, inside.as_str());
        push_str(&mut reason, ")");
        RepoKind::NotARepository { reason }
    }
}

/// The id of one scan: `scan-<nanoseconds since the epoch>-<process id>`.
pub fn scan_id(nanos: u128, pid: u32) -> (r: String)
    ensures
        r@ == "scan-"@ + dec(nanos as nat) + "-"@ + dec(pid as nat),
{
    let mut r = String::from_str("scan-");
    push_decimal_wide(&mut r, nanos);
    push_str(&mut r, "-");
    push_decimal(&mut r, pid as u64);
    r
}

/// What the file system showed at a repository's path.
#[derive(Debug)]
pub enum PathObservation {
    Missing,
    BrokenSymlink,
    /// The path exists; what kind of repository it is, or why that could
    /// not be told.
    Present(Result<RepoKind, String>),
}

/// The runs of the four read-only probes on a working tree:
/// `symbolic-ref --short HEAD`, `rev-parse HEAD`,
/// `status --porcelain=v1 -z` and `remote -v`.
#[derive(Debug)]
pub struct ProbeRuns {
    pub branch: Result<GitOutput, String>,
    pub head_sha: Result<GitOutput, String>,
    pub status: Result<GitOutput, String>,
    pub remotes: Result<GitOutput, String>,
}

pub open spec fn branch_outcome(run: Result<GitOutput, String>) -> Result<(Option<Seq<char>>, bool), Seq<char>> {
    match run {
        Err(e) => Err(e@),
        Ok(o) => if o.success {
            Ok((Some(trim_spec(lossy_text(o.stdout@))), false))
        } else {
            Ok((None, true))
        },
    }
}

pub open spec fn head_outcome(run: Result<GitOutput, String>) -> Result<Option<Seq<char>>, Seq<char>> {
    match run {
        Err(e) => Err(e@),
        Ok(o) => if o.success {
            Ok(Some(trim_spec(lossy_text(o.stdout@))))
        } else {
            Ok(None)
        },
    }
}

pub open spec fn dirty_outcome(run: Result<GitOutput, String>) -> Result<Seq<Seq<char>>, Seq<char>> {
    match run {
        Err(e) => Err(e@),
        Ok(o) => if o.success {
            Ok(dirty_spec(o.stdout@))
        } else {
            Err("git status failed: "@ + lossy_text(o.stderr@))
        },
    }
}

pub open spec fn remotes_outcome(run: Result<GitOutput, String>) -> Result<Seq<(Seq<char>, Seq<char>)>, Seq<char>> {
    match run {
        Err(e) => Err(e@),
        Ok(o) => if o.success {
            Ok(remotes_spec(o.stdout@))
        } else {
            Err("git remote -v failed: "@ + lossy_text(o.stderr@))
        },
    }
}

/// The failure a probe contributes, if it failed.
pub open spec fn failure_of<T>(probe: Seq<char>, r: Result<T, Seq<char>>) -> Seq<(Seq<char>, Seq<char>)> {
    match r {
        Err(e) => seq![(probe, e)],
        Ok(_) => Seq::empty(),
    }
}

/// The failed probes, in the order branch, head SHA, dirty state, remotes.
pub open spec fn failures_spec(runs: ProbeRuns) -> Seq<(Seq<char>, Seq<char>)> {
    failure_of("branch"@, branch_outcome(runs.branch)) + failure_of(
        "head_sha"@,
        head_outcome(runs.head_sha),
    ) + failure_of("dirty"@, dirty_outcome(runs.status)) + failure_of(
        "remotes"@,
        remotes_outcome(runs.remotes),
    )
}

/// `probe: reason` for each failure, joined with `; `.
pub open spec fn summary_spec(u: Seq<(Seq<char>, Seq<char>)>) -> Seq<char>
    decreases u.len(),
{
    if u.len() == 0 {
        Seq::empty()
    } else if u.len() == 1 {
        u[0].0 + ": "@ + u[0].1
    } else {
        summary_spec(u.drop_last()) + "; "@ + u.last().0 + ": "@ + u.last().1
    }
}

/// What was read of a working tree; a failed probe leaves its
/// placeholder (`None`, `false`, empty).
pub open spec fn git_state_spec(runs: ProbeRuns) -> GitStateV {
    GitStateV {
        branch: match branch_outcome(runs.branch) {
            Ok(b) => b.0,
            Err(_) => None,
        },
        is_detached: match branch_outcome(runs.branch) {
            Ok(b) => b.1,
            Err(_) => false,
        },
        head_sha: match head_outcome(runs.head_sha) {
            Ok(h) => h,
            Err(_) => None,
        },
        is_dirty: match dirty_outcome(runs.status) {
            Ok(p) => p.len() > 0,
            Err(_) => false,
        },
        changed_paths: match dirty_outcome(runs.status) {
            Ok(p) => p,
            Err(_) => Seq::empty(),
        },
        remotes: match remotes_outcome(runs.remotes) {
            Ok(r) => r,
            Err(_) => Seq::empty(),
        },
        unavailable: failures_spec(runs),
    }
}

pub open spec fn failed_snapshot(name: Seq<char>, path: Seq<char>, error: Seq<char>) -> RepoSnapV {
    RepoSnapV { name, path, scan_status: ScanStatus::Failed, git: None, error: Some(error) }
}

pub open spec fn bare_message() -> Seq<char> {
    "bare repository (no working tree) — this IS a git repository, but Slice 1's GitState models working-tree fields (checked-out branch, dirty-state) that don't apply to it; unsupported here, not invalid or missing"@
}

/// The snapshot of one repository. A missing path, a path that is not a
/// repository root, a bare repository, or a working tree none of whose
/// probes succeeded is `Failed`, with no git state and an error saying
/// why. A working tree whose probes all succeeded is `Complete`; one
/// where some failed is `Partial`, its state holding what was read and
/// naming what was not.
pub open spec fn scan_spec(
    name: Seq<char>,
    path: Seq<char>,
    seen: PathObservation,
    runs: Option<ProbeRuns>,
) -> RepoSnapV {
    match seen {
        PathObservation::Missing => failed_snapshot(name, path, "path does not exist"@),
        PathObservation::BrokenSymlink => failed_snapshot(
            name,
            path,
            "broken symlink (target does not exist)"@,
        ),
        PathObservation::Present(Err(reason)) => failed_snapshot(
            name,
            path,
            "failed to determine repository kind: "@ + reason@,
        ),
        PathObservation::Present(Ok(RepoKind::NotARepository { reason })) => failed_snapshot(
            name,
            path,
            reason@,
        ),
        PathObservation::Present(Ok(RepoKind::Bare)) => failed_snapshot(name, path, bare_message()),
        PathObservation::Present(Ok(RepoKind::WorkingTree)) => {
            let u = failures_spec(runs->Some_0);
            if u.len() == 4 {
                failed_snapshot(name, path, summary_spec(u))
            } else {
                RepoSnapV {
                    name,
                    path,
                    scan_status: if u.len() == 0 {
                        ScanStatus::Complete
                    } else {
                        ScanStatus::Partial
                    },
                    git: Some(git_state_spec(runs->Some_0)),
                    error: if u.len() == 0 {
                        None
                    } else {
                        Some(summary_spec(u))
                    },
                }
            }
        },
    }
}

/// `probe: reason` for each failure, joined with `; `.
pub fn summarize(failures: &Vec<ProbeFailure>) -> (r: String)
    ensures
        r@ == summary_spec(pairs_of_failures(failures@)),
{
    let ghost u = pairs_of_failures(failures@);
    let mut out = String::new();
    for i in 0..failures.len()
        invariant
            u == pairs_of_failures(failures@),
            out@ == summary_spec(u.take(i as int)),
    {
        if i > 0 {
            push_str(&mut out, "; ");
        }
        push_str(&mut out, failures[i].probe.as_str());
        push_str(&mut out, ": ");
        push_str(&mut out, failures[i].reason.as_str());
        assert(u.take(i + 1).drop_last() =~= u.take(i as int));
        assert(u.take(i + 1).last() == (failures@[i as int].probe@, failures@[i as int].reason@));
        if i == 0 {
            assert(u.take(0) =~= Seq::<(Seq<char>, Seq<char>)>::empty());
        }
        assert(out@ =~= summary_spec(u.take(i + 1)));
    }
    assert(u.take(u.len() as int) =~= u);
    out
}

fn text(s: &str) -> (r: String)
    ensures
        r@ == s@,
{
    String::from_str(s)
}

fn failed(name: &str, path: &str, error: String) -> (r: RepositorySnapshot)
    ensures
        r@ == failed_snapshot(name@, path@, error@),
{
    RepositorySnapshot {
        name: text(name),
        path: text(path),
        scan_status: ScanStatus::Failed,
        git: None,
        error: Some(error),
    }
}

fn failure(probe: &str, reason: String) -> (f: ProbeFailure)
    ensures
        f.probe@ == probe@,
        f.reason@ == reason@,
{
    ProbeFailure { probe: text(probe), reason }
}

/// The snapshot of one repository, from what its path showed and, for a
/// working tree, what its four probes printed.
pub fn scan_repository(
    name: &str,
    path: &str,
    seen: &PathObservation,
    runs: &Option<ProbeRuns>,
) -> (r: RepositorySnapshot)
    requires
        seen matches PathObservation::Present(Ok(RepoKind::WorkingTree)) ==> runs is Some,
    ensures
        r@ == scan_spec(name@, path@, *seen, *runs),
{
    match seen {
        PathObservation::Missing => {
            return failed(name, path, text("path does not exist"));
        },
        PathObservation::BrokenSymlink => {
            return failed(name, path, text("broken symlink (target does not exist)"));
        },
        PathObservation::Present(Err(reason)) => {
            let mut m = text("failed to determine repository kind: ");
            push_str(&mut m, reason.as_str());
            return failed(name, path, m);
        },
        PathObservation::Present(Ok(RepoKind::NotARepository { reason })) => {
            return failed(name, path, reason.clone());
        },
        PathObservation::Present(Ok(RepoKind::Bare)) => {
            return failed(
                name,
                path,
                text(
                    "bare repository (no working tree) — this IS a git repository, but Slice 1's GitState models working-tree fields (checked-out branch, dirty-state) that don't apply to it; unsupported here, not invalid or missing",
                ),
            );
        },
        PathObservation::Present(Ok(RepoKind::WorkingTree)) => {},
    }
    let runs = match runs {
        Some(r) => r,
        None => {
            return failed(name, path, text("path does not exist"));
        },
    };
    let mut unavailable: Vec<ProbeFailure> = Vec::new();
    let ghost u0 = pairs_of_failures(unavailable@);
    assert(u0 =~= Seq::<(Seq<char>, Seq<char>)>::empty());
    let (branch, is_detached) = match read_branch(&runs.branch) {
        Ok(v) => v,
        Err(reason) => {
            unavailable.push(failure("branch", reason));
            (None, false)
        },
    };
    let ghost u1 = pairs_of_failures(unavailable@);
    assert(u1 =~= failure_of("branch"@, branch_outcome(runs.branch)));
    let head_sha = match read_head_sha(&runs.head_sha) {
        Ok(v) => v,
        Err(reason) => {
            unavailable.push(failure("head_sha", reason));
            None
        },
    };
    let ghost u2 = pairs_of_failures(unavailable@);
    assert(u2 =~= u1 + failure_of("head_sha"@, head_outcome(runs.head_sha)));
    let (is_dirty, changed_paths) = match read_dirty_state(&runs.status) {
        Ok(v) => v,
        Err(reason) => {
            unavailable.push(failure("dirty", reason));
            (false, Vec::new())
        },
    };
    let ghost u3 = pairs_of_failures(unavailable@);
    assert(u3 =~= u2 + failure_of("dirty"@, dirty_outcome(runs.status)));
    let remotes = match read_remotes(&runs.remotes) {
        Ok(v) => v,
        Err(reason) => {
            unavailable.push(failure("remotes", reason));
            Vec::new()
        },
    };
    assert(pairs_of_failures(unavailable@) =~= u3 + failure_of(
        "remotes"@,
        remotes_outcome(runs.remotes),
    ));
    assert(pairs_of_failures(unavailable@) =~= failures_spec(*runs));
    if unavailable.len() == 4 {
        let s = summarize(&unavailable);
        return failed(name, path, s);
    }
    let complete = unavailable.len() == 0;
    let error = if complete {
        None
    } else {
        Some(summarize(&unavailable))
    };
    let git = GitState {
        branch,
        is_detached,
        head_sha,
        is_dirty,
        changed_paths,
        remotes,
        unavailable,
    };
    assert(texts(git.changed_paths@) =~= match dirty_outcome(runs.status) {
        Ok(p) => p,
        Err(_) => Seq::<Seq<char>>::empty(),
    });
    assert(pairs_of_remotes(git.remotes@) =~= match remotes_outcome(runs.remotes) {
        Ok(r) => r,
        Err(_) => Seq::<(Seq<char>, Seq<char>)>::empty(),
    });
    assert(git@ =~= git_state_spec(*runs));
    RepositorySnapshot {
        name: text(name),
        path: text(path),
        scan_status: if complete {
            ScanStatus::Complete
        } else {
            ScanStatus::Partial
        },
        git: Some(git),
        error,
    }
}


/// Whether `Path::new(path).starts_with(base)` holds: whether `base`'s
/// path components are a prefix of `path`'s.
pub uninterp spec fn path_starts_with(path: Seq<char>, base: Seq<char>) -> bool;

/// Component-wise path prefix test, `Path::starts_with`.
#[verifier::external_body]
fn path_has_prefix(path: &str, base: &str) -> (r: bool)
    ensures
        r == path_starts_with(path@, base@),
{
    std::path::Path::new(path).starts_with(base)
}

/// The first repository among `repos[k..]` whose path contains `cwd`.
pub open spec fn assoc_from(cwd: Seq<char>, repos: Seq<RepositorySnapshot>, k: int) -> Option<Seq<char>>
    decreases repos.len() - k,
{
    if k < 0 || k >= repos.len() {
        None
    } else if path_starts_with(cwd, repos[k].path@) {
        Some(repos[k].name@)
    } else {
        assoc_from(cwd, repos, k + 1)
    }
}

/// The repository of the scan a working directory belongs to: the first,
/// in scan order, whose path is a prefix of it.
pub fn find_repo_association(cwd: &str, repositories: &Vec<RepositorySnapshot>) -> (r: Option<String>)
    ensures
        opt_text(r) == assoc_from(cwd@, repositories@, 0),
{
    let mut k: usize = 0;
    while k < repositories.len()
        invariant
            k <= repositories@.len(),
            assoc_from(cwd@, repositories@, 0) == assoc_from(cwd@, repositories@, k as int),
        decreases repositories@.len() - k,
    {
        if path_has_prefix(cwd, repositories[k].path.as_str()) {
            return Some(repositories[k].name.clone());
        }
        k = k + 1;
    }
    None
}

pub open spec fn cwd_assoc(p: OsProcess, repos: Seq<RepositorySnapshot>) -> Option<Seq<char>> {
    match p.cwd {
        Some(c) => assoc_from(c@, repos, 0),
        None => None,
    }
}

/// A live process is relevant when it works inside a scanned repository
/// or holds an identity record.
pub open spec fn relevant(p: OsProcess, repos: Seq<RepositorySnapshot>, known: Set<u32>) -> bool {
    cwd_assoc(p, repos) is Some || known.contains(p.pid)
}

/// Positions of the relevant processes among `live[..k]`, in order.
pub open spec fn selected(live: Seq<OsProcess>, repos: Seq<RepositorySnapshot>, known: Set<u32>, k: int) -> Seq<int>
    decreases k,
{
    if k <= 0 || k > live.len() {
        Seq::empty()
    } else {
        let rest = selected(live, repos, known, k - 1);
        if relevant(live[k - 1], repos, known) {
            rest.push(k - 1)
        } else {
            rest
        }
    }
}

pub open spec fn is_live(live: Seq<OsProcess>, pid: u32) -> bool {
    exists|j: int| 0 <= j < live.len() && #[trigger] live[j].pid == pid
}

/// The PIDs of `rs[..k]` with a record but no live process, each once, in
/// order of first appearance.
pub open spec fn orphan_pids(rs: Seq<RawRecord>, live: Seq<OsProcess>, k: int) -> Seq<u32>
    decreases k,
{
    if k <= 0 || k > rs.len() {
        Seq::empty()
    } else {
        let acc = orphan_pids(rs, live, k - 1);
        let pid = rs[k - 1].pid;
        if is_live(live, pid) || acc.contains(pid) {
            acc
        } else {
            acc.push(pid)
        }
    }
}

/// What an entry for a live process holds.
pub open spec fn live_entry_ok(
    a: AgentProcess,
    p: OsProcess,
    repos: Seq<RepositorySnapshot>,
    records: Map<u32, RawRecord>,
    now: UnixTime,
) -> bool {
    &&& a.pid == p.pid
    &&& a.os_observed matches Some(f) && f.command == p.command && f.cwd == p.cwd
        && f.started_at_observed == p.started_at && opt_text(f.repo_association) == cwd_assoc(p, repos)
    &&& a.identity_status == correlation_status(p, records, now)
    &&& same_claims(a.identity, credited_identity(p, records))
}

/// What an entry for a record without a live process holds.
pub open spec fn orphan_entry_ok(a: AgentProcess, pid: u32) -> bool {
    &&& a.pid == pid
    &&& a.os_observed is None
    &&& a.identity_status == IdentityStatus::Orphaned
    &&& a.identity.is_empty()
}

/// What `gather_local_processes` gives: first the selected live processes,
/// in the order they were listed, then one `Orphaned` entry per recorded PID
/// with no live process.
pub open spec fn gathered(
    r: Seq<AgentProcess>,
    repos: Seq<RepositorySnapshot>,
    records: Seq<RawRecord>,
    live: Seq<OsProcess>,
    now: UnixTime,
) -> bool {
    let known = records_map(records).dom();
    let sel = selected(live, repos, known, live.len() as int);
    let orph = orphan_pids(records, live, records.len() as int);
    &&& r.len() == sel.len() + orph.len()
    &&& forall|j: int|
        0 <= j < sel.len() ==> live_entry_ok(
            #[trigger] r[j],
            live[sel[j]],
            repos,
            records_map(records),
            now,
        )
    &&& forall|j: int| 0 <= j < orph.len() ==> orphan_entry_ok(#[trigger] r[sel.len() + j], orph[j])
}

fn pid_in(live: &Vec<u32>, pid: u32) -> (r: bool)
    ensures
        r == live@.contains(pid),
{
    let mut i: usize = 0;
    while i < live.len()
        invariant
            i <= live@.len(),
            forall|j: int| 0 <= j < i ==> live@[j] != pid,
        decreases live@.len() - i,
    {
        if live[i] == pid {
            assert(live@[i as int] == pid);
            return true;
        }
        i = i + 1;
    }
    false
}

/// The processes relevant to a scan, in two passes over two sources: the
/// live processes that work inside a scanned repository or hold an
/// identity record, each correlated with its record; then every PID that
/// holds a record but has no live process, as `Orphaned` with nothing
/// credited to it.
pub fn gather_local_processes(
    repositories: &Vec<RepositorySnapshot>,
    records: Vec<RawRecord>,
    live: Vec<OsProcess>,
    now: UnixTime,
) -> (r: Vec<AgentProcess>)
    ensures
        gathered(r@, repositories@, records@, live@, now),
{
    let ghost rs = records@;
    let ghost lv = live@;
    let ghost known = records_map(rs).dom();
    let known_set = known_pids(&records);
    let mut live_pids: Vec<u32> = Vec::new();
    for i in 0..live.len()
        invariant
            live_pids@.len() == i,
            forall|j: int| 0 <= j < i ==> live_pids@[j] == live@[j].pid,
    {
        live_pids.push(live[i].pid);
    }
    let mut orphans: Vec<u32> = Vec::new();
    for i in 0..records.len()
        invariant
            rs == records@,
            lv == live@,
            live_pids@.len() == lv.len(),
            forall|j: int| 0 <= j < lv.len() ==> live_pids@[j] == lv[j].pid,
            orphans@ == orphan_pids(rs, lv, i as int),
    {
        let pid = records[i].pid;
        let is_live_pid = pid_in(&live_pids, pid);
        proof {
            if is_live_pid {
                let j = choose|j: int| 0 <= j < live_pids@.len() && live_pids@[j] == pid;
                assert(lv[j].pid == pid);
            } else {
                assert forall|j: int| 0 <= j < lv.len() implies #[trigger] lv[j].pid != pid by {
                    assert(live_pids@[j] == lv[j].pid);
                }
            }
        }
        if !is_live_pid && !pid_in(&orphans, pid) {
            orphans.push(pid);
        }
    }
    let map = collect_records(records);
    let mut result: Vec<AgentProcess> = Vec::new();
    let mut rest = live;
    let n = rest.len();
    let mut i: usize = 0;
    while i < n
        invariant
            n == lv.len(),
            i <= n,
            rest@ =~= lv.skip(i as int),
            map@ == records_map(rs),
            known_set@ == known,
            result@.len() == selected(lv, repositories@, known, i as int).len(),
            forall|j: int| 0 <= j < result@.len() ==> live_entry_ok(
                #[trigger] result@[j],
                lv[selected(lv, repositories@, known, i as int)[j]],
                repositories@,
                records_map(rs),
                now,
            ),
        decreases n - i,
    {
        assert(rest@.len() == n - i);
        let ghost rest0 = rest@;
        let p = rest.remove(0);
        assert(p == lv[i as int]);
        assert(rest@ =~= lv.skip(i + 1)) by {
            assert forall|k: int| 0 <= k < rest@.len() implies rest@[k] == lv.skip(i + 1)[k] by {
                assert(rest@[k] == rest0[k + 1]);
            }
        }
        let ghost sel0 = selected(lv, repositories@, known, i as int);
        let assoc = match &p.cwd {
            Some(c) => find_repo_association(c.as_str(), repositories),
            None => None,
        };
        if assoc.is_some() || known_set.contains(&p.pid) {
            let (status, identity) = correlate_with(&p, &map, now);
            let ghost pv = p;
            let entry = AgentProcess {
                pid: p.pid,
                os_observed: Some(OsObservedFacts {
                    command: p.command,
                    cwd: p.cwd,
                    started_at_observed: p.started_at,
                    repo_association: assoc,
                }),
                identity_status: status,
                identity,
            };
            assert(live_entry_ok(entry, pv, repositories@, records_map(rs), now));
            result.push(entry);
            assert(selected(lv, repositories@, known, i + 1) == sel0.push(i as int));
        } else {
            assert(selected(lv, repositories@, known, i + 1) == sel0);
        }
        i = i + 1;
    }
    let ghost sel = selected(lv, repositories@, known, n as int);
    let ghost base = result@.len();
    for k in 0..orphans.len()
        invariant
            base == sel.len(),
            result@.len() == base + k,
            forall|j: int| 0 <= j < base ==> live_entry_ok(
                #[trigger] result@[j],
                lv[sel[j]],
                repositories@,
                records_map(rs),
                now,
            ),
            forall|j: int| 0 <= j < k ==> orphan_entry_ok(#[trigger] result@[base + j], orphans@[j]),
    {
        result.push(AgentProcess {
            pid: orphans[k],
            os_observed: None,
            identity_status: IdentityStatus::Orphaned,
            identity: SelfReportedIdentity::empty(),
        });
    }
    result
}


/// A snapshot's status and contents never disagree: it has git state
/// exactly when it did not fail; it has an error exactly when it is not
/// complete; its failed probes are listed exactly when it is partial, and
/// then its error names them; a working tree whose four probes all
/// failed is reported failed.
pub proof fn law_scan_status_consistent(
    name: Seq<char>,
    path: Seq<char>,
    seen: PathObservation,
    runs: Option<ProbeRuns>,
)
    requires
        seen matches PathObservation::Present(Ok(RepoKind::WorkingTree)) ==> runs is Some,
    ensures
        ({
            let r = scan_spec(name, path, seen, runs);
            &&& (r.scan_status == ScanStatus::Failed <==> r.git is None)
            &&& (r.scan_status == ScanStatus::Complete <==> r.error is None)
            &&& r.git matches Some(g) ==> (g.unavailable.len() == 0 <==> r.scan_status
                == ScanStatus::Complete)
            &&& r.git matches Some(g) ==> g.unavailable.len() < 4
            &&& r.scan_status == ScanStatus::Partial ==> (r.git matches Some(g) && r.error
                == Some(summary_spec(g.unavailable)))
        }),
{
    if let PathObservation::Present(Ok(RepoKind::WorkingTree)) = seen {
        let u = failures_spec(runs->Some_0);
        assert(u.len() <= 4);
    }
}

/// What a scan is asked to cover.
pub struct DiscoverInput {
    /// The directory holding the repositories; the caller always supplies it.
    pub root: String,
    /// `None`: every subdirectory of `root`. `Some`: exactly these
    /// subdirectories, in this order.
    pub repositories: Option<Vec<String>>,
    /// Where self-reported identity records are read from; `None` is the
    /// default runtime directory.
    pub identity_base_dir: Option<String>,
}

/// The text of `Path::join` on `root` and `name`, with Unix path rules:
/// an absolute `name` (one starting with `/`) replaces `root`; otherwise
/// `name` follows `root`, after a `/` unless `root` is empty or already
/// ends with one.
pub open spec fn path_joined(root: Seq<char>, name: Seq<char>) -> Seq<char> {
    if name.len() > 0 && name[0] == '/' {
        name
    } else if root.len() > 0 && root.last() != '/' {
        root + seq!['/'] + name
    } else {
        root + name
    }
}

/// `std::path::Path::join`: `name` adjoined to `root` (replacing it when
/// `name` is absolute), as text, as `PathBuf::push` documents it for Unix.
#[verifier::external_body]
pub(crate) fn join_path(root: &str, name: &str) -> (r: String)
    ensures
        r@ == path_joined(root@, name@),
{
    std::path::Path::new(root).join(name).to_string_lossy().into_owned()
}

/// `s` is in ascending text order.
pub open spec fn ascending(s: Seq<String>) -> bool {
    forall|i: int, j: int| 0 <= i < j < s.len() ==> !seq_lt(#[trigger] s[j]@, #[trigger] s[i]@)
}

/// The same names in ascending text order (equal names keep their order).
pub fn sort_names(names: Vec<String>) -> (r: Vec<String>)
    ensures
        ascending(r@),
        r@.to_multiset() == names@.to_multiset(),
{
    let mut r: Vec<String> = Vec::new();
    assert(names@.take(0) =~= r@);
    for i in 0..names.len()
        invariant
            ascending(r@),
            r@.to_multiset() == names@.take(i as int).to_multiset(),
    {
        let x = names[i].clone();
        let mut p: usize = 0;
        while p < r.len() && !str_lt(x.as_str(), r[p].as_str())
            invariant
                p <= r@.len(),
                forall|k: int| 0 <= k < p ==> !seq_lt(x@, #[trigger] r@[k]@),
            decreases r@.len() - p,
        {
            p = p + 1;
        }
        let ghost old_r = r@;
        proof {
            assert forall|k: int| p <= k < old_r.len() implies seq_lt(x@, #[trigger] old_r[k]@) by {
                if k > p && old_r[p as int]@ != old_r[k]@ {
                    lemma_seq_lt_total(old_r[p as int]@, old_r[k]@);
                    if seq_lt(old_r[p as int]@, old_r[k]@) {
                        lemma_seq_lt_transitive(x@, old_r[p as int]@, old_r[k]@);
                    }
                }
            }
        }
        let ghost xv = x;
        r.insert(p, x);
        proof {
            assert(r@ == old_r.insert(p as int, xv));
            vstd::seq_lib::to_multiset_insert(old_r, p as int, xv);
            assert(xv == names@[i as int]);
            assert forall|a: int, b: int| 0 <= a < b < r@.len() implies !seq_lt(
                #[trigger] r@[b]@,
                #[trigger] r@[a]@,
            ) by {
                if a == p {
                    lemma_seq_lt_asymmetric(x@, old_r[b - 1]@);
                } else if b == p {
                } else if a < p && b > p {
                    assert(r@[a] == old_r[a]);
                    assert(r@[b] == old_r[b - 1]);
                } else if b < p {
                    assert(r@[a] == old_r[a]);
                    assert(r@[b] == old_r[b]);
                } else {
                    assert(r@[a] == old_r[a - 1]);
                    assert(r@[b] == old_r[b - 1]);
                }
            }
            assert(names@.take(i + 1) =~= names@.take(i as int).push(names@[i as int]));
            vstd::seq_lib::to_multiset_build(names@.take(i as int), names@[i as int]);
        }
    }
    assert(names@.take(names@.len() as int) =~= names@);
    r
}

pub open spec fn first_of(v: Seq<(String, String)>) -> Seq<String> {
    v.map_values(|p: (String, String)| p.0)
}

/// The `(name, path)` pairs a scan covers: the requested names in the
/// given order, or, when none were requested, the listed subdirectories in
/// ascending name order. Each path is the name joined onto the root.
pub fn resolve_targets(input: &DiscoverInput, listed: Vec<String>) -> (r: Vec<(String, String)>)
    ensures
        forall|i: int| 0 <= i < r@.len() ==> (#[trigger] r@[i]).1@ == path_joined(input.root@, r@[i].0@),
        match input.repositories {
            Some(names) => first_of(r@) == names@,
            None => ascending(first_of(r@)) && first_of(r@).to_multiset() == listed@.to_multiset(),
        },
{
    let names = match &input.repositories {
        Some(names) => {
            let mut v: Vec<String> = Vec::new();
            for i in 0..names.len()
                invariant
                    v@ == names@.take(i as int),
            {
                v.push(names[i].clone());
                assert(v@ =~= names@.take(i + 1));
            }
            assert(names@.take(names@.len() as int) =~= names@);
            v
        },
        None => sort_names(listed),
    };
    let mut r: Vec<(String, String)> = Vec::new();
    for i in 0..names.len()
        invariant
            r@.len() == i,
            i <= names@.len(),
            first_of(r@) == names@.take(i as int),
            forall|k: int| 0 <= k < r@.len() ==> (#[trigger] r@[k]).1@ == path_joined(input.root@, r@[k].0@),
    {
        let path = join_path(input.root.as_str(), names[i].as_str());
        let ghost before = r@;
        r.push((names[i].clone(), path));
        assert(r@ == before.push(r@[i as int]));
        assert(r@[i as int].0 == names@[i as int]);
        assert(first_of(r@) =~= first_of(before).push(names@[i as int]));
        assert(first_of(r@) =~= names@.take(i + 1));
    }
    assert(names@.take(names@.len() as int) =~= names@);
    r
}

/// What one scan read from outside: its id and clock readings, what each
/// target's path showed with its probe outputs (in target order), the
/// identity records, and the live processes.
pub struct DiscoveryReadings {
    pub scan_id: String,
    pub started_at: String,
    pub finished_at: String,
    pub paths: Vec<(PathObservation, Option<ProbeRuns>)>,
    pub records: Vec<RawRecord>,
    pub live: Vec<OsProcess>,
    pub now: UnixTime,
}

/// Every working tree among the readings comes with its probe outputs.
pub open spec fn probes_present(paths: Seq<(PathObservation, Option<ProbeRuns>)>) -> bool {
    forall|i: int|
        0 <= i < paths.len() ==> ((#[trigger] paths[i]).0 matches PathObservation::Present(
            Ok(RepoKind::WorkingTree),
        ) ==> paths[i].1 is Some)
}

/// The snapshot of one scan over `targets`: each repository scanned on its
/// own, in target order, then the processes relevant to those repositories.
pub fn discover_ecosystem(targets: &Vec<(String, String)>, readings: DiscoveryReadings) -> (r:
    EcosystemSnapshot)
    requires
        readings.paths@.len() == targets@.len(),
        probes_present(readings.paths@),
    ensures
        r.scan.scan_id == readings.scan_id,
        r.scan.started_at == readings.started_at,
        r.scan.finished_at == readings.finished_at,
        r.repositories@.len() == targets@.len(),
        forall|i: int|
            0 <= i < targets@.len() ==> (#[trigger] r.repositories@[i])@ == scan_spec(
                targets@[i].0@,
                targets@[i].1@,
                readings.paths@[i].0,
                readings.paths@[i].1,
            ),
        gathered(r.local_processes@, r.repositories@, readings.records@, readings.live@, readings.now),
{
    let DiscoveryReadings { scan_id, started_at, finished_at, paths, records, live, now } = readings;
    let mut repositories: Vec<RepositorySnapshot> = Vec::new();
    for i in 0..targets.len()
        invariant
            paths@.len() == targets@.len(),
            probes_present(paths@),
            repositories@.len() == i,
            forall|k: int|
                0 <= k < i ==> (#[trigger] repositories@[k])@ == scan_spec(
                    targets@[k].0@,
                    targets@[k].1@,
                    paths@[k].0,
                    paths@[k].1,
                ),
    {
        assert(paths@[i as int].0 matches PathObservation::Present(Ok(RepoKind::WorkingTree))
            ==> paths@[i as int].1 is Some);
        let snap = scan_repository(
            targets[i].0.as_str(),
            targets[i].1.as_str(),
            &paths[i].0,
            &paths[i].1,
        );
        repositories.push(snap);
    }
    let local_processes = gather_local_processes(&repositories, records, live, now);
    EcosystemSnapshot {
        scan: ScanMetadata { scan_id, started_at, finished_at },
        repositories,
        local_processes,
    }
}

} // verus!
