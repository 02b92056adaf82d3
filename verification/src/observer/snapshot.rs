//! The observer's data model: repositories and their git state, scan
//! metadata, and the processes found running against them together with
//! what they report about themselves.

use vstd::prelude::*;

verus! {

/// `Complete`: a git repository whose four read-only probes (branch, head
/// SHA, dirty state, remotes) all succeeded. `Partial`: a git repository
/// where some probes failed and at least one succeeded. `Failed`: no
/// repository state could be read at all.
#[derive(Debug, Clone, Copy, PartialEq, Eq, Structural)]
pub enum ScanStatus {
    Complete,
    Partial,
    Failed,
}

#[derive(Debug, Clone, PartialEq, Eq)]
pub struct RemoteInfo {
    pub name: String,
    pub url: String,
}

/// One read-only probe (`"branch"`, `"head_sha"`, `"dirty"` or
/// `"remotes"`) that failed for an otherwise valid repository.
#[derive(Debug, Clone, PartialEq, Eq)]
pub struct ProbeFailure {
    pub probe: String,
    pub reason: String,
}

/// What was read of a repository. A field whose probe is listed in
/// `unavailable` holds a placeholder (`None`, `false`, empty), not a fact.
#[derive(Debug, Clone, PartialEq, Eq)]
pub struct GitState {
    pub branch: Option<String>,
    pub is_detached: bool,
    pub head_sha: Option<String>,
    pub is_dirty: bool,
    /// One entry per changed path; renames read `"old -> new"`.
    pub changed_paths: Vec<String>,
    pub remotes: Vec<RemoteInfo>,
    /// The probes that failed; empty exactly when the scan is `Complete`.
    pub unavailable: Vec<ProbeFailure>,
}

#[derive(Debug, Clone, PartialEq, Eq)]
pub struct RepositorySnapshot {
    pub name: String,
    pub path: String,
    pub scan_status: ScanStatus,
    pub git: Option<GitState>,
    pub error: Option<String>,
}

#[derive(Debug, Clone, PartialEq, Eq)]
pub struct ScanMetadata {
    pub scan_id: String,
    pub started_at: String,
    pub finished_at: String,
}

/// How a self-reported identity record correlates with the process it
/// claims to describe: a liveness axis, not a trust axis.
/// `Fresh`: the record's PID lines up with the running process and it was
/// updated recently. `Stale`: it lines up but has not been updated within
/// the threshold (or its update time cannot be read). `Orphaned`: the
/// record's PID belongs to another process now, or to none. `NotFound`:
/// the process has no record at all.
#[derive(Debug, Clone, Copy, PartialEq, Eq, Structural)]
pub enum IdentityStatus {
    Fresh,
    Stale,
    Orphaned,
    NotFound,
}

/// What an agent claims about itself. Every field is a claim, never
/// evidence.
#[derive(Debug, Clone, PartialEq, Eq)]
pub struct SelfReportedIdentity {
    pub model: Option<String>,
    pub role: Option<String>,
    pub repository_identity: Option<String>,
    pub instance: Option<String>,
    pub task: Option<String>,
    /// What the agent claims it can do; not a grant.
    pub declared_capabilities: Option<Vec<String>>,
}

impl SelfReportedIdentity {
    pub open spec fn is_empty(&self) -> bool {
        &&& self.model is None
        &&& self.role is None
        &&& self.repository_identity is None
        &&& self.instance is None
        &&& self.task is None
        &&& self.declared_capabilities is None
    }

    /// The identity that claims nothing.
    pub fn empty() -> (r: SelfReportedIdentity)
        ensures
            r.is_empty(),
    {
        SelfReportedIdentity {
            model: None,
            role: None,
            repository_identity: None,
            instance: None,
            task: None,
            declared_capabilities: None,
        }
    }
}

impl Default for SelfReportedIdentity {
    fn default() -> (r: SelfReportedIdentity)
        ensures
            r.is_empty(),
    {
        SelfReportedIdentity::empty()
    }
}

/// What the operating system shows of a live process.
#[derive(Debug, Clone, PartialEq, Eq)]
pub struct OsObservedFacts {
    pub command: String,
    pub cwd: Option<String>,
    pub started_at_observed: Option<String>,
    /// The repository of this same scan whose path contains the cwd.
    pub repo_association: Option<String>,
}

/// One process relevant to the ecosystem: a live process working inside a
/// scanned repository or holding an identity record, or a record whose
/// PID no longer belongs to any live process (`os_observed` is `None`).
#[derive(Debug, Clone, PartialEq, Eq)]
pub struct AgentProcess {
    pub pid: u32,
    pub os_observed: Option<OsObservedFacts>,
    pub identity_status: IdentityStatus,
    pub identity: SelfReportedIdentity,
}

#[derive(Debug, Clone, PartialEq, Eq)]
pub struct EcosystemSnapshot {
    pub scan: ScanMetadata,
    pub repositories: Vec<RepositorySnapshot>,
    pub local_processes: Vec<AgentProcess>,
}


pub open spec fn opt_text(s: Option<String>) -> Option<Seq<char>> {
    match s {
        Some(t) => Some(t@),
        None => None,
    }
}

pub open spec fn texts(v: Seq<String>) -> Seq<Seq<char>> {
    v.map_values(|s: String| s@)
}

pub open spec fn pairs_of_remotes(v: Seq<RemoteInfo>) -> Seq<(Seq<char>, Seq<char>)> {
    v.map_values(|r: RemoteInfo| (r.name@, r.url@))
}

pub open spec fn pairs_of_failures(v: Seq<ProbeFailure>) -> Seq<(Seq<char>, Seq<char>)> {
    v.map_values(|f: ProbeFailure| (f.probe@, f.reason@))
}

#[verifier::ext_equal]
pub struct GitStateV {
    pub branch: Option<Seq<char>>,
    pub is_detached: bool,
    pub head_sha: Option<Seq<char>>,
    pub is_dirty: bool,
    pub changed_paths: Seq<Seq<char>>,
    pub remotes: Seq<(Seq<char>, Seq<char>)>,
    pub unavailable: Seq<(Seq<char>, Seq<char>)>,
}

impl View for GitState {
    type V = GitStateV;

    open spec fn view(&self) -> GitStateV {
        GitStateV {
            branch: opt_text(self.branch),
            is_detached: self.is_detached,
            head_sha: opt_text(self.head_sha),
            is_dirty: self.is_dirty,
            changed_paths: texts(self.changed_paths@),
            remotes: pairs_of_remotes(self.remotes@),
            unavailable: pairs_of_failures(self.unavailable@),
        }
    }
}

#[verifier::ext_equal]
pub struct RepoSnapV {
    pub name: Seq<char>,
    pub path: Seq<char>,
    pub scan_status: ScanStatus,
    pub git: Option<GitStateV>,
    pub error: Option<Seq<char>>,
}

impl View for RepositorySnapshot {
    type V = RepoSnapV;

    open spec fn view(&self) -> RepoSnapV {
        RepoSnapV {
            name: self.name@,
            path: self.path@,
            scan_status: self.scan_status,
            git: match self.git {
                Some(g) => Some(g@),
                None => None,
            },
            error: opt_text(self.error),
        }
    }
}
} // verus!
