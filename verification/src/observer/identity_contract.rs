//! The self-reported layer: identity records written by agent runtimes,
//! read here and correlated against the process each one claims to
//! describe. A record is only ever a claim; correlation decides whether
//! its PID currently lines up with a real process, never whether its
//! content is true.

use vstd::prelude::*;
use std::collections::{HashMap, HashSet};
use crate::observer::iso_parse::{parse_iso8601_seconds, parse_iso_spec};
use crate::observer::process_observe::OsProcess;
use crate::observer::snapshot::{IdentityStatus, SelfReportedIdentity};
use crate::observer::time_util::UnixTime;
use crate::observer::discover::{join_path, path_joined};
use crate::text::{copy_opt_string, copy_strings, dec, push_decimal, str_eq};

verus! {

broadcast use vstd::std_specs::hash::group_hash_axioms;

/// Where identity records live by default: `ecosystem-agents` under the
/// runtime directory when one is set and not empty, else
/// `/tmp/ecosystem-agents-<uid>` (uid 0 when it could not be read). The
/// directory is outside every repository, so no record is ever committed.
pub fn default_base_dir(runtime_dir: Option<&str>, uid: Option<u32>) -> (r: String)
    ensures
        match runtime_dir {
            Some(d) if d@.len() > 0 => r@ == path_joined(d@, "ecosystem-agents"@),
            _ => r@ == "/tmp/ecosystem-agents-"@ + dec(
                match uid {
                    Some(u) => u as nat,
                    None => 0,
                },
            ),
        },
{
    match runtime_dir {
        Some(d) => {
            if d.unicode_len() > 0 {
                return join_path(d, "ecosystem-agents");
            }
        },
        None => {},
    }
    let mut r = String::from_str("/tmp/ecosystem-agents-");
    let n: u32 = match uid {
        Some(u) => u,
        None => 0,
    };
    push_decimal(&mut r, n as u64);
    r
}

/// How long, in seconds, a correlated record may go without an update
/// before it reads as `Stale`.
pub const STALE_THRESHOLD_SECS: u64 = 60;

/// How far apart, in seconds, a record's claimed start time and the
/// observed one may be when no start token is available to compare.
pub const STARTED_AT_TOLERANCE_SECS: u64 = 5;

/// One identity record as its file holds it, nothing renamed.
#[derive(Debug, Clone, PartialEq, Eq)]
pub struct RawRecord {
    pub schema_version: u32,
    pub pid: u32,
    pub process_start_token: Option<String>,
    pub started_at: Option<String>,
    pub updated_at: Option<String>,
    pub model: Option<String>,
    pub role: Option<String>,
    pub repository: Option<String>,
    pub instance: Option<String>,
    pub task: Option<String>,
    pub declared_capabilities: Option<Vec<String>>,
}

/// The records of a directory keyed by the PID each one claims, a later
/// record replacing an earlier one with the same PID.
pub open spec fn records_map(rs: Seq<RawRecord>) -> Map<u32, RawRecord>
    decreases rs.len(),
{
    if rs.len() == 0 {
        Map::empty()
    } else {
        records_map(rs.drop_last()).insert(rs.last().pid, rs.last())
    }
}

/// A timestamp read as seconds, when it is present and readable.
pub open spec fn opt_seconds(t: Option<String>) -> Option<int> {
    match t {
        Some(s) => parse_iso_spec(s@),
        None => None,
    }
}

/// Whether both start times are readable and at most the tolerance apart.
pub open spec fn within_tolerance(claimed: Option<String>, observed: Option<String>) -> bool {
    match (opt_seconds(claimed), opt_seconds(observed)) {
        (Some(c), Some(o)) => -(STARTED_AT_TOLERANCE_SECS as int) <= c - o
            <= STARTED_AT_TOLERANCE_SECS as int,
        _ => false,
    }
}

/// Whether a record describes this process: by start token when both have
/// one, else by start times within the tolerance.
pub open spec fn record_matches(record: RawRecord, process: OsProcess) -> bool {
    match (record.process_start_token, process.start_token) {
        (Some(claimed), Some(actual)) => claimed@ == actual@,
        _ => within_tolerance(record.started_at, process.started_at),
    }
}

/// Freshness of a matching record: `Stale` when its update time cannot be
/// read, or when more than the threshold has passed since it (an update
/// time before the epoch counts as the epoch, one in the future as now).
pub open spec fn freshness(record: RawRecord, now: UnixTime) -> IdentityStatus {
    match opt_seconds(record.updated_at) {
        Some(u) => {
            let updated = if u < 0 { 0 } else { u };
            if now.total_nanos() - updated * 1_000_000_000 > STALE_THRESHOLD_SECS * 1_000_000_000 {
                IdentityStatus::Stale
            } else {
                IdentityStatus::Fresh
            }
        },
        None => IdentityStatus::Stale,
    }
}

/// The claims of a record, as its identity.
pub open spec fn claimed_identity(record: RawRecord) -> SelfReportedIdentity {
    SelfReportedIdentity {
        model: record.model,
        role: record.role,
        repository_identity: record.repository,
        instance: record.instance,
        task: record.task,
        declared_capabilities: record.declared_capabilities,
    }
}

/// The status of a process against the records.
pub open spec fn correlation_status(
    process: OsProcess,
    records: Map<u32, RawRecord>,
    now: UnixTime,
) -> IdentityStatus {
    if !records.contains_key(process.pid) {
        IdentityStatus::NotFound
    } else if !record_matches(records[process.pid], process) {
        IdentityStatus::Orphaned
    } else {
        freshness(records[process.pid], now)
    }
}

/// The identity a process may be credited with: its record's claims when
/// the record matches it, nothing otherwise.
pub open spec fn credited_identity(process: OsProcess, records: Map<u32, RawRecord>) -> SelfReportedIdentity {
    if records.contains_key(process.pid) && record_matches(records[process.pid], process) {
        claimed_identity(records[process.pid])
    } else {
        SelfReportedIdentity::empty_spec()
    }
}

/// Two identities making the same claims, the capability lists compared
/// element by element.
pub open spec fn same_claims(a: SelfReportedIdentity, b: SelfReportedIdentity) -> bool {
    &&& a.model == b.model
    &&& a.role == b.role
    &&& a.repository_identity == b.repository_identity
    &&& a.instance == b.instance
    &&& a.task == b.task
    &&& match (a.declared_capabilities, b.declared_capabilities) {
        (Some(x), Some(y)) => x@ == y@,
        (None, None) => true,
        _ => false,
    }
}

impl SelfReportedIdentity {
    pub open spec fn empty_spec() -> SelfReportedIdentity {
        SelfReportedIdentity {
            model: None,
            role: None,
            repository_identity: None,
            instance: None,
            task: None,
            declared_capabilities: None,
        }
    }
}

fn copy_opt_strings(v: &Option<Vec<String>>) -> (r: Option<Vec<String>>)
    ensures
        r matches Some(x) ==> (v matches Some(y) && x@ == y@),
        r is None <==> v is None,
{
    match v {
        Some(x) => Some(copy_strings(x)),
        None => None,
    }
}

/// The records keyed by the PID inside each, later ones replacing earlier
/// ones with the same PID.
pub fn collect_records(parsed: Vec<RawRecord>) -> (m: HashMap<u32, RawRecord>)
    ensures
        m@ == records_map(parsed@),
{
    let mut m: HashMap<u32, RawRecord> = HashMap::new();
    let mut rest = parsed;
    let ghost all = rest@;
    let n = rest.len();
    let mut i: usize = 0;
    while i < n
        invariant
            n == all.len(),
            i <= n,
            rest@ =~= all.skip(i as int),
            m@ == records_map(all.take(i as int)),
        decreases n - i,
    {
        let r = rest.remove(0);
        assert(r == all[i as int]);
        m.insert(r.pid, r);
        assert(all.take(i + 1).drop_last() =~= all.take(i as int));
        i = i + 1;
        assert(rest@ =~= all.skip(i as int));
    }
    assert(all.take(n as int) =~= all);
    m
}

/// Every PID that has a record.
pub fn known_pids(parsed: &Vec<RawRecord>) -> (r: HashSet<u32>)
    ensures
        r@ == records_map(parsed@).dom(),
{
    let mut r: HashSet<u32> = HashSet::new();
    for i in 0..parsed.len()
        invariant
            r@ == records_map(parsed@.take(i as int)).dom(),
    {
        r.insert(parsed[i].pid);
        assert(parsed@.take(i + 1).drop_last() =~= parsed@.take(i as int));
        assert(r@ =~= records_map(parsed@.take(i + 1)).dom());
    }
    assert(parsed@.take(parsed.len() as int) =~= parsed@);
    r
}

/// Whether the claimed and the observed start times are both readable and
/// at most the tolerance apart; unreadable on either side fails closed.
pub fn started_at_within_tolerance(claimed: &Option<String>, observed: &Option<String>) -> (b:
    bool)
    ensures
        b == within_tolerance(*claimed, *observed),
{
    let c = match claimed {
        Some(s) => parse_iso8601_seconds(s.as_str()),
        None => None,
    };
    let o = match observed {
        Some(s) => parse_iso8601_seconds(s.as_str()),
        None => None,
    };
    match (c, o) {
        (Some(c), Some(o)) => {
            let diff: i128 = c as i128 - o as i128;
            -5 <= diff && diff <= 5
        },
        _ => false,
    }
}

/// Correlates one observed process against the records, giving its
/// status and, when its record matches it, the identity it claims.
pub fn correlate_with(process: &OsProcess, records: &HashMap<u32, RawRecord>, now: UnixTime) -> (r:
    (IdentityStatus, SelfReportedIdentity))
    ensures
        r.0 == correlation_status(*process, records@, now),
        same_claims(r.1, credited_identity(*process, records@)),
{
    let record = match records.get(&process.pid) {
        Some(rec) => rec,
        None => {
            return (IdentityStatus::NotFound, SelfReportedIdentity::empty());
        },
    };
    let matches = match (&record.process_start_token, &process.start_token) {
        (Some(claimed), Some(actual)) => str_eq(claimed.as_str(), actual.as_str()),
        _ => started_at_within_tolerance(&record.started_at, &process.started_at),
    };
    if !matches {
        return (IdentityStatus::Orphaned, SelfReportedIdentity::empty());
    }
    let caps = copy_opt_strings(&record.declared_capabilities);
    let identity = SelfReportedIdentity {
        model: copy_opt_string(&record.model),
        role: copy_opt_string(&record.role),
        repository_identity: copy_opt_string(&record.repository),
        instance: copy_opt_string(&record.instance),
        task: copy_opt_string(&record.task),
        declared_capabilities: caps,
    };
    let updated = match &record.updated_at {
        Some(s) => parse_iso8601_seconds(s.as_str()),
        None => None,
    };
    let status = match updated {
        Some(u) => {
            let upd: i128 = if u < 0 {
                0
            } else {
                u as i128
            };
            let age: i128 = now.secs as i128 * 1_000_000_000 + now.nanos as i128 - upd
                * 1_000_000_000;
            if age > 60_000_000_000 {
                IdentityStatus::Stale
            } else {
                IdentityStatus::Fresh
            }
        },
        None => IdentityStatus::Stale,
    };
    (status, identity)
}

/// Correlates one observed process against the records read from a
/// directory, in the order they were read.
pub fn correlate(process: &OsProcess, parsed: Vec<RawRecord>, now: UnixTime) -> (r: (
    IdentityStatus,
    SelfReportedIdentity,
))
    ensures
        r.0 == correlation_status(*process, records_map(parsed@), now),
        same_claims(r.1, credited_identity(*process, records_map(parsed@))),
{
    let records = collect_records(parsed);
    correlate_with(process, &records, now)
}

/// Unknown freshness never looks like confirmed freshness: a process is
/// `Fresh` only when its record matches it and carries a readable update
/// time no more than the threshold old.
pub proof fn law_fresh_needs_a_recent_heartbeat(
    process: OsProcess,
    records: Map<u32, RawRecord>,
    now: UnixTime,
)
    ensures
        correlation_status(process, records, now) == IdentityStatus::Fresh ==> {
            &&& records.contains_key(process.pid)
            &&& record_matches(records[process.pid], process)
            &&& opt_seconds(records[process.pid].updated_at) is Some
        },
{
}

/// A process is credited with claims exactly when its status is `Fresh` or
/// `Stale`; a `NotFound` or `Orphaned` process is credited with nothing.
pub proof fn law_claims_only_for_correlated_processes(
    process: OsProcess,
    records: Map<u32, RawRecord>,
    now: UnixTime,
)
    ensures
        (correlation_status(process, records, now) == IdentityStatus::NotFound
            || correlation_status(process, records, now) == IdentityStatus::Orphaned)
            ==> credited_identity(process, records) == SelfReportedIdentity::empty_spec(),
        (correlation_status(process, records, now) == IdentityStatus::Fresh
            || correlation_status(process, records, now) == IdentityStatus::Stale)
            ==> credited_identity(process, records) == claimed_identity(records[process.pid]),
{
}

/// A start token that differs from the process's own always means PID
/// reuse: the record is `Orphaned`, whatever else it says.
pub proof fn law_token_mismatch_is_orphaned(process: OsProcess, records: Map<u32, RawRecord>, now: UnixTime)
    requires
        records.contains_key(process.pid),
        records[process.pid].process_start_token matches Some(c) && process.start_token matches Some(a)
            && c@ != a@,
    ensures
        correlation_status(process, records, now) == IdentityStatus::Orphaned,
{
}

} // verus!
