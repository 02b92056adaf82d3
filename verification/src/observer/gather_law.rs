//! What a scan's process list holds, entry by entry.

use vstd::prelude::*;
use crate::observer::discover::{
    gathered, is_live, live_entry_ok, orphan_entry_ok, orphan_pids, relevant, selected,
};
use crate::observer::identity_contract::{records_map, RawRecord};
use crate::observer::process_observe::OsProcess;
use crate::observer::snapshot::{AgentProcess, RepositorySnapshot};
use crate::observer::time_util::UnixTime;

verus! {

/// A PID holds a record exactly when some record claims it.
proof fn lemma_records_map_dom(rs: Seq<RawRecord>)
    ensures
        forall|pid: u32|
            #[trigger] records_map(rs).dom().contains(pid) <==> exists|m: int|
                0 <= m < rs.len() && #[trigger] rs[m].pid == pid,
    decreases rs.len(),
{
    if rs.len() > 0 {
        let d = rs.drop_last();
        lemma_records_map_dom(d);
        assert(records_map(rs) == records_map(d).insert(rs.last().pid, rs.last()));
        assert forall|pid: u32| #[trigger] records_map(rs).dom().contains(pid) <==> exists|m: int|
            0 <= m < rs.len() && #[trigger] rs[m].pid == pid by {
            let in_d = records_map(d).dom().contains(pid);
            if pid == rs.last().pid {
                assert(rs[rs.len() - 1].pid == pid);
                assert(records_map(rs).dom().contains(pid));
            } else {
                assert(records_map(rs).dom().contains(pid) == in_d);
                if in_d {
                    let m = choose|m: int| 0 <= m < d.len() && #[trigger] d[m].pid == pid;
                    assert(rs[m].pid == pid);
                }
                if exists|m: int| 0 <= m < rs.len() && #[trigger] rs[m].pid == pid {
                    let m = choose|m: int| 0 <= m < rs.len() && #[trigger] rs[m].pid == pid;
                    assert(m < rs.len() - 1);
                    assert(d[m].pid == pid);
                    assert(in_d);
                }
            }
        }
    }
}

/// The selected positions are the relevant ones, in range.
proof fn lemma_selected(
    live: Seq<OsProcess>,
    repos: Seq<RepositorySnapshot>,
    known: Set<u32>,
    k: int,
)
    requires
        0 <= k <= live.len(),
    ensures
        forall|j: int|
            0 <= j < selected(live, repos, known, k).len() ==> 0 <= #[trigger] selected(
                live,
                repos,
                known,
                k,
            )[j] < k && relevant(live[selected(live, repos, known, k)[j]], repos, known),
        forall|i: int|
            0 <= i < k && #[trigger] relevant(live[i], repos, known) ==> selected(
                live,
                repos,
                known,
                k,
            ).contains(i),
    decreases k,
{
    if k > 0 {
        lemma_selected(live, repos, known, k - 1);
        let rest = selected(live, repos, known, k - 1);
        let sel = selected(live, repos, known, k);
        if relevant(live[k - 1], repos, known) {
            assert(sel == rest.push(k - 1));
            assert forall|i: int| 0 <= i < k && #[trigger] relevant(live[i], repos, known) implies sel.contains(i) by {
                if i == k - 1 {
                    assert(sel[rest.len() as int] == i);
                } else {
                    let j = choose|j: int| 0 <= j < rest.len() && rest[j] == i;
                    assert(sel[j] == i);
                }
            }
        }
    }
}

/// The orphan PIDs are the recorded PIDs with no live process, each once.
proof fn lemma_orphans(rs: Seq<RawRecord>, live: Seq<OsProcess>, k: int)
    requires
        0 <= k <= rs.len(),
    ensures
        forall|j: int|
            0 <= j < orphan_pids(rs, live, k).len() ==> !is_live(
                live,
                #[trigger] orphan_pids(rs, live, k)[j],
            ) && exists|m: int| 0 <= m < k && #[trigger] rs[m].pid == orphan_pids(rs, live, k)[j],
        forall|m: int|
            0 <= m < k && !is_live(live, #[trigger] rs[m].pid) ==> orphan_pids(rs, live, k).contains(
                rs[m].pid,
            ),
        forall|j1: int, j2: int|
            0 <= j1 < j2 < orphan_pids(rs, live, k).len() ==> #[trigger] orphan_pids(rs, live, k)[j1]
                != #[trigger] orphan_pids(rs, live, k)[j2],
    decreases k,
{
    if k > 0 {
        lemma_orphans(rs, live, k - 1);
        let acc = orphan_pids(rs, live, k - 1);
        let o = orphan_pids(rs, live, k);
        let pid = rs[k - 1].pid;
        if is_live(live, pid) || acc.contains(pid) {
            assert(o == acc);
            assert forall|j: int| 0 <= j < o.len() implies !is_live(live, #[trigger] o[j]) && exists|
                m: int,
            | 0 <= m < k && #[trigger] rs[m].pid == o[j] by {
                let m = choose|m: int| 0 <= m < k - 1 && #[trigger] rs[m].pid == acc[j];
                assert(rs[m].pid == o[j]);
            }
        } else {
            assert(o == acc.push(pid));
            assert forall|j: int| 0 <= j < o.len() implies !is_live(live, #[trigger] o[j]) && exists|
                m: int,
            | 0 <= m < k && #[trigger] rs[m].pid == o[j] by {
                if j < acc.len() {
                    assert(o[j] == acc[j]);
                    let m = choose|m: int| 0 <= m < k - 1 && #[trigger] rs[m].pid == acc[j];
                    assert(rs[m].pid == o[j]);
                } else {
                    assert(o[j] == pid);
                    assert(rs[k - 1].pid == o[j]);
                }
            }
            assert forall|m: int| 0 <= m < k && !is_live(live, #[trigger] rs[m].pid) implies o.contains(
                rs[m].pid,
            ) by {
                if m == k - 1 {
                    assert(o[acc.len() as int] == pid);
                } else {
                    let j = choose|j: int| 0 <= j < acc.len() && acc[j] == rs[m].pid;
                    assert(o[j] == rs[m].pid);
                }
            }
            assert forall|j1: int, j2: int| 0 <= j1 < j2 < o.len() implies #[trigger] o[j1]
                != #[trigger] o[j2] by {
                if j2 == acc.len() {
                    assert(o[j1] == acc[j1]);
                    assert(!acc.contains(pid));
                } else {
                    assert(o[j1] == acc[j1]);
                    assert(o[j2] == acc[j2]);
                }
            }
        }
    }
}

/// What a scan's process list holds: every live process that works inside
/// a scanned repository or holds an identity record has an entry observed
/// from it (credited with the first repository, in scan order, whose path
/// holds its working directory); every PID that holds a record but has no
/// live process has exactly one entry, `Orphaned`, with nothing observed
/// or credited; and there is no other entry.
pub proof fn law_gathered_processes(
    r: Seq<AgentProcess>,
    repos: Seq<RepositorySnapshot>,
    records: Seq<RawRecord>,
    live: Seq<OsProcess>,
    now: UnixTime,
)
    requires
        gathered(r, repos, records, live, now),
    ensures
        forall|i: int|
            0 <= i < live.len() && #[trigger] relevant(live[i], repos, records_map(records).dom())
                ==> exists|j: int|
                0 <= j < r.len() && live_entry_ok(#[trigger] r[j], live[i], repos, records_map(records), now),
        forall|pid: u32|
            #[trigger] records_map(records).dom().contains(pid) && !is_live(live, pid) ==> {
                &&& exists|j: int| 0 <= j < r.len() && #[trigger] r[j].pid == pid && orphan_entry_ok(r[j], pid)
                &&& forall|j1: int, j2: int|
                    0 <= j1 < r.len() && 0 <= j2 < r.len() && #[trigger] r[j1].pid == pid
                        && #[trigger] r[j2].pid == pid ==> j1 == j2
            },
        forall|j: int|
            0 <= j < r.len() ==> (exists|i: int|
                0 <= i < live.len() && relevant(live[i], repos, records_map(records).dom())
                    && live_entry_ok(#[trigger] r[j], live[i], repos, records_map(records), now)) || (
            records_map(records).dom().contains(r[j].pid) && !is_live(live, r[j].pid)
                && orphan_entry_ok(r[j], r[j].pid)),
{
    let known = records_map(records).dom();
    let sel = selected(live, repos, known, live.len() as int);
    let orph = orphan_pids(records, live, records.len() as int);
    lemma_selected(live, repos, known, live.len() as int);
    lemma_orphans(records, live, records.len() as int);
    lemma_records_map_dom(records);
    assert forall|i: int|
        0 <= i < live.len() && #[trigger] relevant(live[i], repos, known) implies exists|j: int|
        0 <= j < r.len() && live_entry_ok(#[trigger] r[j], live[i], repos, records_map(records), now) by {
        assert(sel.contains(i));
        let j = choose|j: int| 0 <= j < sel.len() && sel[j] == i;
        assert(live_entry_ok(r[j], live[sel[j]], repos, records_map(records), now));
    }
    assert forall|pid: u32| #[trigger] known.contains(pid) && !is_live(live, pid) implies {
        &&& exists|j: int| 0 <= j < r.len() && #[trigger] r[j].pid == pid && orphan_entry_ok(r[j], pid)
        &&& forall|j1: int, j2: int|
            0 <= j1 < r.len() && 0 <= j2 < r.len() && #[trigger] r[j1].pid == pid
                && #[trigger] r[j2].pid == pid ==> j1 == j2
    } by {
        let m = choose|m: int| 0 <= m < records.len() && #[trigger] records[m].pid == pid;
        assert(orph.contains(records[m].pid));
        let q = choose|q: int| 0 <= q < orph.len() && orph[q] == pid;
        assert(orphan_entry_ok(r[sel.len() + q], orph[q]));
        assert(r[sel.len() + q].pid == pid);
        assert forall|j1: int, j2: int|
            0 <= j1 < r.len() && 0 <= j2 < r.len() && #[trigger] r[j1].pid == pid
                && #[trigger] r[j2].pid == pid implies j1 == j2 by {
            assert(j1 >= sel.len()) by {
                if j1 < sel.len() {
                    assert(live_entry_ok(r[j1], live[sel[j1]], repos, records_map(records), now));
                    assert(live[sel[j1]].pid == pid);
                }
            }
            assert(j2 >= sel.len()) by {
                if j2 < sel.len() {
                    assert(live_entry_ok(r[j2], live[sel[j2]], repos, records_map(records), now));
                    assert(live[sel[j2]].pid == pid);
                }
            }
            let a = j1 - sel.len();
            let b = j2 - sel.len();
            assert(orphan_entry_ok(r[sel.len() + a], orph[a]));
            assert(orphan_entry_ok(r[sel.len() + b], orph[b]));
            if a < b {
                assert(orph[a] != orph[b]);
            } else if b < a {
                assert(orph[b] != orph[a]);
            }
        }
    }
    assert forall|j: int| 0 <= j < r.len() implies (exists|i: int|
        0 <= i < live.len() && relevant(live[i], repos, known) && live_entry_ok(
            #[trigger] r[j],
            live[i],
            repos,
            records_map(records),
            now,
        )) || (known.contains(r[j].pid) && !is_live(live, r[j].pid) && orphan_entry_ok(
        r[j],
        r[j].pid,
    )) by {
        if j < sel.len() {
            assert(live_entry_ok(r[j], live[sel[j]], repos, records_map(records), now));
            assert(relevant(live[sel[j]], repos, known));
        } else {
            let q = j - sel.len();
            assert(orphan_entry_ok(r[sel.len() + q], orph[q]));
            assert(!is_live(live, orph[q]));
            let m = choose|m: int|
                0 <= m < records.len() && #[trigger] records[m].pid == orph[q];
            assert(records[m].pid == r[j].pid);
        }
    }
}

} // verus!
