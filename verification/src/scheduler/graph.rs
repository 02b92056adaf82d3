//! One global graph over every repository's `tasks.my`, and each task's
//! readiness in it. The repositories stay the authority over their
//! tasks: the graph is a view of them. A task id defined in more than one
//! repository keeps its first definition (repositories taken in order of
//! name) and every other definition is reported, never dropped silently.

use vstd::prelude::*;
use crate::scheduler::tasks_file::{opt_view, strs_view, ParsedTask, TaskV};
use crate::text::{
    chars_of, copy_opt_string, copy_strings, lemma_seq_lt_asymmetric, lemma_seq_lt_irreflexive,
    lemma_seq_lt_total, lemma_seq_lt_transitive, push_str, seq_lt, str_eq, str_lt,
};

verus! {

/// The tasks one repository's file declares.
#[derive(Debug)]
pub struct RepoTasks {
    /// The repository's name, the origin of its tasks that declare none.
    pub repo: String,
    pub tasks: Vec<ParsedTask>,
}

#[verifier::ext_equal]
pub struct RepoV {
    pub repo: Seq<char>,
    pub tasks: Seq<TaskV>,
}

impl View for RepoTasks {
    type V = RepoV;

    open spec fn view(&self) -> RepoV {
        RepoV { repo: self.repo@, tasks: self.tasks@.map_values(|t: ParsedTask| t@) }
    }
}

pub open spec fn repos_view(rs: Seq<RepoTasks>) -> Seq<RepoV> {
    rs.map_values(|r: RepoTasks| r@)
}

/// Why an open task cannot start.
#[derive(Debug, PartialEq, Eq)]
pub enum BlockReason {
    /// It depends on an id that no repository defines.
    MissingDep(String),
    /// It waits on an open task, whose own chain of waits ends.
    WaitingOn(String),
    /// Its chain of waits never ends: it is behind a dependency cycle.
    Cycle,
}

#[derive(Debug, PartialEq, Eq)]
pub enum TaskState {
    Done,
    Ready,
    Blocked(BlockReason),
}

/// One task of the global graph.
#[derive(Debug)]
pub struct TaskNode {
    pub id: String,
    /// The declared origin, else the repository the task was found in.
    pub origin: String,
    /// The text of the declared priority, if any.
    pub priority: Option<String>,
    pub capabilities: Vec<String>,
    pub depends_on: Vec<String>,
    pub done: bool,
    /// Other repositories that also define this id, in order.
    pub duplicate_in: Vec<String>,
}

#[verifier::ext_equal]
pub struct NodeV {
    pub id: Seq<char>,
    pub origin: Seq<char>,
    pub priority: Option<Seq<char>>,
    pub capabilities: Seq<Seq<char>>,
    pub depends_on: Seq<Seq<char>>,
    pub done: bool,
    pub duplicate_in: Seq<Seq<char>>,
}

impl View for TaskNode {
    type V = NodeV;

    open spec fn view(&self) -> NodeV {
        NodeV {
            id: self.id@,
            origin: self.origin@,
            priority: opt_view(self.priority),
            capabilities: strs_view(self.capabilities@),
            depends_on: strs_view(self.depends_on@),
            done: self.done,
            duplicate_in: strs_view(self.duplicate_in@),
        }
    }
}

/// The global graph: its nodes in ascending order of id, and the notes
/// made while aggregating (one per duplicate definition).
#[derive(Debug)]
pub struct GlobalGraph {
    pub nodes: Vec<TaskNode>,
    pub warnings: Vec<String>,
}

#[verifier::ext_equal]
pub struct GraphV {
    pub nodes: Seq<NodeV>,
    pub warnings: Seq<Seq<char>>,
}

pub open spec fn nodes_view(ns: Seq<TaskNode>) -> Seq<NodeV> {
    ns.map_values(|n: TaskNode| n@)
}

impl View for GlobalGraph {
    type V = GraphV;

    open spec fn view(&self) -> GraphV {
        GraphV { nodes: nodes_view(self.nodes@), warnings: strs_view(self.warnings@) }
    }
}

/// Ids in strictly ascending order (so also pairwise distinct).
pub open spec fn sorted_ids(ns: Seq<NodeV>) -> bool {
    forall|i: int, j: int| 0 <= i < j < ns.len() ==> seq_lt(ns[i].id, ns[j].id)
}

/// Index of the node with id `id` among `ns[k..]`, or -1.
pub open spec fn find_from(ns: Seq<NodeV>, id: Seq<char>, k: int) -> int
    decreases ns.len() - k,
{
    if k < 0 || k >= ns.len() {
        -1
    } else if ns[k].id == id {
        k
    } else {
        find_from(ns, id, k + 1)
    }
}

/// Index of the node with id `id`, or -1.
pub open spec fn find_id(ns: Seq<NodeV>, id: Seq<char>) -> int {
    find_from(ns, id, 0)
}

/// Where a new id goes to keep the ids ascending: before the first
/// greater one.
pub open spec fn insert_pos_from(ns: Seq<NodeV>, id: Seq<char>, k: int) -> int
    decreases ns.len() - k,
{
    if k < 0 || k >= ns.len() {
        ns.len() as int
    } else if seq_lt(id, ns[k].id) {
        k
    } else {
        insert_pos_from(ns, id, k + 1)
    }
}

pub open spec fn warning_text(id: Seq<char>, repo: Seq<char>, kept: Seq<char>) -> Seq<char> {
    "duplicate task id `"@ + id + "` also defined in `"@ + repo + "` (kept `"@ + kept
        + "`, first input occurrence)"@
}

pub open spec fn new_node(t: TaskV, repo: Seq<char>) -> NodeV {
    NodeV {
        id: t.id,
        origin: match t.origin {
            Some(o) => o,
            None => repo,
        },
        priority: t.priority,
        capabilities: t.capabilities,
        depends_on: t.depends_on,
        done: t.done,
        duplicate_in: Seq::empty(),
    }
}

/// Adding one task found in `repo`: a new id gets a node in its place, a
/// known id keeps its node, which notes the repository, and a warning.
pub open spec fn add_task(g: GraphV, repo: Seq<char>, t: TaskV) -> GraphV {
    let i = find_id(g.nodes, t.id);
    if i >= 0 {
        let n = g.nodes[i];
        GraphV {
            nodes: g.nodes.update(i, NodeV { duplicate_in: n.duplicate_in.push(repo), ..n }),
            warnings: g.warnings.push(warning_text(t.id, repo, n.origin)),
        }
    } else {
        GraphV {
            nodes: g.nodes.insert(insert_pos_from(g.nodes, t.id, 0), new_node(t, repo)),
            warnings: g.warnings,
        }
    }
}

pub open spec fn add_tasks(g: GraphV, repo: Seq<char>, ts: Seq<TaskV>) -> GraphV
    decreases ts.len(),
{
    if ts.len() == 0 {
        g
    } else {
        add_task(add_tasks(g, repo, ts.drop_last()), repo, ts.last())
    }
}

pub open spec fn add_repos(g: GraphV, rs: Seq<RepoV>) -> GraphV
    decreases rs.len(),
{
    if rs.len() == 0 {
        g
    } else {
        add_tasks(add_repos(g, rs.drop_last()), rs.last().repo, rs.last().tasks)
    }
}

/// Where a repository goes among repositories sorted by name: after every
/// one whose name is not greater.
pub open spec fn repo_pos_from(rs: Seq<RepoV>, name: Seq<char>, k: int) -> int
    decreases rs.len() - k,
{
    if k < 0 || k >= rs.len() {
        rs.len() as int
    } else if seq_lt(name, rs[k].repo) {
        k
    } else {
        repo_pos_from(rs, name, k + 1)
    }
}

/// The repositories in order of name, those of equal name in input order.
pub open spec fn sort_repos(rs: Seq<RepoV>) -> Seq<RepoV>
    decreases rs.len(),
{
    if rs.len() == 0 {
        Seq::empty()
    } else {
        let s = sort_repos(rs.drop_last());
        s.insert(repo_pos_from(s, rs.last().repo, 0), rs.last())
    }
}

pub open spec fn empty_graph() -> GraphV {
    GraphV { nodes: Seq::empty(), warnings: Seq::empty() }
}

/// The graph of a set of repositories.
pub open spec fn build_spec(rs: Seq<RepoV>) -> GraphV {
    add_repos(empty_graph(), sort_repos(rs))
}


/// Position at which a repository named `name` goes among `out`.
fn repo_pos(out: &Vec<RepoTasks>, name: &str) -> (r: usize)
    ensures
        r == repo_pos_from(repos_view(out@), name@, 0),
        r <= out@.len(),
{
    let ghost v = repos_view(out@);
    let mut k: usize = 0;
    while k < out.len()
        invariant
            k <= out@.len(),
            v == repos_view(out@),
            repo_pos_from(v, name@, 0) == repo_pos_from(v, name@, k as int),
        decreases out@.len() - k,
    {
        if str_lt(name, out[k].repo.as_str()) {
            return k;
        }
        k = k + 1;
    }
    k
}

/// The repositories in order of name, equal names keeping input order.
fn sort_by_name(repos: Vec<RepoTasks>) -> (r: Vec<RepoTasks>)
    ensures
        repos_view(r@) == sort_repos(repos_view(repos@)),
{
    let ghost all = repos_view(repos@);
    let n = repos.len();
    let mut rest = repos;
    let mut out: Vec<RepoTasks> = Vec::new();
    assert(all.take(0) =~= Seq::<RepoV>::empty());
    assert(repos_view(out@) =~= Seq::<RepoV>::empty());
    let mut i: usize = 0;
    while i < n
        invariant
            n == all.len(),
            i <= n,
            repos_view(rest@) =~= all.skip(i as int),
            repos_view(out@) == sort_repos(all.take(i as int)),
        decreases n - i,
    {
        assert(repos_view(rest@).len() == rest@.len());
        assert(rest@.len() == n - i);
        assert(repos_view(rest@)[0] == all[i as int]);
        let ghost rest0 = rest@;
        let r = rest.remove(0);
        assert(rest@ =~= rest0.skip(1));
        let p = repo_pos(&out, r.repo.as_str());
        let ghost before = repos_view(out@);
        out.insert(p, r);
        proof {
            assert(all.take(i + 1).drop_last() =~= all.take(i as int));
            assert(all.take(i + 1).last() == all[i as int]);
            assert(repos_view(out@) =~= before.insert(p as int, r@));
            assert forall|k: int| 0 <= k < rest@.len() implies #[trigger] repos_view(rest@)[k] == all.skip(i + 1)[k] by {
                assert(rest@[k] == rest0[k + 1]);
                assert(repos_view(rest0)[k + 1] == all.skip(i as int)[k + 1]);
            }
            assert(repos_view(rest@) =~= all.skip(i + 1));
        }
        i = i + 1;
    }
    assert(all.take(n as int) =~= all);
    out
}

/// Index of the node with id `id`, if there is one.
fn find_node(nodes: &Vec<TaskNode>, id: &str) -> (r: Option<usize>)
    ensures
        r matches Some(i) ==> find_id(nodes_view(nodes@), id@) == i as int && i < nodes@.len(),
        r is None ==> find_id(nodes_view(nodes@), id@) == -1,
{
    let ghost v = nodes_view(nodes@);
    let mut k: usize = 0;
    while k < nodes.len()
        invariant
            k <= nodes@.len(),
            v == nodes_view(nodes@),
            find_id(v, id@) == find_from(v, id@, k as int),
        decreases nodes@.len() - k,
    {
        if str_eq(nodes[k].id.as_str(), id) {
            return Some(k);
        }
        k = k + 1;
    }
    None
}

/// Position at which a new id goes to keep the ids ascending.
fn node_pos(nodes: &Vec<TaskNode>, id: &str) -> (r: usize)
    ensures
        r == insert_pos_from(nodes_view(nodes@), id@, 0),
        r <= nodes@.len(),
{
    let ghost v = nodes_view(nodes@);
    let mut k: usize = 0;
    while k < nodes.len()
        invariant
            k <= nodes@.len(),
            v == nodes_view(nodes@),
            insert_pos_from(v, id@, 0) == insert_pos_from(v, id@, k as int),
        decreases nodes@.len() - k,
    {
        if str_lt(id, nodes[k].id.as_str()) {
            return k;
        }
        k = k + 1;
    }
    k
}

fn warning_message(id: &str, repo: &str, kept: &str) -> (r: String)
    ensures
        r@ == warning_text(id@, repo@, kept@),
{
    let mut w = String::new();
    push_str(&mut w, "duplicate task id `");
    push_str(&mut w, id);
    push_str(&mut w, "` also defined in `");
    push_str(&mut w, repo);
    push_str(&mut w, "` (kept `");
    push_str(&mut w, kept);
    push_str(&mut w, "`, first input occurrence)");
    assert(w@ =~= warning_text(id@, repo@, kept@));
    w
}

impl GlobalGraph {
    /// Adds one task found in `repo`.
    fn add(&mut self, repo: &String, t: &ParsedTask)
        ensures
            final(self)@ == add_task(old(self)@, repo@, t@),
    {
        let ghost g = self@;
        match find_node(&self.nodes, t.id.as_str()) {
            Some(i) => {
                let w = warning_message(t.id.as_str(), repo.as_str(), self.nodes[i].origin.as_str());
                let mut n = self.nodes.remove(i);
                let ghost n0 = n@;
                n.duplicate_in.push(repo.clone());
                assert(strs_view(n.duplicate_in@) =~= n0.duplicate_in.push(repo@));
                self.nodes.insert(i, n);
                self.warnings.push(w);
                assert(nodes_view(self.nodes@) =~= g.nodes.update(
                    i as int,
                    NodeV { duplicate_in: n0.duplicate_in.push(repo@), ..n0 },
                ));
                assert(strs_view(self.warnings@) =~= g.warnings.push(warning_text(t.id@, repo@, n0.origin)));
            },
            None => {
                let p = node_pos(&self.nodes, t.id.as_str());
                let origin = match &t.origin {
                    Some(o) => o.clone(),
                    None => repo.clone(),
                };
                let node = TaskNode {
                    id: t.id.clone(),
                    origin,
                    priority: copy_opt_string(&t.priority),
                    capabilities: copy_strings(&t.capabilities),
                    depends_on: copy_strings(&t.depends_on),
                    done: t.done,
                    duplicate_in: Vec::new(),
                };
                assert(strs_view(node.duplicate_in@) =~= Seq::<Seq<char>>::empty());
                assert(node@ =~= new_node(t@, repo@));
                self.nodes.insert(p, node);
                assert(nodes_view(self.nodes@) =~= g.nodes.insert(p as int, new_node(t@, repo@)));
            },
        }
    }

    /// The global graph of the given repositories, taken in order of name.
    pub fn build(repos: Vec<RepoTasks>) -> (g: GlobalGraph)
        ensures
            g@ == build_spec(repos_view(repos@)),
    {
        let sorted = sort_by_name(repos);
        let ghost rs = repos_view(sorted@);
        let mut g = GlobalGraph { nodes: Vec::new(), warnings: Vec::new() };
        assert(nodes_view(g.nodes@) =~= Seq::<NodeV>::empty());
        assert(strs_view(g.warnings@) =~= Seq::<Seq<char>>::empty());
        assert(g@ =~= empty_graph());
        assert(rs.take(0) =~= Seq::<RepoV>::empty());
        for i in 0..sorted.len()
            invariant
                rs == repos_view(sorted@),
                g@ == add_repos(empty_graph(), rs.take(i as int)),
        {
            let rt = &sorted[i];
            let ghost ts = rt@.tasks;
            let ghost g0 = g@;
            assert(ts.take(0) =~= Seq::<TaskV>::empty());
            for j in 0..rt.tasks.len()
                invariant
                    ts == rt@.tasks,
                    g@ == add_tasks(g0, rt.repo@, ts.take(j as int)),
            {
                g.add(&rt.repo, &rt.tasks[j]);
                assert(ts.take(j + 1).drop_last() =~= ts.take(j as int));
            }
            assert(ts.take(ts.len() as int) =~= ts);
            assert(rs.take(i + 1).drop_last() =~= rs.take(i as int));
        }
        assert(rs.take(rs.len() as int) =~= rs);
        g
    }
}


/// The readiness a task has from its direct dependencies alone.
pub enum Phase {
    Done,
    Ready,
    Missing(Seq<char>),
    Waiting(Seq<char>),
}

/// The first of `deps[k..]` that keeps a task from starting: one that no
/// node defines, or one that is not done.
pub open spec fn first_block(ns: Seq<NodeV>, deps: Seq<Seq<char>>, k: int) -> Phase
    decreases deps.len() - k,
{
    if k < 0 || k >= deps.len() {
        Phase::Ready
    } else {
        let i = find_id(ns, deps[k]);
        if i < 0 {
            Phase::Missing(deps[k])
        } else if ns[i].done {
            first_block(ns, deps, k + 1)
        } else {
            Phase::Waiting(deps[k])
        }
    }
}

pub open spec fn phase(ns: Seq<NodeV>, i: int) -> Phase {
    if ns[i].done {
        Phase::Done
    } else {
        first_block(ns, ns[i].depends_on, 0)
    }
}

/// Following the waits from node `i`, a task that waits on nothing is
/// reached within `fuel` steps.
pub open spec fn settles(ns: Seq<NodeV>, i: int, fuel: nat) -> bool
    decreases fuel,
{
    match phase(ns, i) {
        Phase::Waiting(d) => fuel > 0 && settles(ns, find_id(ns, d), (fuel - 1) as nat),
        _ => true,
    }
}

/// The value of a task state.
pub enum StateV {
    Done,
    Ready,
    MissingDep(Seq<char>),
    WaitingOn(Seq<char>),
    Cycle,
}

/// The readiness of node `i`: done; ready when every dependency exists
/// and is done; otherwise blocked by its first dependency that is
/// missing or open. Waiting on an open task is reported as such when the
/// chain of waits from it ends somewhere, as a cycle when it never does.
pub open spec fn state_spec(ns: Seq<NodeV>, i: int) -> StateV {
    match phase(ns, i) {
        Phase::Done => StateV::Done,
        Phase::Ready => StateV::Ready,
        Phase::Missing(d) => StateV::MissingDep(d),
        Phase::Waiting(d) => if exists|k: nat| settles(ns, i, k) {
            StateV::WaitingOn(d)
        } else {
            StateV::Cycle
        },
    }
}

pub open spec fn state_view(s: TaskState) -> StateV {
    match s {
        TaskState::Done => StateV::Done,
        TaskState::Ready => StateV::Ready,
        TaskState::Blocked(BlockReason::MissingDep(d)) => StateV::MissingDep(d@),
        TaskState::Blocked(BlockReason::WaitingOn(d)) => StateV::WaitingOn(d@),
        TaskState::Blocked(BlockReason::Cycle) => StateV::Cycle,
    }
}

/// A node's readiness from its direct dependencies, with the positions
/// of the blocking dependency and of the node it names.
enum Pre {
    Done,
    Ready,
    Missing(usize),
    Waiting(usize, usize),
}

spec fn pre_ok(p: Pre, ns: Seq<NodeV>, i: int) -> bool {
    match p {
        Pre::Done => phase(ns, i) == Phase::Done,
        Pre::Ready => phase(ns, i) == Phase::Ready,
        Pre::Missing(k) => 0 <= k < ns[i].depends_on.len() && phase(ns, i) == Phase::Missing(
            ns[i].depends_on[k as int],
        ),
        Pre::Waiting(k, j) => {
            &&& 0 <= k < ns[i].depends_on.len()
            &&& phase(ns, i) == Phase::Waiting(ns[i].depends_on[k as int])
            &&& j == find_id(ns, ns[i].depends_on[k as int])
            &&& 0 <= j < ns.len()
        },
    }
}

proof fn lemma_find_from_range(ns: Seq<NodeV>, id: Seq<char>, k: int)
    requires
        0 <= k,
    ensures
        find_from(ns, id, k) == -1 || (k <= find_from(ns, id, k) < ns.len() && ns[find_from(ns, id, k)].id == id),
    decreases ns.len() - k,
{
    if k < ns.len() && ns[k].id != id {
        lemma_find_from_range(ns, id, k + 1);
    }
}

/// The number of `false` entries.
spec fn count_false(s: Seq<bool>) -> nat
    decreases s.len(),
{
    if s.len() == 0 {
        0
    } else {
        count_false(s.drop_last()) + if s.last() { 0nat } else { 1nat }
    }
}

proof fn lemma_count_false_set(s: Seq<bool>, i: int)
    requires
        0 <= i < s.len(),
        !s[i],
    ensures
        count_false(s.update(i, true)) < count_false(s),
    decreases s.len(),
{
    let t = s.update(i, true);
    if i == s.len() - 1 {
        assert(t.drop_last() =~= s.drop_last());
    } else {
        assert(t.drop_last() =~= s.drop_last().update(i, true));
        lemma_count_false_set(s.drop_last(), i);
    }
}

impl GlobalGraph {
    /// The readiness of node `i` from its direct dependencies.
    fn pre_state(&self, i: usize) -> (p: Pre)
        requires
            i < self.nodes@.len(),
        ensures
            pre_ok(p, nodes_view(self.nodes@), i as int),
    {
        let ghost ns = nodes_view(self.nodes@);
        if self.nodes[i].done {
            return Pre::Done;
        }
        let deps = &self.nodes[i].depends_on;
        let ghost dv = ns[i as int].depends_on;
        let mut k: usize = 0;
        while k < deps.len()
            invariant
                ns == nodes_view(self.nodes@),
                i < self.nodes@.len(),
                !ns[i as int].done,
                dv == ns[i as int].depends_on,
                dv == strs_view(deps@),
                k <= deps@.len(),
                first_block(ns, dv, 0) == first_block(ns, dv, k as int),
            decreases deps@.len() - k,
        {
            proof {
                lemma_find_from_range(ns, dv[k as int], 0);
            }
            match find_node(&self.nodes, deps[k].as_str()) {
                None => {
                    return Pre::Missing(k);
                },
                Some(j) => {
                    if !self.nodes[j].done {
                        return Pre::Waiting(k, j);
                    }
                },
            }
            k = k + 1;
        }
        Pre::Ready
    }

    /// Every node's readiness, position for position with `nodes`.
    pub fn state_map(&self) -> (r: Vec<TaskState>)
        ensures
            r@.len() == self.nodes@.len(),
            forall|i: int| 0 <= i < r@.len() ==> state_view(#[trigger] r@[i]) == state_spec(
                nodes_view(self.nodes@),
                i,
            ),
    {
        let ghost ns = nodes_view(self.nodes@);
        let n = self.nodes.len();
        let mut pre: Vec<Pre> = Vec::new();
        let mut good: Vec<bool> = Vec::new();
        for i in 0..n
            invariant
                n == self.nodes@.len(),
                ns == nodes_view(self.nodes@),
                pre@.len() == i,
                good@.len() == i,
                forall|a: int| 0 <= a < i ==> pre_ok(#[trigger] pre@[a], ns, a),
                forall|a: int| 0 <= a < i ==> (#[trigger] good@[a] <==> !(pre@[a] is Waiting)),
        {
            let p = self.pre_state(i);
            let w = match p {
                Pre::Waiting(_, _) => false,
                _ => true,
            };
            pre.push(p);
            good.push(w);
        }
        proof {
            assert forall|a: int| 0 <= a < n && #[trigger] good@[a] implies exists|k: nat| settles(ns, a, k) by {
                assert(settles(ns, a, 0));
            }
        }
        loop
            invariant
                n == self.nodes@.len(),
                ns == nodes_view(self.nodes@),
                pre@.len() == n,
                good@.len() == n,
                forall|a: int| 0 <= a < n ==> pre_ok(#[trigger] pre@[a], ns, a),
                forall|a: int| 0 <= a < n && !(pre@[a] is Waiting) ==> #[trigger] good@[a],
                forall|a: int| 0 <= a < n && #[trigger] good@[a] ==> exists|k: nat| settles(ns, a, k),
            ensures
                good@.len() == n,
                forall|a: int| 0 <= a < n && !(pre@[a] is Waiting) ==> #[trigger] good@[a],
                forall|a: int| 0 <= a < n && #[trigger] good@[a] ==> exists|k: nat| settles(ns, a, k),
                forall|a: int|
                    0 <= a < n && (#[trigger] pre@[a] matches Pre::Waiting(_, j) && good@[j as int])
                        ==> good@[a],
            decreases count_false(good@),
        {
            let ghost start = good@;
            let mut changed = false;
            for i in 0..n
                invariant
                    n == self.nodes@.len(),
                    ns == nodes_view(self.nodes@),
                    pre@.len() == n,
                    good@.len() == n,
                    forall|a: int| 0 <= a < n ==> pre_ok(#[trigger] pre@[a], ns, a),
                    forall|a: int| 0 <= a < n && !(pre@[a] is Waiting) ==> #[trigger] good@[a],
                    forall|a: int|
                        0 <= a < n && #[trigger] good@[a] ==> exists|k: nat| settles(ns, a, k),
                    !changed ==> good@ == start,
                    changed ==> count_false(good@) < count_false(start),
                    !changed ==> forall|a: int|
                        0 <= a < i && (#[trigger] pre@[a] matches Pre::Waiting(_, j) && good@[j as int])
                            ==> good@[a],
            {
                if let Pre::Waiting(_, j) = pre[i] {
                    if !good[i] && good[j] {
                        proof {
                            let k = choose|k: nat| settles(ns, j as int, k);
                            assert(settles(ns, i as int, k + 1));
                            lemma_count_false_set(good@, i as int);
                        }
                        good.set(i, true);
                        changed = true;
                    }
                }
            }
            if !changed {
                break;
            }
        }
        let mut r: Vec<TaskState> = Vec::new();
        for i in 0..n
            invariant
                n == self.nodes@.len(),
                ns == nodes_view(self.nodes@),
                pre@.len() == n,
                good@.len() == n,
                forall|a: int| 0 <= a < n ==> pre_ok(#[trigger] pre@[a], ns, a),
                forall|a: int| 0 <= a < n && #[trigger] good@[a] ==> exists|k: nat| settles(ns, a, k),
                forall|a: int|
                    0 <= a < n && (#[trigger] pre@[a] matches Pre::Waiting(_, j) && good@[j as int])
                        ==> good@[a],
                forall|a: int| 0 <= a < n && !(pre@[a] is Waiting) ==> #[trigger] good@[a],
                r@.len() == i,
                forall|a: int| 0 <= a < i ==> state_view(#[trigger] r@[a]) == state_spec(ns, a),
        {
            let s = match pre[i] {
                Pre::Done => TaskState::Done,
                Pre::Ready => TaskState::Ready,
                Pre::Missing(k) => TaskState::Blocked(
                    BlockReason::MissingDep(self.nodes[i].depends_on[k].clone()),
                ),
                Pre::Waiting(k, _) => {
                    if good[i] {
                        TaskState::Blocked(BlockReason::WaitingOn(self.nodes[i].depends_on[k].clone()))
                    } else {
                        proof {
                            assert forall|f: nat| !settles(ns, i as int, f) by {
                                self.lemma_unsettled(pre@, good@, i as int, f);
                            }
                        }
                        TaskState::Blocked(BlockReason::Cycle)
                    }
                },
            };
            r.push(s);
        }
        r
    }

    proof fn lemma_unsettled(&self, pre: Seq<Pre>, good: Seq<bool>, i: int, f: nat)
        requires
            pre.len() == self.nodes@.len(),
            good.len() == self.nodes@.len(),
            0 <= i < pre.len(),
            !good[i],
            forall|a: int| 0 <= a < pre.len() ==> pre_ok(#[trigger] pre[a], nodes_view(self.nodes@), a),
            forall|a: int| 0 <= a < pre.len() && !(pre[a] is Waiting) ==> #[trigger] good[a],
            forall|a: int|
                0 <= a < pre.len() && (#[trigger] pre[a] matches Pre::Waiting(_, j) && good[j as int])
                    ==> good[a],
        ensures
            !settles(nodes_view(self.nodes@), i, f),
        decreases f,
    {
        let ns = nodes_view(self.nodes@);
        assert(pre_ok(pre[i], ns, i));
        if let Pre::Waiting(k, j) = pre[i] {
            if f > 0 {
                assert(!good[j as int]);
                self.lemma_unsettled(pre, good, j as int, (f - 1) as nat);
            }
        }
    }
}


/// How many of `states` are done, ready, and blocked.
pub open spec fn tally(states: Seq<StateV>) -> (nat, nat, nat)
    decreases states.len(),
{
    if states.len() == 0 {
        (0, 0, 0)
    } else {
        let t = tally(states.drop_last());
        match states.last() {
            StateV::Done => ((t.0 + 1) as nat, t.1, t.2),
            StateV::Ready => (t.0, (t.1 + 1) as nat, t.2),
            _ => (t.0, t.1, (t.2 + 1) as nat),
        }
    }
}

pub open spec fn states_view(states: Seq<TaskState>) -> Seq<StateV> {
    states.map_values(|s: TaskState| state_view(s))
}

/// The number of open tasks that list `id` among their dependencies.
pub open spec fn impact_spec(ns: Seq<NodeV>, id: Seq<char>) -> nat
    decreases ns.len(),
{
    if ns.len() == 0 {
        0
    } else {
        impact_spec(ns.drop_last(), id) + if !ns.last().done && ns.last().depends_on.contains(id) {
            1nat
        } else {
            0nat
        }
    }
}

/// Whether a task with capabilities `task_caps` may go to an agent with
/// `agent_caps`: it asks for none, or for one the agent has.
pub open spec fn matches_spec(agent_caps: Seq<Seq<char>>, task_caps: Seq<Seq<char>>) -> bool {
    task_caps.len() == 0 || exists|i: int|
        0 <= i < task_caps.len() && #[trigger] agent_caps.contains(task_caps[i])
}

/// Whether `v` contains `x`.
pub fn contains_str(v: &Vec<String>, x: &str) -> (r: bool)
    ensures
        r == strs_view(v@).contains(x@),
{
    let mut i: usize = 0;
    while i < v.len()
        invariant
            i <= v@.len(),
            forall|j: int| 0 <= j < i ==> strs_view(v@)[j] != x@,
        decreases v@.len() - i,
    {
        if str_eq(v[i].as_str(), x) {
            assert(strs_view(v@)[i as int] == x@);
            return true;
        }
        i = i + 1;
    }
    false
}

impl GlobalGraph {
    /// The node with id `id`, if there is one.
    pub fn node(&self, id: &str) -> (r: Option<&TaskNode>)
        ensures
            r matches Some(n) ==> find_id(self@.nodes, id@) >= 0 && n@ == self@.nodes[find_id(
                self@.nodes,
                id@,
            )],
            r is None ==> find_id(self@.nodes, id@) == -1,
    {
        match find_node(&self.nodes, id) {
            Some(i) => Some(&self.nodes[i]),
            None => None,
        }
    }

    /// The readiness of the task `id`, if the graph has it.
    pub fn state_of(&self, id: &str) -> (r: Option<TaskState>)
        ensures
            r matches Some(s) ==> find_id(self@.nodes, id@) >= 0 && state_view(s) == state_spec(
                self@.nodes,
                find_id(self@.nodes, id@),
            ),
            r is None ==> find_id(self@.nodes, id@) == -1,
    {
        match find_node(&self.nodes, id) {
            Some(i) => {
                let mut states = self.state_map();
                Some(states.swap_remove(i))
            },
            None => None,
        }
    }

    /// The number of tasks, then how many of `states` are done, ready and
    /// blocked.
    pub fn counts(&self, states: &Vec<TaskState>) -> (r: (usize, usize, usize, usize))
        ensures
            r.0 == self.nodes@.len(),
            (r.1 as nat, r.2 as nat, r.3 as nat) == tally(states_view(states@)),
    {
        let mut done: usize = 0;
        let mut ready: usize = 0;
        let mut blocked: usize = 0;
        let ghost sv = states_view(states@);
        for i in 0..states.len()
            invariant
                sv == states_view(states@),
                (done as nat, ready as nat, blocked as nat) == tally(sv.take(i as int)),
                done + ready + blocked == i,
        {
            assert(sv.take(i + 1).drop_last() =~= sv.take(i as int));
            match &states[i] {
                TaskState::Done => {
                    done = done + 1;
                },
                TaskState::Ready => {
                    ready = ready + 1;
                },
                TaskState::Blocked(_) => {
                    blocked = blocked + 1;
                },
            }
        }
        assert(sv.take(states@.len() as int) =~= sv);
        (self.nodes.len(), done, ready, blocked)
    }
}

/// The blocked nodes among the first `k`, in node order: id, origin and
/// why, read from `sts` (one state per node).
pub open spec fn blocked_spec(ns: Seq<NodeV>, sts: Seq<StateV>, k: int) -> Seq<
    (Seq<char>, Seq<char>, StateV),
>
    decreases k,
{
    if k <= 0 {
        seq![]
    } else {
        let prev = blocked_spec(ns, sts, k - 1);
        match sts[k - 1] {
            StateV::Done => prev,
            StateV::Ready => prev,
            _ => prev.push((ns[k - 1].id, ns[k - 1].origin, sts[k - 1])),
        }
    }
}

pub open spec fn blocked_view(v: Seq<(String, String, BlockReason)>) -> Seq<
    (Seq<char>, Seq<char>, StateV),
> {
    v.map_values(
        |e: (String, String, BlockReason)| (e.0@, e.1@, state_view(TaskState::Blocked(e.2))),
    )
}

fn copy_reason(b: &BlockReason) -> (r: BlockReason)
    ensures
        state_view(TaskState::Blocked(r)) == state_view(TaskState::Blocked(*b)),
{
    match b {
        BlockReason::MissingDep(d) => BlockReason::MissingDep(d.clone()),
        BlockReason::WaitingOn(d) => BlockReason::WaitingOn(d.clone()),
        BlockReason::Cycle => BlockReason::Cycle,
    }
}

impl GlobalGraph {
    /// Every blocked task, in node order, with its origin and the reason.
    pub fn blocked_detail(&self, states: &Vec<TaskState>) -> (r: Vec<(String, String, BlockReason)>)
        requires
            states@.len() == self.nodes@.len(),
        ensures
            blocked_view(r@) == blocked_spec(self@.nodes, states_view(states@), states@.len() as int),
    {
        let ghost ns = self@.nodes;
        let ghost sv = states_view(states@);
        let mut out: Vec<(String, String, BlockReason)> = Vec::new();
        for i in 0..states.len()
            invariant
                ns == self@.nodes,
                sv == states_view(states@),
                states@.len() == self.nodes@.len(),
                blocked_view(out@) == blocked_spec(ns, sv, i as int),
        {
            let ghost before = out@;
            match &states[i] {
                TaskState::Blocked(reason) => {
                    let node = &self.nodes[i];
                    out.push((node.id.clone(), node.origin.clone(), copy_reason(reason)));
                    assert(blocked_view(out@) =~= blocked_view(before).push(
                        (ns[i as int].id, ns[i as int].origin, sv[i as int]),
                    ));
                },
                _ => {},
            }
        }
        out
    }
}

/// How many open tasks list `id` among their dependencies.
pub fn unblock_impact(graph: &GlobalGraph, id: &str) -> (r: usize)
    ensures
        r == impact_spec(graph@.nodes, id@),
{
    let ghost ns = graph@.nodes;
    let mut count: usize = 0;
    for i in 0..graph.nodes.len()
        invariant
            ns == graph@.nodes,
            count == impact_spec(ns.take(i as int), id@),
            count <= i,
    {
        assert(ns.take(i + 1).drop_last() =~= ns.take(i as int));
        let n = &graph.nodes[i];
        if !n.done && contains_str(&n.depends_on, id) {
            count = count + 1;
        }
    }
    assert(ns.take(ns.len() as int) =~= ns);
    count
}


// ---------------------------------------------------------------------------
// Laws

proof fn lemma_find_absent(ns: Seq<NodeV>, id: Seq<char>, k: int)
    requires
        0 <= k,
        find_from(ns, id, k) == -1,
    ensures
        forall|j: int| k <= j < ns.len() ==> ns[j].id != id,
    decreases ns.len() - k,
{
    if k < ns.len() {
        lemma_find_absent(ns, id, k + 1);
    }
}

proof fn lemma_insert_pos(ns: Seq<NodeV>, id: Seq<char>, k: int)
    requires
        0 <= k <= ns.len(),
        forall|j: int| 0 <= j < k ==> !seq_lt(id, ns[j].id),
    ensures
        0 <= insert_pos_from(ns, id, k) <= ns.len(),
        forall|j: int| 0 <= j < insert_pos_from(ns, id, k) ==> !seq_lt(id, #[trigger] ns[j].id),
        insert_pos_from(ns, id, k) < ns.len() ==> seq_lt(id, ns[insert_pos_from(ns, id, k)].id),
    decreases ns.len() - k,
{
    if k < ns.len() && !seq_lt(id, ns[k].id) {
        lemma_insert_pos(ns, id, k + 1);
    }
}

proof fn lemma_add_task_sorted(g: GraphV, repo: Seq<char>, t: TaskV)
    requires
        sorted_ids(g.nodes),
    ensures
        sorted_ids(add_task(g, repo, t).nodes),
        forall|j: int| 0 <= j < g.nodes.len() ==> find_id(add_task(g, repo, t).nodes, #[trigger] g.nodes[j].id) >= 0,
        find_id(add_task(g, repo, t).nodes, t.id) >= 0,
        add_task(g, repo, t).nodes.len() + add_task(g, repo, t).warnings.len() == g.nodes.len()
            + g.warnings.len() + 1,
{
    let ns = g.nodes;
    let i = find_id(ns, t.id);
    lemma_find_from_range(ns, t.id, 0);
    let r = add_task(g, repo, t).nodes;
    if i >= 0 {
        assert forall|a: int, b: int| 0 <= a < b < r.len() implies seq_lt(r[a].id, r[b].id) by {
            assert(r[a].id == ns[a].id);
            assert(r[b].id == ns[b].id);
        }
        assert forall|j: int| 0 <= j < ns.len() implies find_id(r, #[trigger] ns[j].id) >= 0 by {
            lemma_find_present(r, ns[j].id, j);
        }
        lemma_find_present(r, t.id, i);
    } else {
        lemma_find_absent(ns, t.id, 0);
        lemma_insert_pos(ns, t.id, 0);
        let p = insert_pos_from(ns, t.id, 0);
        let nn = new_node(t, repo);
        assert(r == ns.insert(p, nn));
        assert forall|j: int| 0 <= j < p implies seq_lt(#[trigger] ns[j].id, t.id) by {
            lemma_seq_lt_total(ns[j].id, t.id);
        }
        assert forall|a: int, b: int| 0 <= a < b < r.len() implies seq_lt(r[a].id, r[b].id) by {
            if b < p {
            } else if b == p {
                assert(r[a] == ns[a]);
            } else if a < p {
                assert(r[b] == ns[b - 1]);
                assert(r[a] == ns[a]);
                if b - 1 > a {
                } else {
                }
            } else if a == p {
                assert(r[b] == ns[b - 1]);
                if b - 1 > p {
                    lemma_seq_lt_transitive(t.id, ns[p].id, ns[b - 1].id);
                }
            } else {
                assert(r[a] == ns[a - 1]);
                assert(r[b] == ns[b - 1]);
            }
        }
        assert forall|j: int| 0 <= j < ns.len() implies find_id(r, #[trigger] ns[j].id) >= 0 by {
            if j < p {
                assert(r[j] == ns[j]);
                lemma_find_present(r, ns[j].id, j);
            } else {
                assert(r[j + 1] == ns[j]);
                lemma_find_present(r, ns[j].id, j + 1);
            }
        }
        assert(r[p] == nn);
        lemma_find_present(r, t.id, p);
    }
}

proof fn lemma_find_present(ns: Seq<NodeV>, id: Seq<char>, j: int)
    requires
        0 <= j < ns.len(),
        ns[j].id == id,
    ensures
        find_id(ns, id) >= 0,
{
    lemma_find_present_from(ns, id, 0, j);
}

proof fn lemma_find_present_from(ns: Seq<NodeV>, id: Seq<char>, k: int, j: int)
    requires
        0 <= k <= j < ns.len(),
        ns[j].id == id,
    ensures
        find_from(ns, id, k) >= 0,
    decreases j - k,
{
    if ns[k].id != id {
        lemma_find_present_from(ns, id, k + 1, j);
    }
}

/// What adding tasks keeps: ascending ids, every id already present, and
/// one node or one warning more per task.
proof fn lemma_add_tasks(g: GraphV, repo: Seq<char>, ts: Seq<TaskV>)
    requires
        sorted_ids(g.nodes),
    ensures
        sorted_ids(add_tasks(g, repo, ts).nodes),
        forall|j: int| 0 <= j < g.nodes.len() ==> find_id(add_tasks(g, repo, ts).nodes, #[trigger] g.nodes[j].id) >= 0,
        forall|k: int| 0 <= k < ts.len() ==> find_id(add_tasks(g, repo, ts).nodes, #[trigger] ts[k].id) >= 0,
        add_tasks(g, repo, ts).nodes.len() + add_tasks(g, repo, ts).warnings.len() == g.nodes.len()
            + g.warnings.len() + ts.len(),
    decreases ts.len(),
{
    if ts.len() == 0 {
        assert forall|j: int| 0 <= j < g.nodes.len() implies find_id(g.nodes, #[trigger] g.nodes[j].id) >= 0 by {
            lemma_find_present(g.nodes, g.nodes[j].id, j);
        }
    } else {
        let h = add_tasks(g, repo, ts.drop_last());
        lemma_add_tasks(g, repo, ts.drop_last());
        lemma_add_task_sorted(h, repo, ts.last());
        let r = add_task(h, repo, ts.last()).nodes;
        assert forall|j: int| 0 <= j < g.nodes.len() implies find_id(r, #[trigger] g.nodes[j].id) >= 0 by {
            let a = find_id(h.nodes, g.nodes[j].id);
            lemma_find_from_range(h.nodes, g.nodes[j].id, 0);
            assert(find_id(r, h.nodes[a].id) >= 0);
        }
        assert forall|k: int| 0 <= k < ts.len() implies find_id(r, #[trigger] ts[k].id) >= 0 by {
            if k < ts.len() - 1 {
                assert(ts[k] == ts.drop_last()[k]);
                let a = find_id(h.nodes, ts[k].id);
                lemma_find_from_range(h.nodes, ts[k].id, 0);
                assert(find_id(r, h.nodes[a].id) >= 0);
            }
        }
        lemma_find_from_range(h.nodes, ts.last().id, 0);
    }
}

pub open spec fn total_tasks(rs: Seq<RepoV>) -> nat
    decreases rs.len(),
{
    if rs.len() == 0 {
        0
    } else {
        total_tasks(rs.drop_last()) + rs.last().tasks.len()
    }
}

/// Whether some repository of `rs` declares a task with id `id`.
pub open spec fn declares(rs: Seq<RepoV>, id: Seq<char>) -> bool {
    exists|a: int, k: int| 0 <= a < rs.len() && 0 <= k < rs[a].tasks.len() && #[trigger] rs[a].tasks[k].id == id
}

proof fn lemma_add_repos(g: GraphV, rs: Seq<RepoV>)
    requires
        sorted_ids(g.nodes),
    ensures
        sorted_ids(add_repos(g, rs).nodes),
        forall|j: int| 0 <= j < g.nodes.len() ==> find_id(add_repos(g, rs).nodes, #[trigger] g.nodes[j].id) >= 0,
        forall|a: int, k: int| 0 <= a < rs.len() && 0 <= k < rs[a].tasks.len() ==> find_id(
            add_repos(g, rs).nodes,
            #[trigger] rs[a].tasks[k].id,
        ) >= 0,
        add_repos(g, rs).nodes.len() + add_repos(g, rs).warnings.len() == g.nodes.len()
            + g.warnings.len() + total_tasks(rs),
    decreases rs.len(),
{
    if rs.len() == 0 {
        assert forall|j: int| 0 <= j < g.nodes.len() implies find_id(g.nodes, #[trigger] g.nodes[j].id) >= 0 by {
            lemma_find_present(g.nodes, g.nodes[j].id, j);
        }
    } else {
        let h = add_repos(g, rs.drop_last());
        lemma_add_repos(g, rs.drop_last());
        let last = rs.last();
        lemma_add_tasks(h, last.repo, last.tasks);
        let r = add_tasks(h, last.repo, last.tasks).nodes;
        assert forall|j: int| 0 <= j < g.nodes.len() implies find_id(r, #[trigger] g.nodes[j].id) >= 0 by {
            let a = find_id(h.nodes, g.nodes[j].id);
            lemma_find_from_range(h.nodes, g.nodes[j].id, 0);
            assert(find_id(r, h.nodes[a].id) >= 0);
        }
        assert forall|a: int, k: int| 0 <= a < rs.len() && 0 <= k < rs[a].tasks.len() implies find_id(
            r,
            #[trigger] rs[a].tasks[k].id,
        ) >= 0 by {
            if a < rs.len() - 1 {
                assert(rs[a] == rs.drop_last()[a]);
                let b = find_id(h.nodes, rs[a].tasks[k].id);
                lemma_find_from_range(h.nodes, rs[a].tasks[k].id, 0);
                assert(find_id(r, h.nodes[b].id) >= 0);
            }
        }
    }
}

proof fn lemma_total_insert(s: Seq<RepoV>, p: int, x: RepoV)
    requires
        0 <= p <= s.len(),
    ensures
        total_tasks(s.insert(p, x)) == total_tasks(s) + x.tasks.len(),
    decreases s.len(),
{
    if p == s.len() {
        assert(s.insert(p, x).drop_last() =~= s);
    } else {
        assert(s.insert(p, x).drop_last() =~= s.drop_last().insert(p, x));
        lemma_total_insert(s.drop_last(), p, x);
    }
}

proof fn lemma_repo_pos(s: Seq<RepoV>, name: Seq<char>, k: int)
    requires
        0 <= k <= s.len(),
    ensures
        0 <= repo_pos_from(s, name, k) <= s.len(),
    decreases s.len() - k,
{
    if k < s.len() && !seq_lt(name, s[k].repo) {
        lemma_repo_pos(s, name, k + 1);
    }
}

/// Sorting keeps every repository and the number of tasks.
proof fn lemma_sort_repos(rs: Seq<RepoV>)
    ensures
        sort_repos(rs).len() == rs.len(),
        total_tasks(sort_repos(rs)) == total_tasks(rs),
        forall|a: int| 0 <= a < rs.len() ==> exists|b: int| 0 <= b < rs.len() && #[trigger] sort_repos(rs)[b] == #[trigger] rs[a],
    decreases rs.len(),
{
    if rs.len() > 0 {
        let s = sort_repos(rs.drop_last());
        lemma_sort_repos(rs.drop_last());
        let p = repo_pos_from(s, rs.last().repo, 0);
        lemma_repo_pos(s, rs.last().repo, 0);
        lemma_total_insert(s, p, rs.last());
        let t = s.insert(p, rs.last());
        assert forall|a: int| 0 <= a < rs.len() implies exists|b: int| 0 <= b < rs.len() && #[trigger] t[b] == #[trigger] rs[a] by {
            if a == rs.len() - 1 {
                assert(t[p] == rs[a]);
            } else {
                assert(rs[a] == rs.drop_last()[a]);
                let b = choose|b: int| 0 <= b < s.len() && #[trigger] s[b] == rs.drop_last()[a];
                if b < p {
                    assert(t[b] == s[b]);
                } else {
                    assert(t[b + 1] == s[b]);
                }
            }
        }
    }
}

/// The global graph lists its tasks in strictly ascending order of id, so
/// no id has two nodes.
pub proof fn law_graph_ids_ascending(rs: Seq<RepoV>)
    ensures
        sorted_ids(build_spec(rs).nodes),
{
    lemma_add_repos(empty_graph(), sort_repos(rs));
}

/// No task is dropped in aggregation: every declared id has a node, and
/// every declaration beyond the first of its id leaves a warning, so the
/// nodes and the warnings together number the declared tasks.
pub proof fn law_no_task_dropped(rs: Seq<RepoV>)
    ensures
        forall|id: Seq<char>| declares(rs, id) ==> find_id(build_spec(rs).nodes, id) >= 0,
        build_spec(rs).nodes.len() + build_spec(rs).warnings.len() == total_tasks(rs),
{
    let s = sort_repos(rs);
    lemma_sort_repos(rs);
    lemma_add_repos(empty_graph(), s);
    assert forall|id: Seq<char>| declares(rs, id) implies find_id(build_spec(rs).nodes, id) >= 0 by {
        let (a, k) = choose|a: int, k: int| 0 <= a < rs.len() && 0 <= k < rs[a].tasks.len() && #[trigger] rs[a].tasks[k].id == id;
        let b = choose|b: int| 0 <= b < rs.len() && #[trigger] s[b] == rs[a];
        assert(s[b].tasks[k].id == id);
    }
}

proof fn lemma_first_block_ready(ns: Seq<NodeV>, deps: Seq<Seq<char>>, k: int)
    requires
        0 <= k,
        first_block(ns, deps, k) == Phase::Ready,
    ensures
        forall|j: int| k <= j < deps.len() ==> find_id(ns, #[trigger] deps[j]) >= 0 && ns[find_id(ns, deps[j])].done,
    decreases deps.len() - k,
{
    if k < deps.len() {
        lemma_first_block_ready(ns, deps, k + 1);
    }
}

proof fn lemma_first_block_blocked(ns: Seq<NodeV>, deps: Seq<Seq<char>>, k: int)
    requires
        0 <= k,
    ensures
        !(first_block(ns, deps, k) is Done),
        first_block(ns, deps, k) matches Phase::Missing(d) ==> find_id(ns, d) == -1 && deps.contains(d),
        first_block(ns, deps, k) matches Phase::Waiting(d) ==> find_id(ns, d) >= 0 && !ns[find_id(ns, d)].done && deps.contains(d),
    decreases deps.len() - k,
{
    if k < deps.len() {
        lemma_find_from_range(ns, deps[k], 0);
        lemma_first_block_blocked(ns, deps, k + 1);
    }
}

/// Readiness labels are honest: a ready task's dependencies all exist and
/// are done; a missing dependency is defined nowhere; a task waited on
/// exists and is open.
pub proof fn law_labels_are_honest(ns: Seq<NodeV>, i: int)
    requires
        0 <= i < ns.len(),
    ensures
        state_spec(ns, i) == StateV::Done <==> ns[i].done,
        state_spec(ns, i) == StateV::Ready ==> forall|j: int| 0 <= j < ns[i].depends_on.len() ==> find_id(ns, #[trigger] ns[i].depends_on[j]) >= 0 && ns[find_id(ns, ns[i].depends_on[j])].done,
        state_spec(ns, i) matches StateV::MissingDep(d) ==> find_id(ns, d) == -1 && ns[i].depends_on.contains(d),
        state_spec(ns, i) matches StateV::WaitingOn(d) ==> find_id(ns, d) >= 0 && !ns[find_id(ns, d)].done,
{
    if !ns[i].done {
        lemma_first_block_blocked(ns, ns[i].depends_on, 0);
        if first_block(ns, ns[i].depends_on, 0) == Phase::Ready {
            lemma_first_block_ready(ns, ns[i].depends_on, 0);
        }
    }
}

/// Every task is counted exactly once: the done, ready and blocked
/// counts add up to the number of states.
pub proof fn law_counts_partition(states: Seq<StateV>)
    ensures
        tally(states).0 + tally(states).1 + tally(states).2 == states.len(),
    decreases states.len(),
{
    if states.len() > 0 {
        law_counts_partition(states.drop_last());
    }
}

/// A dependency that no longer holds a task back: some node defines it
/// and that node is done.
pub open spec fn cleared(ns: Seq<NodeV>, dep: Seq<char>) -> bool {
    find_id(ns, dep) >= 0 && ns[find_id(ns, dep)].done
}

proof fn lemma_first_block_is_first(ns: Seq<NodeV>, deps: Seq<Seq<char>>, k: int)
    requires
        0 <= k,
    ensures
        (forall|j: int| k <= j < deps.len() ==> cleared(ns, #[trigger] deps[j])) ==> first_block(
            ns,
            deps,
            k,
        ) == Phase::Ready,
        (first_block(ns, deps, k) is Missing || first_block(ns, deps, k) is Waiting) ==> exists|m: int|
            k <= m < deps.len() && (first_block(ns, deps, k) == Phase::Missing(#[trigger] deps[m])
                || first_block(ns, deps, k) == Phase::Waiting(deps[m])) && forall|j: int|
                k <= j < m ==> cleared(ns, #[trigger] deps[j]),
    decreases deps.len() - k,
{
    if k < deps.len() {
        lemma_first_block_is_first(ns, deps, k + 1);
        let i = find_id(ns, deps[k]);
        if i >= 0 && ns[i].done {
            if first_block(ns, deps, k) is Missing || first_block(ns, deps, k) is Waiting {
                let m = choose|m: int|
                    k + 1 <= m < deps.len() && (first_block(ns, deps, k + 1) == Phase::Missing(
                        #[trigger] deps[m],
                    ) || first_block(ns, deps, k + 1) == Phase::Waiting(deps[m])) && forall|j: int|
                        k + 1 <= j < m ==> cleared(ns, #[trigger] deps[j]);
                assert(cleared(ns, deps[k]));
                assert(forall|j: int| k <= j < m ==> cleared(ns, #[trigger] deps[j]));
            }
        } else {
            if forall|j: int| k <= j < deps.len() ==> cleared(ns, #[trigger] deps[j]) {
                assert(cleared(ns, deps[k]));
            }
        }
    }
}

/// The dependency a blocked task is labelled with is its first one (in
/// declaration order) that is missing or open: every dependency before it
/// is defined and done. An open task whose dependencies are all defined and
/// done is ready.
pub proof fn law_first_blocking_dependency(ns: Seq<NodeV>, i: int)
    requires
        0 <= i < ns.len(),
    ensures
        !ns[i].done && (forall|j: int|
            0 <= j < ns[i].depends_on.len() ==> cleared(ns, #[trigger] ns[i].depends_on[j]))
            ==> state_spec(ns, i) == StateV::Ready,
        state_spec(ns, i) matches StateV::MissingDep(d) ==> exists|m: int|
            0 <= m < ns[i].depends_on.len() && #[trigger] ns[i].depends_on[m] == d && forall|j: int|
                0 <= j < m ==> cleared(ns, #[trigger] ns[i].depends_on[j]),
        state_spec(ns, i) matches StateV::WaitingOn(d) ==> exists|m: int|
            0 <= m < ns[i].depends_on.len() && #[trigger] ns[i].depends_on[m] == d && forall|j: int|
                0 <= j < m ==> cleared(ns, #[trigger] ns[i].depends_on[j]),
{
    lemma_first_block_is_first(ns, ns[i].depends_on, 0);
}

// ---------------------------------------------------------------------------
// Laws on waiting, origins and impact

proof fn lemma_first_block_at(ns: Seq<NodeV>, deps: Seq<Seq<char>>, k: int, m: int)
    requires
        0 <= k <= m < deps.len(),
        forall|j: int| k <= j < m ==> cleared(ns, #[trigger] deps[j]),
    ensures
        first_block(ns, deps, k) == first_block(ns, deps, m),
    decreases m - k,
{
    if k < m {
        assert(cleared(ns, deps[k]));
        lemma_first_block_at(ns, deps, k + 1, m);
    }
}

/// A task kept from starting by an open task waits on it, and is reported
/// as caught in a dependency cycle exactly when that task is: a task whose
/// first blocking dependency is an open task that is ready, blocked by a
/// missing dependency, or itself waiting on a chain that ends, is waiting on
/// that dependency, never in a cycle.
pub proof fn law_waiting_follows_the_blocker(ns: Seq<NodeV>, i: int, m: int)
    requires
        0 <= i < ns.len(),
        !ns[i].done,
        0 <= m < ns[i].depends_on.len(),
        forall|j: int| 0 <= j < m ==> cleared(ns, #[trigger] ns[i].depends_on[j]),
        find_id(ns, ns[i].depends_on[m]) >= 0,
        !ns[find_id(ns, ns[i].depends_on[m])].done,
    ensures
        state_spec(ns, i) == (if state_spec(ns, find_id(ns, ns[i].depends_on[m])) == StateV::Cycle {
            StateV::Cycle
        } else {
            StateV::WaitingOn(ns[i].depends_on[m])
        }),
{
    let deps = ns[i].depends_on;
    let d = deps[m];
    let j = find_id(ns, d);
    lemma_find_from_range(ns, d, 0);
    lemma_first_block_at(ns, deps, 0, m);
    assert(first_block(ns, deps, m) == Phase::Waiting(d));
    assert(phase(ns, i) == Phase::Waiting(d));
    assert forall|f: nat| #[trigger] settles(ns, i, f + 1) == settles(ns, j, f) by {}
    assert(!settles(ns, i, 0));
    lemma_first_block_blocked(ns, ns[j].depends_on, 0);
    assert(phase(ns, j) == first_block(ns, ns[j].depends_on, 0));
    if exists|f: nat| settles(ns, j, f) {
        let f = choose|f: nat| settles(ns, j, f);
        assert(settles(ns, i, f + 1));
    }
    if exists|f: nat| settles(ns, i, f) {
        let f = choose|f: nat| settles(ns, i, f);
        assert(f > 0);
        assert(settles(ns, i, ((f - 1) as nat) + 1));
        assert(settles(ns, j, (f - 1) as nat));
    }
    match phase(ns, j) {
        Phase::Waiting(_) => {},
        _ => {
            assert(settles(ns, j, 0));
        },
    }
}

/// The origin a task brings: the one it declares, else the repository it
/// was found in.
pub open spec fn origin_of(t: TaskV, repo: Seq<char>) -> Seq<char> {
    match t.origin {
        Some(o) => o,
        None => repo,
    }
}

/// Among the repositories `u`, a declaration of the node's id brings the
/// node's origin, and no repository before it declares that id.
pub open spec fn first_origin(u: Seq<RepoV>, n: NodeV) -> bool {
    exists|b: int, k: int|
        0 <= b < u.len() && 0 <= k < u[b].tasks.len() && #[trigger] u[b].tasks[k].id == n.id
            && n.origin == origin_of(u[b].tasks[k], u[b].repo) && forall|b2: int, k2: int|
            0 <= b2 < b && 0 <= k2 < u[b2].tasks.len() ==> #[trigger] u[b2].tasks[k2].id != n.id
}

pub open spec fn first_origins(u: Seq<RepoV>, ns: Seq<NodeV>) -> bool {
    forall|x: int| 0 <= x < ns.len() ==> first_origin(u, #[trigger] ns[x])
}

/// Every id declared in `u[..a]` has a node.
pub open spec fn found_before(u: Seq<RepoV>, a: int, ns: Seq<NodeV>) -> bool {
    forall|b2: int, k2: int|
        0 <= b2 < a && 0 <= k2 < u[b2].tasks.len() ==> find_id(ns, #[trigger] u[b2].tasks[k2].id) >= 0
}

proof fn lemma_add_task_origin(g: GraphV, u: Seq<RepoV>, a: int, k: int)
    requires
        first_origins(u, g.nodes),
        found_before(u, a, g.nodes),
        0 <= a < u.len(),
        0 <= k < u[a].tasks.len(),
    ensures
        first_origins(u, add_task(g, u[a].repo, u[a].tasks[k]).nodes),
{
    let t = u[a].tasks[k];
    let repo = u[a].repo;
    let i = find_id(g.nodes, t.id);
    let r = add_task(g, repo, t).nodes;
    lemma_find_from_range(g.nodes, t.id, 0);
    if i >= 0 {
        assert forall|x: int| 0 <= x < r.len() implies first_origin(u, #[trigger] r[x]) by {
            assert(first_origin(u, g.nodes[x]));
            assert(r[x].id == g.nodes[x].id && r[x].origin == g.nodes[x].origin);
            let (b, k3) = choose|b: int, k3: int|
                0 <= b < u.len() && 0 <= k3 < u[b].tasks.len() && #[trigger] u[b].tasks[k3].id
                    == g.nodes[x].id && g.nodes[x].origin == origin_of(u[b].tasks[k3], u[b].repo)
                    && forall|b2: int, k2: int|
                    0 <= b2 < b && 0 <= k2 < u[b2].tasks.len() ==> #[trigger] u[b2].tasks[k2].id
                        != g.nodes[x].id;
            assert(u[b].tasks[k3].id == r[x].id);
        }
    } else {
        assert forall|b2: int, k2: int| 0 <= b2 < a && 0 <= k2 < u[b2].tasks.len() implies #[trigger] u[b2].tasks[k2].id != t.id by {
            assert(find_id(g.nodes, u[b2].tasks[k2].id) >= 0);
        }
        let pos = insert_pos_from(g.nodes, t.id, 0);
        lemma_insert_pos(g.nodes, t.id, 0);
        assert forall|x: int| 0 <= x < r.len() implies first_origin(u, #[trigger] r[x]) by {
            if x < pos {
                assert(r[x] == g.nodes[x]);
                assert(first_origin(u, g.nodes[x]));
            } else if x == pos {
                assert(r[x] == new_node(t, repo));
                assert(u[a].tasks[k].id == r[x].id);
            } else {
                assert(r[x] == g.nodes[x - 1]);
                assert(first_origin(u, g.nodes[x - 1]));
            }
        }
    }
}

proof fn lemma_add_tasks_origin(g: GraphV, u: Seq<RepoV>, a: int, n: int)
    requires
        sorted_ids(g.nodes),
        first_origins(u, g.nodes),
        found_before(u, a, g.nodes),
        0 <= a < u.len(),
        0 <= n <= u[a].tasks.len(),
    ensures
        first_origins(u, add_tasks(g, u[a].repo, u[a].tasks.take(n)).nodes),
    decreases n,
{
    if n > 0 {
        let ts = u[a].tasks.take(n);
        let pre = u[a].tasks.take(n - 1);
        assert(ts.drop_last() =~= pre);
        assert(ts.last() == u[a].tasks[n - 1]);
        lemma_add_tasks_origin(g, u, a, n - 1);
        let h = add_tasks(g, u[a].repo, pre);
        lemma_add_tasks(g, u[a].repo, pre);
        assert forall|b2: int, k2: int| 0 <= b2 < a && 0 <= k2 < u[b2].tasks.len() implies find_id(
            h.nodes,
            #[trigger] u[b2].tasks[k2].id,
        ) >= 0 by {
            let y = u[b2].tasks[k2].id;
            lemma_find_from_range(g.nodes, y, 0);
            let j = find_id(g.nodes, y);
            assert(find_id(h.nodes, g.nodes[j].id) >= 0);
        }
        lemma_add_task_origin(h, u, a, n - 1);
    } else {
        assert(u[a].tasks.take(0) =~= Seq::<TaskV>::empty());
    }
}

proof fn lemma_add_repos_origin(u: Seq<RepoV>, m: int)
    requires
        0 <= m <= u.len(),
    ensures
        first_origins(u, add_repos(empty_graph(), u.take(m)).nodes),
    decreases m,
{
    if m > 0 {
        let rs = u.take(m);
        let pre = u.take(m - 1);
        assert(rs.drop_last() =~= pre);
        assert(rs.last() == u[m - 1]);
        lemma_add_repos_origin(u, m - 1);
        let h = add_repos(empty_graph(), pre);
        lemma_add_repos(empty_graph(), pre);
        assert forall|b2: int, k2: int| 0 <= b2 < m - 1 && 0 <= k2 < u[b2].tasks.len() implies find_id(
            h.nodes,
            #[trigger] u[b2].tasks[k2].id,
        ) >= 0 by {
            assert(pre[b2] == u[b2]);
            assert(find_id(h.nodes, pre[b2].tasks[k2].id) >= 0);
        }
        lemma_add_tasks_origin(h, u, m - 1, u[m - 1].tasks.len() as int);
        assert(u[m - 1].tasks.take(u[m - 1].tasks.len() as int) =~= u[m - 1].tasks);
    } else {
        assert(u.take(0) =~= Seq::<RepoV>::empty());
    }
}

/// Every repository of the sorted list is one of the input.
proof fn lemma_sort_repos_from(rs: Seq<RepoV>)
    ensures
        sort_repos(rs).len() == rs.len(),
        forall|b: int| 0 <= b < rs.len() ==> exists|a: int| 0 <= a < rs.len() && #[trigger] sort_repos(rs)[b] == rs[a],
    decreases rs.len(),
{
    if rs.len() > 0 {
        let d = rs.drop_last();
        let s = sort_repos(d);
        lemma_sort_repos_from(d);
        let p = repo_pos_from(s, rs.last().repo, 0);
        lemma_repo_pos(s, rs.last().repo, 0);
        let t = s.insert(p, rs.last());
        assert forall|b: int| 0 <= b < rs.len() implies exists|a: int| 0 <= a < rs.len() && #[trigger] t[b] == rs[a] by {
            if b == p {
                assert(t[b] == rs[rs.len() - 1]);
            } else {
                let b2 = if b < p { b } else { b - 1 };
                assert(t[b] == s[b2]);
                let a = choose|a: int| 0 <= a < d.len() && #[trigger] s[b2] == d[a];
                assert(d[a] == rs[a]);
            }
        }
    }
}

proof fn lemma_repo_pos_props(s: Seq<RepoV>, name: Seq<char>, k: int)
    requires
        0 <= k <= s.len(),
        forall|j: int| 0 <= j < k ==> !seq_lt(name, #[trigger] s[j].repo),
    ensures
        0 <= repo_pos_from(s, name, k) <= s.len(),
        forall|j: int| 0 <= j < repo_pos_from(s, name, k) ==> !seq_lt(name, #[trigger] s[j].repo),
        repo_pos_from(s, name, k) < s.len() ==> seq_lt(name, s[repo_pos_from(s, name, k)].repo),
    decreases s.len() - k,
{
    if k < s.len() && !seq_lt(name, s[k].repo) {
        lemma_repo_pos_props(s, name, k + 1);
    }
}

pub open spec fn names_ascending(s: Seq<RepoV>) -> bool {
    forall|i: int, j: int| 0 <= i <= j < s.len() ==> !seq_lt(#[trigger] s[j].repo, #[trigger] s[i].repo)
}

/// The sorted repositories are in order of name.
proof fn lemma_sort_repos_sorted(rs: Seq<RepoV>)
    ensures
        names_ascending(sort_repos(rs)),
    decreases rs.len(),
{
    if rs.len() > 0 {
        let d = rs.drop_last();
        let s = sort_repos(d);
        lemma_sort_repos_sorted(d);
        let x = rs.last();
        let p = repo_pos_from(s, x.repo, 0);
        lemma_repo_pos_props(s, x.repo, 0);
        let t = s.insert(p, x);
        assert forall|i: int, j: int| 0 <= i <= j < t.len() implies !seq_lt(#[trigger] t[j].repo, #[trigger] t[i].repo) by {
            if i == j {
                lemma_seq_lt_irreflexive(t[i].repo);
            } else if j < p {
                assert(t[i] == s[i] && t[j] == s[j]);
            } else if j == p {
                assert(t[i] == s[i]);
            } else if i > p {
                assert(t[i] == s[i - 1] && t[j] == s[j - 1]);
            } else if i == p {
                assert(t[j] == s[j - 1]);
                assert(seq_lt(x.repo, s[p].repo));
                if seq_lt(s[j - 1].repo, x.repo) {
                    lemma_seq_lt_transitive(s[j - 1].repo, x.repo, s[p].repo);
                    if j - 1 == p {
                        lemma_seq_lt_irreflexive(s[p].repo);
                    }
                }
            } else {
                assert(t[i] == s[i] && t[j] == s[j - 1]);
            }
        }
    }
}

/// The origin a node keeps: the declaration of its id that brings the
/// node's origin is in a repository whose name no other repository
/// declaring that id precedes.
pub open spec fn kept_origin(rs: Seq<RepoV>, n: NodeV) -> bool {
    exists|a: int, k: int|
        0 <= a < rs.len() && 0 <= k < rs[a].tasks.len() && #[trigger] rs[a].tasks[k].id == n.id
            && n.origin == origin_of(rs[a].tasks[k], rs[a].repo) && forall|a2: int, k2: int|
            0 <= a2 < rs.len() && 0 <= k2 < rs[a2].tasks.len() && #[trigger] rs[a2].tasks[k2].id
                == n.id ==> !seq_lt(rs[a2].repo, rs[a].repo)
}

proof fn lemma_sorted_source(rs: Seq<RepoV>, b: int) -> (a: int)
    requires
        0 <= b < sort_repos(rs).len(),
    ensures
        0 <= a < rs.len(),
        sort_repos(rs)[b] == rs[a],
{
    lemma_sort_repos_from(rs);
    choose|a: int| 0 <= a < rs.len() && #[trigger] sort_repos(rs)[b] == rs[a]
}

proof fn lemma_sorted_place(rs: Seq<RepoV>, a: int) -> (b: int)
    requires
        0 <= a < rs.len(),
    ensures
        0 <= b < sort_repos(rs).len(),
        sort_repos(rs)[b] == rs[a],
{
    lemma_sort_repos(rs);
    choose|b: int| 0 <= b < rs.len() && #[trigger] sort_repos(rs)[b] == #[trigger] rs[a]
}

proof fn lemma_sorted_names(rs: Seq<RepoV>, i: int, j: int)
    requires
        0 <= i <= j < sort_repos(rs).len(),
    ensures
        !seq_lt(sort_repos(rs)[j].repo, sort_repos(rs)[i].repo),
{
    lemma_sort_repos_sorted(rs);
    assert(!seq_lt(sort_repos(rs)[j].repo, sort_repos(rs)[i].repo));
}

proof fn lemma_kept_from_first(rs: Seq<RepoV>, n: NodeV)
    requires
        first_origin(sort_repos(rs), n),
    ensures
        kept_origin(rs, n),
{
    let u = sort_repos(rs);
    let (b, k) = choose|b: int, k: int|
        0 <= b < u.len() && 0 <= k < u[b].tasks.len() && #[trigger] u[b].tasks[k].id == n.id
            && n.origin == origin_of(u[b].tasks[k], u[b].repo) && forall|b2: int, k2: int|
            0 <= b2 < b && 0 <= k2 < u[b2].tasks.len() ==> #[trigger] u[b2].tasks[k2].id != n.id;
    let a = lemma_sorted_source(rs, b);
    assert(rs[a].tasks[k].id == n.id);
    assert forall|a2: int, k2: int|
        0 <= a2 < rs.len() && 0 <= k2 < rs[a2].tasks.len() && #[trigger] rs[a2].tasks[k2].id == n.id
        implies !seq_lt(rs[a2].repo, rs[a].repo) by {
        let b2 = lemma_sorted_place(rs, a2);
        assert(u[b2].tasks[k2].id == n.id);
        assert(b <= b2);
        lemma_sorted_names(rs, b, b2);
    }
}

/// Each node of the global graph carries the origin of the declaration of
/// its id that it keeps, the one from the repository first by name: the
/// origin that declaration states, or, when it states none, the name of
/// that repository.
pub proof fn law_origin_is_declared(rs: Seq<RepoV>)
    ensures
        forall|x: int| 0 <= x < build_spec(rs).nodes.len() ==> kept_origin(rs, #[trigger] build_spec(rs).nodes[x]),
{
    let u = sort_repos(rs);
    lemma_sort_repos(rs);
    lemma_add_repos_origin(u, u.len() as int);
    assert(u.take(u.len() as int) =~= u);
    let ns = build_spec(rs).nodes;
    assert(first_origins(u, ns));
    assert forall|x: int| 0 <= x < ns.len() implies kept_origin(rs, #[trigger] ns[x]) by {
        assert(first_origin(u, ns[x]));
        lemma_kept_from_first(rs, ns[x]);
    }
}

/// A task marked done no longer counts toward the unblock impact of its
/// dependencies: marking task `k` done lowers the impact of `id` by one
/// when `k` was open and depends on `id`, and leaves it as it was
/// otherwise.
pub proof fn law_impact_counts_open_tasks(ns: Seq<NodeV>, k: int, id: Seq<char>)
    requires
        0 <= k < ns.len(),
    ensures
        impact_spec(ns.update(k, NodeV { done: true, ..ns[k] }), id) + (if !ns[k].done
            && ns[k].depends_on.contains(id) {
            1int
        } else {
            0int
        }) == impact_spec(ns, id),
    decreases ns.len(),
{
    let v = ns.update(k, NodeV { done: true, ..ns[k] });
    if k == ns.len() - 1 {
        assert(v.drop_last() =~= ns.drop_last());
    } else {
        assert(v.drop_last() =~= ns.drop_last().update(k, NodeV { done: true, ..ns[k] }));
        assert(ns.drop_last()[k] == ns[k]);
        law_impact_counts_open_tasks(ns.drop_last(), k, id);
    }
}

/// When every task is done, no id has any unblock impact.
pub proof fn law_no_impact_when_all_done(ns: Seq<NodeV>, id: Seq<char>)
    requires
        forall|x: int| 0 <= x < ns.len() ==> #[trigger] ns[x].done,
    ensures
        impact_spec(ns, id) == 0,
    decreases ns.len(),
{
    if ns.len() > 0 {
        assert(ns.last().done);
        law_no_impact_when_all_done(ns.drop_last(), id);
    }
}

} // verus!
