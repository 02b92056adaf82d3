//! Routing: which ready tasks an agent may take, and how many open tasks
//! each of them would unblock. The score `priority × (1 + unblock_impact)`
//! and the ranking by it are fractional and left to the caller.

use vstd::prelude::*;
use crate::scheduler::graph::{
    contains_str, impact_spec, matches_spec, state_view, states_view, unblock_impact, GlobalGraph,
    NodeV, StateV, TaskNode, TaskState,
};
use crate::scheduler::tasks_file::{opt_view, strs_view};
use crate::text::{copy_opt_string, copy_strings, str_eq};

verus! {

/// A ready task an agent may take.
#[derive(Debug)]
pub struct RouteCandidate {
    pub id: String,
    pub origin: String,
    /// The text of the declared priority, if any.
    pub priority: Option<String>,
    /// How many open tasks list this one among their dependencies.
    pub unblock_impact: usize,
    pub capabilities: Vec<String>,
    pub depends_on: Vec<String>,
}

#[verifier::ext_equal]
pub struct CandV {
    pub id: Seq<char>,
    pub origin: Seq<char>,
    pub priority: Option<Seq<char>>,
    pub unblock_impact: nat,
    pub capabilities: Seq<Seq<char>>,
    pub depends_on: Seq<Seq<char>>,
}

impl View for RouteCandidate {
    type V = CandV;

    open spec fn view(&self) -> CandV {
        CandV {
            id: self.id@,
            origin: self.origin@,
            priority: opt_view(self.priority),
            unblock_impact: self.unblock_impact as nat,
            capabilities: strs_view(self.capabilities@),
            depends_on: strs_view(self.depends_on@),
        }
    }
}

pub open spec fn cands_view(cs: Seq<RouteCandidate>) -> Seq<CandV> {
    cs.map_values(|c: RouteCandidate| c@)
}

/// The candidate a node makes in the graph `all`.
pub open spec fn candidate_of(all: Seq<NodeV>, n: NodeV) -> CandV {
    CandV {
        id: n.id,
        origin: n.origin,
        priority: n.priority,
        unblock_impact: impact_spec(all, n.id),
        capabilities: n.capabilities,
        depends_on: n.depends_on,
    }
}

/// Whether a task may go to an agent with the given capabilities: it
/// declares none, or shares at least one with the agent.
pub fn matches(agent_caps: &Vec<String>, task: &TaskNode) -> (r: bool)
    ensures
        r == matches_spec(strs_view(agent_caps@), task@.capabilities),
{
    let caps = &task.capabilities;
    if caps.len() == 0 {
        return true;
    }
    let ghost tc = strs_view(caps@);
    let mut i: usize = 0;
    while i < caps.len()
        invariant
            i <= caps@.len(),
            tc == strs_view(caps@),
            tc == task@.capabilities,
            forall|j: int| 0 <= j < i ==> !strs_view(agent_caps@).contains(#[trigger] tc[j]),
        decreases caps@.len() - i,
    {
        if contains_str(agent_caps, caps[i].as_str()) {
            assert(tc.len() == caps@.len());
            assert(tc[i as int] == caps@[i as int]@);
            assert(strs_view(agent_caps@).contains(tc[i as int]));
            assert(matches_spec(strs_view(agent_caps@), tc));
            return true;
        }
        i = i + 1;
    }
    false
}

/// The candidates among the first `k` nodes, in node order: those ready
/// and matching the agent's capabilities.
pub open spec fn routable_spec(
    all: Seq<NodeV>,
    states: Seq<StateV>,
    caps: Seq<Seq<char>>,
    k: int,
) -> Seq<CandV>
    decreases k,
{
    if k <= 0 {
        Seq::empty()
    } else {
        let rest = routable_spec(all, states, caps, k - 1);
        if states[k - 1] == StateV::Ready && matches_spec(caps, all[k - 1].capabilities) {
            rest.push(candidate_of(all, all[k - 1]))
        } else {
            rest
        }
    }
}

/// The ready tasks an agent with capabilities `caps` may take, in order
/// of id; `states` are the graph's states, position for position.
pub fn routable(graph: &GlobalGraph, states: &Vec<TaskState>, caps: &Vec<String>) -> (r: Vec<
    RouteCandidate,
>)
    requires
        states@.len() == graph.nodes@.len(),
    ensures
        cands_view(r@) == routable_spec(
            graph@.nodes,
            states_view(states@),
            strs_view(caps@),
            graph.nodes@.len() as int,
        ),
{
    let ghost ns = graph@.nodes;
    let ghost sv = states_view(states@);
    let mut r: Vec<RouteCandidate> = Vec::new();
    for i in 0..graph.nodes.len()
        invariant
            ns == graph@.nodes,
            sv == states_view(states@),
            states@.len() == graph.nodes@.len(),
            cands_view(r@) == routable_spec(ns, sv, strs_view(caps@), i as int),
    {
        let n = &graph.nodes[i];
        let ready = match &states[i] {
            TaskState::Ready => true,
            _ => false,
        };
        assert(sv[i as int] == state_view(states@[i as int]));
        if ready && self::matches(caps, n) {
            let c = RouteCandidate {
                id: n.id.clone(),
                origin: n.origin.clone(),
                priority: copy_opt_string(&n.priority),
                unblock_impact: unblock_impact(graph, n.id.as_str()),
                capabilities: copy_strings(&n.capabilities),
                depends_on: copy_strings(&n.depends_on),
            };
            assert(c@ =~= candidate_of(ns, ns[i as int]));
            r.push(c);
            assert(cands_view(r@) =~= routable_spec(ns, sv, strs_view(caps@), i + 1));
        } else {
            assert(cands_view(r@) =~= routable_spec(ns, sv, strs_view(caps@), i + 1));
        }
    }
    r
}

/// The candidates among the first `k` whose origin is `origin`, in order.
pub open spec fn of_origin(cs: Seq<CandV>, origin: Seq<char>, k: int) -> Seq<CandV>
    decreases k,
{
    if k <= 0 {
        seq![]
    } else if cs[k - 1].origin == origin {
        of_origin(cs, origin, k - 1).push(cs[k - 1])
    } else {
        of_origin(cs, origin, k - 1)
    }
}

/// The candidates from the repository `origin`, in their order.
pub fn from_origin(candidates: Vec<RouteCandidate>, origin: &str) -> (r: Vec<RouteCandidate>)
    ensures
        cands_view(r@) == of_origin(cands_view(candidates@), origin@, candidates@.len() as int),
{
    let ghost all = cands_view(candidates@);
    let len0 = candidates.len();
    let ghost n = len0 as nat;
    let mut rest = candidates;
    let mut out: Vec<RouteCandidate> = Vec::new();
    let mut i: usize = 0;
    while rest.len() > 0
        invariant
            all.len() == n,
            n == len0,
            i + rest@.len() == n,
            cands_view(rest@) =~= all.skip(i as int),
            cands_view(out@) == of_origin(all, origin@, i as int),
        decreases rest@.len(),
    {
        let ghost before_rest = rest@;
        let ghost before_out = out@;
        let c = rest.remove(0);
        assert(c@ == all[i as int]) by {
            assert(cands_view(before_rest)[0] == all.skip(i as int)[0]);
        }
        assert(cands_view(rest@) =~= all.skip(i + 1)) by {
            assert(rest@ =~= before_rest.subrange(1, before_rest.len() as int));
            assert forall|k: int| 0 <= k < rest@.len() implies #[trigger] cands_view(rest@)[k] == all.skip(
                i + 1,
            )[k] by {
                assert(cands_view(before_rest)[k + 1] == all.skip(i as int)[k + 1]);
            }
        }
        if str_eq(c.origin.as_str(), origin) {
            out.push(c);
            assert(cands_view(out@) =~= cands_view(before_out).push(all[i as int]));
        }
        i = i + 1;
    }
    out
}

} // verus!
