//! The adapter operations: each one a deterministic translation between
//! a swarm/1 response form and plain data an agent can read. Talking to
//! the node is the caller's part.

use vstd::prelude::*;
use crate::scheduler::sexpr::{deeps, field_spec, head_spec, lemma_deeps, text_of, Sexp, SexpV};
use crate::swarm::out::{out_of, sexpr_list_to_out, Out, OutV};
use crate::swarm::wire::{field, field_first};
use crate::text::{
    chars_of, debug_str, debug_text, dec, parse_usize, parse_usize_spec, push_str, str_eq, u64_text,
};

verus! {

/// The text of the first value of a response's `(key ...)` entry.
pub open spec fn get_text(v: SexpV, key: Seq<char>) -> Option<Seq<char>> {
    match field_first(v, key) {
        Some(x) => Some(text_of(x)),
        None => None,
    }
}

pub open spec fn text_or(t: Option<Seq<char>>, default: Seq<char>) -> Seq<char> {
    match t {
        Some(x) => x,
        None => default,
    }
}

/// The canonical text of each of `items`, as strings.
pub open spec fn texts_as_out(items: Seq<SexpV>) -> Seq<OutV> {
    items.map_values(|x: SexpV| OutV::S(text_of(x)))
}

/// The health card of a node from its `(metrics)` and `(status)`
/// responses, and whether the node is healthy: synced and with at least
/// one peer.
pub open spec fn check_spec(m: SexpV, st: SexpV) -> Result<(OutV, bool), Seq<char>> {
    if head_spec(m) != Some("metrics"@) {
        Err("unexpected response to metrics: "@ + text_of(m))
    } else {
        let synced = get_text(st, "synced"@) == Some(seq!['t']);
        let peers = match get_text(m, "peer-count"@) {
            Some(t) => match parse_usize_spec(t) {
                Some(p) => p,
                None => 0,
            },
            None => 0,
        };
        let healthy = synced && peers > 0;
        let presence = match field_spec(st, "presence"@) {
            Some(items) => texts_as_out(items),
            None => Seq::empty(),
        };
        let members: int = match field_spec(st, "members"@) {
            Some(items) => items.len() as int,
            None => 0,
        };
        Ok(
            (
                OutV::M(
                    seq![
                        ("node"@, OutV::S(text_or(get_text(m, "node"@), Seq::empty()))),
                        ("epoch"@, OutV::N(text_or(get_text(m, "epoch"@), seq!['0']))),
                        ("uptime_secs"@, OutV::N(text_or(get_text(m, "uptime-secs"@), seq!['0']))),
                        ("event_count"@, OutV::N(text_or(get_text(m, "event-count"@), seq!['0']))),
                        ("peer_count"@, OutV::N(dec(peers as nat))),
                        ("synced"@, OutV::B(synced)),
                        ("healthy"@, OutV::B(healthy)),
                        ("presence"@, OutV::L(presence)),
                        ("member_count"@, OutV::N(dec(members as nat))),
                    ],
                ),
                healthy,
            ),
        )
    }
}

fn get(resp: &Sexp, key: &str) -> (r: Option<String>)
    ensures
        match r {
            Some(t) => get_text(resp.deep(), key@) == Some(t@),
            None => get_text(resp.deep(), key@) is None,
        },
{
    match field(resp, key) {
        Some(v) => Some(v.to_text()),
        None => None,
    }
}

fn text_or_default(t: Option<String>, default: &str) -> (r: String)
    ensures
        r@ == text_or(match t {
            Some(x) => Some(x@),
            None => None,
        }, default@),
{
    match t {
        Some(x) => x,
        None => String::from_str(default),
    }
}

/// The health card of a node, from its `(metrics)` and `(status)`
/// responses, and whether it is healthy.
pub fn check(metrics: &Sexp, status: &Sexp) -> (r: Result<(Out, bool), String>)
    ensures
        match check_spec(metrics.deep(), status.deep()) {
            Ok((v, h)) => r matches Ok((o, h2)) && o.deep() == v && h2 == h,
            Err(e) => r matches Err(e2) && e2@ == e,
        },
{
    let is_metrics = match metrics.head() {
        Some(h) => str_eq(h, "metrics"),
        None => false,
    };
    if !is_metrics {
        let mut m = String::from_str("unexpected response to metrics: ");
        let t = metrics.to_text();
        push_str(&mut m, t.as_str());
        return Err(m);
    }
    let synced = match get(status, "synced") {
        Some(t) => str_eq(t.as_str(), "t"),
        None => false,
    };
    proof {
        reveal_strlit("t");
        assert("t"@ =~= seq!['t']);
        reveal_strlit("0");
        assert("0"@ =~= seq!['0']);
    }
    let peers: usize = match get(metrics, "peer-count") {
        Some(t) => {
            let v = chars_of(t.as_str());
            match parse_usize(v.as_slice()) {
                Some(p) => p,
                None => 0,
            }
        },
        None => 0,
    };
    let healthy = synced && peers > 0;
    let mut presence: Vec<Out> = Vec::new();
    let mut members: usize = 0;
    match status.field("presence") {
        Some(items) => {
            proof {
                lemma_deeps(items@);
            }
            for i in 0..items.len()
                invariant
                    presence@.len() == i,
                    forall|j: int| 0 <= j < i ==> (#[trigger] presence@[j]).deep() == OutV::S(text_of(items@[j].deep())),
            {
                presence.push(Out::S(items[i].to_text()));
            }
        },
        None => {},
    }
    match status.field("members") {
        Some(items) => {
            proof {
                lemma_deeps(items@);
            }
            members = items.len();
        },
        None => {},
    }
    let ghost pv = presence@;
    let node = text_or_default(get(metrics, "node"), "");
    let epoch = text_or_default(get(metrics, "epoch"), "0");
    let uptime = text_or_default(get(metrics, "uptime-secs"), "0");
    let events = text_or_default(get(metrics, "event-count"), "0");
    proof {
        reveal_strlit("");
        assert(""@ =~= Seq::<char>::empty());
    }
    let peer_text = u64_text(peers as u64);
    let member_text = u64_text(members as u64);
    let ghost spec_presence = match field_spec(status.deep(), "presence"@) {
        Some(items) => texts_as_out(items),
        None => Seq::<OutV>::empty(),
    };
    proof {
        crate::swarm::out::lemma_outs_from_all(pv);
        assert(crate::swarm::out::outs_from(pv, 0) =~= spec_presence);
    }
    let ghost want = seq![
        ("node"@, OutV::S(node@)),
        ("epoch"@, OutV::N(epoch@)),
        ("uptime_secs"@, OutV::N(uptime@)),
        ("event_count"@, OutV::N(events@)),
        ("peer_count"@, OutV::N(peer_text@)),
        ("synced"@, OutV::B(synced)),
        ("healthy"@, OutV::B(healthy)),
        ("presence"@, OutV::L(spec_presence)),
        ("member_count"@, OutV::N(member_text@)),
    ];
    let mut pairs: Vec<(&str, Out)> = Vec::new();
    pairs.push(("node", Out::S(node)));
    pairs.push(("epoch", Out::N(epoch)));
    pairs.push(("uptime_secs", Out::N(uptime)));
    pairs.push(("event_count", Out::N(events)));
    pairs.push(("peer_count", Out::N(peer_text)));
    pairs.push(("synced", Out::B(synced)));
    pairs.push(("healthy", Out::B(healthy)));
    pairs.push(("presence", Out::L(presence)));
    pairs.push(("member_count", Out::N(member_text)));
    assert(pairs@.map_values(|p: (&str, Out)| (p.0@, p.1.deep())) =~= want);
    let out = Out::m(pairs);
    Ok((out, healthy))
}


/// The items joined with single spaces.
pub open spec fn join_spaces(items: Seq<Seq<char>>) -> Seq<char>
    decreases items.len(),
{
    if items.len() == 0 {
        Seq::empty()
    } else if items.len() == 1 {
        items[0]
    } else {
        join_spaces(items.drop_last()) + seq![' '] + items.last()
    }
}

/// The `(next-best-action ...)` request for an agent with the given
/// capabilities (none named when there are none).
pub open spec fn nba_request_spec(caps: Seq<Seq<char>>) -> Seq<char> {
    "(next-best-action (from l0-agent) "@ + (if caps.len() == 0 {
        Seq::empty()
    } else {
        "(capabilities ("@ + join_spaces(caps) + "))"@
    }) + ")"@
}

/// The `(next-best-action ...)` request form.
pub fn nba_request(caps: &Vec<String>) -> (r: String)
    ensures
        r@ == nba_request_spec(caps@.map_values(|c: String| c@)),
{
    let ghost cv = caps@.map_values(|c: String| c@);
    let mut list = String::new();
    if caps.len() > 0 {
        push_str(&mut list, "(capabilities (");
        let ghost start = list@;
        for i in 0..caps.len()
            invariant
                cv == caps@.map_values(|c: String| c@),
                caps@.len() > 0,
                list@ == start + join_spaces(cv.take(i as int)),
        {
            if i > 0 {
                push_str(&mut list, " ");
                proof {
                    reveal_strlit(" ");
                }
            }
            push_str(&mut list, caps[i].as_str());
            assert(cv.take(i + 1).drop_last() =~= cv.take(i as int));
            if i == 0 {
                assert(cv.take(0) =~= Seq::<Seq<char>>::empty());
            }
            assert(list@ =~= start + join_spaces(cv.take(i + 1)));
        }
        push_str(&mut list, "))");
        assert(cv.take(cv.len() as int) =~= cv);
    }
    let mut r = String::from_str("(next-best-action (from l0-agent) ");
    push_str(&mut r, list.as_str());
    push_str(&mut r, ")");
    assert(r@ =~= nba_request_spec(cv));
    r
}

/// The `(next-best-action ...)` answer, carried over verbatim.
pub open spec fn nba_spec(resp: SexpV) -> Result<OutV, Seq<char>> {
    if head_spec(resp) != Some("next-best-action"@) {
        Err("unexpected response: "@ + text_of(resp))
    } else {
        Ok(OutV::M(seq![("head"@, OutV::S("next-best-action"@)), ("fields"@, out_of(resp))]))
    }
}

/// The answer to a `(next-best-action ...)` request as structured data,
/// carried over verbatim.
pub fn nba(resp: &Sexp) -> (r: Result<Out, String>)
    ensures
        match nba_spec(resp.deep()) {
            Ok(v) => r matches Ok(o) && o.deep() == v,
            Err(e) => r matches Err(e2) && e2@ == e,
        },
{
    let is_nba = match resp.head() {
        Some(h) => str_eq(h, "next-best-action"),
        None => false,
    };
    if !is_nba {
        let mut m = String::from_str("unexpected response: ");
        let t = resp.to_text();
        push_str(&mut m, t.as_str());
        return Err(m);
    }
    let fields = sexpr_list_to_out(resp);
    let mut pairs: Vec<(&str, Out)> = Vec::new();
    pairs.push(("head", Out::S(String::from_str("next-best-action"))));
    pairs.push(("fields", fields));
    assert(pairs@.map_values(|p: (&str, Out)| (p.0@, p.1.deep())) =~= seq![
        ("head"@, OutV::S("next-best-action"@)),
        ("fields"@, out_of(resp.deep())),
    ]);
    Ok(Out::m(pairs))
}

/// The pair an item of a task-op response contributes: `(key value)`
/// gives `key`, a one-item list gives `detail`.
pub open spec fn op_pair(item: SexpV) -> Option<(Seq<char>, OutV)> {
    match item {
        SexpV::List(kv) => if kv.len() == 2 && kv[0] is Atom {
            Some((kv[0]->Atom_0, OutV::S(text_of(kv[1]))))
        } else if kv.len() == 1 {
            Some(("detail"@, OutV::S(text_of(kv[0]))))
        } else {
            None
        },
        _ => None,
    }
}

/// The pairs of `items[1..k]`.
pub open spec fn op_pairs(items: Seq<SexpV>, k: int) -> Seq<(Seq<char>, OutV)>
    decreases k,
{
    if k <= 1 || k > items.len() {
        Seq::empty()
    } else {
        let rest = op_pairs(items, k - 1);
        match op_pair(items[k - 1]) {
            Some(p) => rest.push(p),
            None => rest,
        }
    }
}

/// A task operation's response read back: whether it was `(ok ...)`, its
/// head, and its entries.
pub open spec fn task_op_spec(resp: SexpV) -> (OutV, bool) {
    let head = match head_spec(resp) {
        Some(h) => h,
        None => seq!['?'],
    };
    let ok = head == "ok"@;
    let rest = match resp {
        SexpV::List(items) => op_pairs(items, items.len() as int),
        _ => Seq::empty(),
    };
    (OutV::M(seq![("ok"@, OutV::B(ok)), ("op_response_head"@, OutV::S(head))] + rest), ok)
}

/// The response to a mutating task operation as structured data, and
/// whether it succeeded.
pub fn task_op(resp: &Sexp) -> (r: (Out, bool))
    ensures
        r.0.deep() == task_op_spec(resp.deep()).0,
        r.1 == task_op_spec(resp.deep()).1,
{
    let head = match resp.head() {
        Some(h) => String::from_str(h),
        None => String::from_str("?"),
    };
    proof {
        reveal_strlit("?");
        assert("?"@ =~= seq!['?']);
    }
    let ok = str_eq(head.as_str(), "ok");
    let ghost hv = head@;
    let mut pairs: Vec<(String, Out)> = Vec::new();
    pairs.push((String::from_str("ok"), Out::B(ok)));
    pairs.push((String::from_str("op_response_head"), Out::S(head)));
    let ghost prefix = seq![("ok"@, OutV::B(ok)), ("op_response_head"@, OutV::S(hv))];
    proof {
        crate::swarm::out::lemma_pairs_from_all(pairs@);
        assert(crate::swarm::out::pairs_from(pairs@, 0) =~= prefix);
    }
    match resp {
        Sexp::List(items) => {
            proof {
                lemma_deeps(items@);
            }
            let ghost d = deeps(items@);
            let mut i: usize = 1;
            while i < items.len()
                invariant
                    1 <= i <= items@.len() || (i == 1 && items@.len() == 0),
                    d == deeps(items@),
                    d.len() == items@.len(),
                    forall|j: int| 0 <= j < items@.len() ==> #[trigger] d[j] == items@[j].deep(),
                    crate::swarm::out::pairs_from(pairs@, 0) == prefix + op_pairs(d, i as int),
                decreases items@.len() - i,
            {
                let ghost before = crate::swarm::out::pairs_from(pairs@, 0);
                let ghost old_pairs = pairs@;
                proof {
                    crate::swarm::out::lemma_pairs_from_all(old_pairs);
                }
                if let Sexp::List(kv) = &items[i] {
                    proof {
                        lemma_deeps(kv@);
                    }
                    if kv.len() == 2 {
                        if let Sexp::Atom(k) = &kv[0] {
                            pairs.push((k.clone(), Out::S(kv[1].to_text())));
                        } else {
                        }
                    } else if kv.len() == 1 {
                        pairs.push((String::from_str("detail"), Out::S(kv[0].to_text())));
                    }
                }
                proof {
                    crate::swarm::out::lemma_pairs_from_all(pairs@);
                    assert(op_pairs(d, i + 1) == match op_pair(d[i as int]) {
                        Some(p) => op_pairs(d, i as int).push(p),
                        None => op_pairs(d, i as int),
                    });
                    match op_pair(d[i as int]) {
                        Some(p) => {
                            assert(pairs@.len() == old_pairs.len() + 1);
                            assert(crate::swarm::out::pairs_from(pairs@, 0)[old_pairs.len() as int] == p);
                            assert(crate::swarm::out::pairs_from(pairs@, 0) =~= before.push(p));
                        },
                        None => {
                            assert(pairs@ == old_pairs);
                        },
                    }
                    assert(crate::swarm::out::pairs_from(pairs@, 0) =~= prefix + op_pairs(d, i + 1));
                }
                i = i + 1;
            }
            assert(op_pairs(d, i as int) == op_pairs(d, d.len() as int)) by {
                if items@.len() == 0 {
                    assert(op_pairs(d, 1) == Seq::<(Seq<char>, OutV)>::empty());
                    assert(op_pairs(d, 0) == Seq::<(Seq<char>, OutV)>::empty());
                }
            }
        },
        _ => {
            assert(prefix + Seq::<(Seq<char>, OutV)>::empty() =~= prefix);
        },
    }
    proof {
        reveal_strlit("ok");
    }
    (Out::M(pairs), ok)
}


/// A task as one local repository's `tasks.my` declares it, with its
/// priority already rendered as text.
#[derive(Debug)]
pub struct LocalTask {
    /// The repository the file belongs to.
    pub repo: String,
    pub priority: String,
    pub capabilities: Vec<String>,
    pub depends_on: Vec<String>,
    pub description: Option<String>,
}

pub open spec fn strs_of(v: Seq<String>) -> Seq<Seq<char>> {
    v.map_values(|s: String| s@)
}

/// The first description any of `local[k..]` gives.
pub open spec fn first_desc(local: Seq<LocalTask>, k: int) -> Option<Seq<char>>
    decreases local.len() - k,
{
    if k < 0 || k >= local.len() {
        None
    } else {
        match local[k].description {
            Some(d) => Some(d@),
            None => first_desc(local, k + 1),
        }
    }
}

/// The first non-empty capability list among `local[k..]`.
pub open spec fn first_caps(local: Seq<LocalTask>, k: int) -> Seq<Seq<char>>
    decreases local.len() - k,
{
    if k < 0 || k >= local.len() {
        Seq::empty()
    } else if local[k].capabilities@.len() > 0 {
        strs_of(local[k].capabilities@)
    } else {
        first_caps(local, k + 1)
    }
}

/// The first non-empty dependency list among `local[k..]`.
pub open spec fn first_deps(local: Seq<LocalTask>, k: int) -> Seq<Seq<char>>
    decreases local.len() - k,
{
    if k < 0 || k >= local.len() {
        Seq::empty()
    } else if local[k].depends_on@.len() > 0 {
        strs_of(local[k].depends_on@)
    } else {
        first_deps(local, k + 1)
    }
}

pub open spec fn as_strings(v: Seq<Seq<char>>) -> Seq<OutV> {
    v.map_values(|s: Seq<char>| OutV::S(s))
}

pub open spec fn recommendation(completed: bool, holder: Seq<char>, ready: bool) -> Seq<char> {
    if completed {
        "no action — task is completed"@
    } else if holder.len() > 0 && holder != "()"@ {
        "wait on `"@ + holder + "` or coordinate a handoff"@
    } else if ready {
        "claimable now via (claim-task (task ID))"@
    } else {
        "blocked — inspect blocked-by"@
    }
}

/// Who holds a task decides the advice before readiness does: a task that
/// is not completed and is held (by a holder other than empty or `()`) is
/// advised to wait on that holder, the same whether or not the node calls
/// it ready; it is advised as claimable only when it is not completed,
/// nobody holds it, and it is ready.
pub proof fn law_holder_before_ready(completed: bool, holder: Seq<char>, ready: bool)
    ensures
        !completed && holder.len() > 0 && holder != "()"@ ==> recommendation(completed, holder, ready)
            == recommendation(completed, holder, !ready),
        !completed && holder.len() > 0 && holder != "()"@ ==> recommendation(completed, holder, ready)
            == "wait on `"@ + holder + "` or coordinate a handoff"@,
        recommendation(completed, holder, ready) == "claimable now via (claim-task (task ID))"@ ==> !completed
            && ready && (holder.len() == 0 || holder == "()"@),
        recommendation(false, "()"@, ready) == recommendation(false, Seq::empty(), ready),
        recommendation(true, holder, ready) == recommendation(true, Seq::empty(), false),
{
    reveal_strlit("()");
    reveal_strlit("claimable now via (claim-task (task ID))");
    reveal_strlit("no action — task is completed");
    reveal_strlit("wait on `");
    reveal_strlit("blocked — inspect blocked-by");
    let c = "claimable now via (claim-task (task ID))"@;
    assert(c[0] == 'c');
    assert(("no action — task is completed"@)[0] == 'n');
    assert(("blocked — inspect blocked-by"@)[0] == 'b');
    assert(("wait on `"@ + holder + "` or coordinate a handoff"@)[0] == 'w');
}

/// The explanation card of a task, from its `(task-status ...)` response
/// and what local repositories declare of it (in order): the node's
/// state, the wire priority before the local one, local details, and a
/// recommendation.
pub open spec fn explain_spec(resp: SexpV, task_id: Seq<char>, local: Seq<LocalTask>) -> Result<OutV, Seq<char>> {
    if head_spec(resp) != Some("task-status"@) {
        Err("unexpected response: "@ + text_of(resp))
    } else if resp->List_0.len() < 2 {
        Err("malformed task-status payload"@)
    } else {
        let inner = resp->List_0[1];
        let holder = text_or(get_text(inner, "holder"@), Seq::empty());
        let completed = get_text(inner, "completed"@) == Some(seq!['t']);
        let ready = get_text(inner, "ready"@) == Some(seq!['t']);
        let local_prio = if local.len() > 0 {
            Some(local[0].priority@)
        } else {
            None
        };
        let prio = match get_text(inner, "priority"@) {
            Some(p) => p,
            None => text_or(local_prio, seq!['1']),
        };
        Ok(
            OutV::M(
                seq![
                    ("task"@, OutV::S(task_id)),
                    ("generation"@, OutV::N(text_or(get_text(inner, "generation"@), seq!['0']))),
                    ("holder"@, OutV::S(if holder == "()"@ { Seq::empty() } else { holder })),
                    ("completed"@, OutV::B(completed)),
                    ("origin_repo"@, OutV::S(if local.len() > 0 { local[0].repo@ } else { Seq::empty() })),
                    ("priority"@, OutV::N(prio)),
                    ("capabilities"@, OutV::L(as_strings(first_caps(local, 0)))),
                    ("depends_on"@, OutV::L(as_strings(first_deps(local, 0)))),
                    ("description"@, OutV::S(text_or(first_desc(local, 0), Seq::empty()))),
                    ("recommended"@, OutV::S(recommendation(completed, holder, ready))),
                ],
            ),
        )
    }
}

fn string_outs(v: &Vec<String>) -> (r: Vec<Out>)
    ensures
        crate::swarm::out::outs_from(r@, 0) == as_strings(strs_of(v@)),
{
    let mut r: Vec<Out> = Vec::new();
    for i in 0..v.len()
        invariant
            r@.len() == i,
            forall|j: int| 0 <= j < i ==> (#[trigger] r@[j]).deep() == OutV::S(v@[j]@),
    {
        r.push(Out::S(v[i].clone()));
    }
    proof {
        crate::swarm::out::lemma_outs_from_all(r@);
        assert(crate::swarm::out::outs_from(r@, 0) =~= as_strings(strs_of(v@)));
    }
    r
}

fn is_t(t: &Option<String>) -> (b: bool)
    ensures
        b == (match t {
            Some(x) => Some(x@),
            None => None,
        } == Some(seq!['t'])),
{
    proof {
        reveal_strlit("t");
        assert("t"@ =~= seq!['t']);
    }
    match t {
        Some(x) => str_eq(x.as_str(), "t"),
        None => false,
    }
}

/// The explanation card of a task, from the node's `(task-status ...)`
/// answer and what local repositories declare of it.
pub fn explain(resp: &Sexp, task_id: &str, local: &Vec<LocalTask>) -> (r: Result<Option<Out>, String>)
    ensures
        match explain_spec(resp.deep(), task_id@, local@) {
            Ok(v) => r matches Ok(Some(o)) && o.deep() == v,
            Err(e) => r matches Err(e2) && e2@ == e,
        },
{
    let is_status = match resp.head() {
        Some(h) => str_eq(h, "task-status"),
        None => false,
    };
    if !is_status {
        let mut m = String::from_str("unexpected response: ");
        let t = resp.to_text();
        push_str(&mut m, t.as_str());
        return Err(m);
    }
    let items = match resp {
        Sexp::List(items) => items,
        _ => {
            return Err(String::from_str("malformed task-status payload"));
        },
    };
    proof {
        lemma_deeps(items@);
    }
    if items.len() < 2 {
        return Err(String::from_str("malformed task-status payload"));
    }
    let inner = &items[1];
    let generation = text_or_default(get(inner, "generation"), "0");
    let holder = text_or_default(get(inner, "holder"), "");
    let completed = is_t(&get(inner, "completed"));
    let ready = is_t(&get(inner, "ready"));
    proof {
        reveal_strlit("");
        assert(""@ =~= Seq::<char>::empty());
        reveal_strlit("0");
        assert("0"@ =~= seq!['0']);
        reveal_strlit("1");
        assert("1"@ =~= seq!['1']);
    }
    let holder_is_unit = str_eq(holder.as_str(), "()");
    let recommended = if completed {
        String::from_str("no action — task is completed")
    } else if holder.unicode_len() > 0 && !holder_is_unit {
        let mut m = String::from_str("wait on `");
        push_str(&mut m, holder.as_str());
        push_str(&mut m, "` or coordinate a handoff");
        m
    } else if ready {
        String::from_str("claimable now via (claim-task (task ID))")
    } else {
        String::from_str("blocked — inspect blocked-by")
    };
    let shown_holder = if holder_is_unit {
        String::new()
    } else {
        holder
    };
    let mut origin = String::new();
    let mut file_priority: Option<String> = None;
    let mut desc: Option<String> = None;
    let mut caps: Vec<Out> = Vec::new();
    let mut deps: Vec<Out> = Vec::new();
    if local.len() > 0 {
        origin = local[0].repo.clone();
        file_priority = Some(local[0].priority.clone());
    }
    let ghost lv = local@;
    let mut found_caps = false;
    let mut found_deps = false;
    let mut k: usize = local.len();
    while k > 0
        invariant
            k <= lv.len(),
            lv == local@,
            match desc {
                Some(d) => Some(d@),
                None => None,
            } == (if first_desc(lv, k as int) is Some { first_desc(lv, k as int) } else { None::<Seq<char>> }),
            crate::swarm::out::outs_from(caps@, 0) == as_strings(first_caps(lv, k as int)),
            crate::swarm::out::outs_from(deps@, 0) == as_strings(first_deps(lv, k as int)),
        decreases k,
    {
        k = k - 1;
        let t = &local[k];
        if t.description.is_some() {
            desc = match &t.description {
                Some(d) => Some(d.clone()),
                None => None,
            };
        }
        if t.capabilities.len() > 0 {
            caps = string_outs(&t.capabilities);
        }
        if t.depends_on.len() > 0 {
            deps = string_outs(&t.depends_on);
        }
    }
    let prio = match get(inner, "priority") {
        Some(p) => p,
        None => text_or_default(file_priority, "1"),
    };
    let description = text_or_default(desc, "");
    let ghost want = seq![
        ("task"@, OutV::S(task_id@)),
        ("generation"@, OutV::N(generation@)),
        ("holder"@, OutV::S(shown_holder@)),
        ("completed"@, OutV::B(completed)),
        ("origin_repo"@, OutV::S(origin@)),
        ("priority"@, OutV::N(prio@)),
        ("capabilities"@, OutV::L(crate::swarm::out::outs_from(caps@, 0))),
        ("depends_on"@, OutV::L(crate::swarm::out::outs_from(deps@, 0))),
        ("description"@, OutV::S(description@)),
        ("recommended"@, OutV::S(recommended@)),
    ];
    let mut pairs: Vec<(&str, Out)> = Vec::new();
    pairs.push(("task", Out::S(String::from_str(task_id))));
    pairs.push(("generation", Out::N(generation)));
    pairs.push(("holder", Out::S(shown_holder)));
    pairs.push(("completed", Out::B(completed)));
    pairs.push(("origin_repo", Out::S(origin)));
    pairs.push(("priority", Out::N(prio)));
    pairs.push(("capabilities", Out::L(caps)));
    pairs.push(("depends_on", Out::L(deps)));
    pairs.push(("description", Out::S(description)));
    pairs.push(("recommended", Out::S(recommended)));
    assert(pairs@.map_values(|p: (&str, Out)| (p.0@, p.1.deep())) =~= want);
    Ok(Some(Out::m(pairs)))
}


/// The first `(repository ...)` form in `v`, looking at a list before
/// its items, and at the items in order.
pub open spec fn find_repo(v: SexpV) -> Option<SexpV>
    decreases v, 0nat,
{
    match v {
        SexpV::List(items) => if items.len() > 0 && items[0] == SexpV::Atom("repository"@) {
            Some(v)
        } else {
            find_repo_in(items, 0)
        },
        _ => None,
    }
}

pub open spec fn find_repo_in(items: Seq<SexpV>, k: nat) -> Option<SexpV>
    decreases items, items.len() - k,
{
    if k < items.len() {
        match find_repo(items[k as int]) {
            Some(r) => Some(r),
            None => find_repo_in(items, k + 1),
        }
    } else {
        None
    }
}

/// A value as a card shows it: an atom's or a string's text, a list's
/// canonical text.
pub open spec fn value_text(v: SexpV) -> Seq<char> {
    match v {
        SexpV::Atom(a) => a,
        SexpV::Str(s) => s,
        _ => text_of(v),
    }
}

/// The values of the `(name v1 v2 ...)` entry, as text.
pub open spec fn field_values(repo: SexpV, name: Seq<char>) -> Seq<Seq<char>> {
    match field_spec(repo, name) {
        Some(tail) => tail.map_values(|x: SexpV| value_text(x)),
        None => Seq::empty(),
    }
}

pub open spec fn first_value(repo: SexpV, name: Seq<char>) -> Seq<char> {
    let vs = field_values(repo, name);
    if vs.len() > 0 {
        vs[0]
    } else {
        Seq::empty()
    }
}

pub open spec fn done_count(ts: Seq<crate::scheduler::tasks_file::TaskV>) -> nat
    decreases ts.len(),
{
    if ts.len() == 0 {
        0
    } else {
        done_count(ts.drop_last()) + if ts.last().done {
            1nat
        } else {
            0nat
        }
    }
}

/// The task counts a `tasks.my` text gives a card: how many tasks and
/// how many are done; zero for both when there is no readable file.
pub open spec fn task_counts(tasks_text: Option<Seq<char>>) -> (nat, nat) {
    match tasks_text {
        Some(t) => match crate::scheduler::tasks_file::tasks_file_spec(t) {
            Ok(list) => (list.len(), done_count(list)),
            Err(_) => (0, 0),
        },
        None => (0, 0),
    }
}

/// The context card of a repository from its `repo.my` text: its id,
/// role, exports, imports, capabilities, authorities and non-authorities,
/// the counts of its `tasks.my`, and where it was read from.
pub open spec fn context_spec(
    text: Seq<char>,
    file_debug: Seq<char>,
    source: Seq<char>,
    tasks_text: Option<Seq<char>>,
) -> Result<OutV, Seq<char>> {
    match crate::scheduler::sexpr::parse_spec(text) {
        Err(e) => Err("parse error in "@ + file_debug + ": "@ + e),
        Ok(form) => match find_repo(form) {
            None => Err("no (repository ...) form found"@),
            Some(repo) => {
                let counts = task_counts(tasks_text);
                Ok(
                    OutV::M(
                        seq![
                            ("repo"@, OutV::S(first_value(repo, "id"@))),
                            ("role"@, OutV::S(first_value(repo, "role"@))),
                            ("exports"@, OutV::L(as_strings(field_values(repo, "exports"@)))),
                            ("imports"@, OutV::L(as_strings(field_values(repo, "imports"@)))),
                            ("capabilities"@, OutV::L(as_strings(field_values(repo, "capabilities"@)))),
                            ("authorities"@, OutV::L(as_strings(field_values(repo, "authorities"@)))),
                            ("non_authorities"@, OutV::L(as_strings(field_values(repo, "non-authorities"@)))),
                            ("tasks_total"@, OutV::N(dec(counts.0))),
                            ("tasks_done"@, OutV::N(dec(counts.1))),
                            ("source"@, OutV::S(source)),
                        ],
                    ),
                )
            },
        },
    }
}

fn find_repo_form(v: &Sexp) -> (r: Option<&Sexp>)
    ensures
        match find_repo(v.deep()) {
            Some(x) => r matches Some(f) && f.deep() == x,
            None => r is None,
        },
    decreases v,
{
    match v {
        Sexp::List(items) => {
            proof {
                lemma_deeps(items@);
            }
            if items.len() > 0 {
                if let Sexp::Atom(a) = &items[0] {
                    if str_eq(a.as_str(), "repository") {
                        return Some(v);
                    }
                }
            }
            let ghost d = deeps(items@);
            let mut k: usize = 0;
            while k < items.len()
                invariant
                    k <= items@.len(),
                    d == deeps(items@),
                    d.len() == items@.len(),
                    forall|j: int| 0 <= j < items@.len() ==> #[trigger] d[j] == items@[j].deep(),
                    find_repo(v.deep()) == find_repo_in(d, k as nat),
                    *v == Sexp::List(*items),
                decreases items@.len() - k,
            {
                proof {
                    let ghost me = *v;
                    let ghost its = *items;
                    assert(decreases_to!(me => me->List_0));
                    assert(decreases_to!(its => its@));
                    assert(decreases_to!(its@ => its@[k as int]));
                }
                match find_repo_form(&items[k]) {
                    Some(f) => {
                        return Some(f);
                    },
                    None => {},
                }
                k = k + 1;
            }
            None
        },
        _ => None,
    }
}

fn value_strings(repo: &Sexp, name: &str) -> (r: Vec<String>)
    ensures
        strs_of(r@) == field_values(repo.deep(), name@),
{
    let mut r: Vec<String> = Vec::new();
    match repo.field(name) {
        Some(tail) => {
            proof {
                lemma_deeps(tail@);
            }
            for i in 0..tail.len()
                invariant
                    r@.len() == i,
                    deeps(tail@).len() == tail@.len(),
                    forall|j: int| 0 <= j < tail@.len() ==> #[trigger] deeps(tail@)[j] == tail@[j].deep(),
                    forall|j: int| 0 <= j < i ==> (#[trigger] r@[j])@ == value_text(tail@[j].deep()),
            {
                let t = match &tail[i] {
                    Sexp::Atom(a) => a.clone(),
                    Sexp::Str(s) => s.clone(),
                    other => other.to_text(),
                };
                r.push(t);
            }
            assert(strs_of(r@) =~= field_values(repo.deep(), name@));
        },
        None => {
            assert(strs_of(r@) =~= field_values(repo.deep(), name@));
        },
    }
    r
}

fn strings_to_outs(v: Vec<String>) -> (r: Out)
    ensures
        r.deep() == OutV::L(as_strings(strs_of(v@))),
{
    let outs = string_outs(&v);
    Out::L(outs)
}

fn first_string(v: &Vec<String>) -> (r: String)
    ensures
        r@ == (if v@.len() > 0 { v@[0]@ } else { Seq::<char>::empty() }),
{
    if v.len() > 0 {
        v[0].clone()
    } else {
        String::new()
    }
}

/// The context card of a repository, from its `repo.my` text, how its
/// path reads in a message, where it was read from, and its `tasks.my`
/// text when that file could be read.
pub fn context(text: &str, file_debug: &str, source: &str, tasks_text: Option<&str>) -> (r: Result<Out, String>)
    ensures
        match context_spec(text@, file_debug@, source@, match tasks_text {
            Some(t) => Some(t@),
            None => None,
        }) {
            Ok(v) => r matches Ok(o) && o.deep() == v,
            Err(e) => r matches Err(e2) && e2@ == e,
        },
{
    let form = match crate::scheduler::sexpr::parse(text) {
        Ok(f) => f,
        Err(e) => {
            let mut m = String::from_str("parse error in ");
            push_str(&mut m, file_debug);
            push_str(&mut m, ": ");
            push_str(&mut m, e.as_str());
            return Err(m);
        },
    };
    let repo = match find_repo_form(&form) {
        Some(r) => r,
        None => {
            return Err(String::from_str("no (repository ...) form found"));
        },
    };
    let (total, done): (usize, usize) = match tasks_text {
        Some(t) => match crate::scheduler::tasks_file::parse_tasks_file(t) {
            Ok(list) => {
                let mut d: usize = 0;
                let ghost lv = crate::scheduler::tasks_file::tasks_view(list@);
                for i in 0..list.len()
                    invariant
                        lv == crate::scheduler::tasks_file::tasks_view(list@),
                        d == done_count(lv.take(i as int)),
                        d <= i,
                {
                    assert(lv.take(i + 1).drop_last() =~= lv.take(i as int));
                    if list[i].done {
                        d = d + 1;
                    }
                }
                assert(lv.take(lv.len() as int) =~= lv);
                (list.len(), d)
            },
            Err(_) => (0, 0),
        },
        None => (0, 0),
    };
    let ids = value_strings(repo, "id");
    let roles = value_strings(repo, "role");
    let ghost rv = repo.deep();
    let mut pairs: Vec<(&str, Out)> = Vec::new();
    pairs.push(("repo", Out::S(first_string(&ids))));
    pairs.push(("role", Out::S(first_string(&roles))));
    pairs.push(("exports", strings_to_outs(value_strings(repo, "exports"))));
    pairs.push(("imports", strings_to_outs(value_strings(repo, "imports"))));
    pairs.push(("capabilities", strings_to_outs(value_strings(repo, "capabilities"))));
    pairs.push(("authorities", strings_to_outs(value_strings(repo, "authorities"))));
    pairs.push(("non_authorities", strings_to_outs(value_strings(repo, "non-authorities"))));
    pairs.push(("tasks_total", Out::N(u64_text(total as u64))));
    pairs.push(("tasks_done", Out::N(u64_text(done as u64))));
    pairs.push(("source", Out::S(String::from_str(source))));
    let ghost counts = task_counts(match tasks_text {
        Some(t) => Some(t@),
        None => None,
    });
    assert(pairs@.map_values(|p: (&str, Out)| (p.0@, p.1.deep())) =~= seq![
        ("repo"@, OutV::S(first_value(rv, "id"@))),
        ("role"@, OutV::S(first_value(rv, "role"@))),
        ("exports"@, OutV::L(as_strings(field_values(rv, "exports"@)))),
        ("imports"@, OutV::L(as_strings(field_values(rv, "imports"@)))),
        ("capabilities"@, OutV::L(as_strings(field_values(rv, "capabilities"@)))),
        ("authorities"@, OutV::L(as_strings(field_values(rv, "authorities"@)))),
        ("non_authorities"@, OutV::L(as_strings(field_values(rv, "non-authorities"@)))),
        ("tasks_total"@, OutV::N(dec(counts.0))),
        ("tasks_done"@, OutV::N(dec(counts.1))),
        ("source"@, OutV::S(source@)),
    ]);
    Ok(Out::m(pairs))
}


/// Every card that could be made, with their count.
pub open spec fn all_contexts_spec(cards: Seq<Result<OutV, Seq<char>>>) -> OutV {
    let ok = oks(cards, cards.len() as int);
    OutV::M(seq![("repos"@, OutV::L(ok)), ("count"@, OutV::N(dec(ok.len())))])
}

/// The successful cards among `cards[..k]`, in order.
pub open spec fn oks(cards: Seq<Result<OutV, Seq<char>>>, k: int) -> Seq<OutV>
    decreases k,
{
    if k <= 0 || k > cards.len() {
        Seq::empty()
    } else {
        match cards[k - 1] {
            Ok(v) => oks(cards, k - 1).push(v),
            Err(_) => oks(cards, k - 1),
        }
    }
}

pub open spec fn cards_view(cards: Seq<Result<Out, String>>) -> Seq<Result<OutV, Seq<char>>> {
    cards.map_values(|c: Result<Out, String>| match c {
        Ok(o) => Ok(o.deep()),
        Err(e) => Err(e@),
    })
}

/// The cards of every repository that has one (those that could not be
/// made are left out), and how many there are.
pub fn all_contexts(cards: Vec<Result<Out, String>>) -> (r: Out)
    ensures
        r.deep() == all_contexts_spec(cards_view(cards@)),
{
    let ghost cv = cards_view(cards@);
    let n = cards.len();
    let mut rest = cards;
    let mut ok: Vec<Out> = Vec::new();
    let mut i: usize = 0;
    while i < n
        invariant
            n == cv.len(),
            i <= n,
            cards_view(rest@) =~= cv.skip(i as int),
            crate::swarm::out::outs_from(ok@, 0) == oks(cv, i as int),
            ok@.len() <= i,
        decreases n - i,
    {
        let ghost rest0 = rest@;
        assert(cards_view(rest0).len() == rest0.len());
        assert(cards_view(rest0)[0] == cv[i as int]);
        let c = rest.remove(0);
        assert(rest@ =~= rest0.skip(1));
        assert(cards_view(rest@) =~= cv.skip(i + 1)) by {
            assert forall|j: int| 0 <= j < rest@.len() implies cards_view(rest@)[j] == cv.skip(i + 1)[j] by {
                assert(rest@[j] == rest0[j + 1]);
                assert(cards_view(rest0)[j + 1] == cv.skip(i as int)[j + 1]);
            }
        }
        let ghost before = ok@;
        proof {
            crate::swarm::out::lemma_outs_from_all(before);
        }
        match c {
            Ok(o) => {
                ok.push(o);
            },
            Err(_) => {},
        }
        proof {
            crate::swarm::out::lemma_outs_from_all(ok@);
            assert(crate::swarm::out::outs_from(ok@, 0) =~= oks(cv, i + 1));
        }
        i = i + 1;
    }
    let count = ok.len();
    proof {
        crate::swarm::out::lemma_outs_from_all(ok@);
    }
    let mut pairs: Vec<(&str, Out)> = Vec::new();
    pairs.push(("repos", Out::L(ok)));
    pairs.push(("count", Out::N(u64_text(count as u64))));
    assert(pairs@.map_values(|p: (&str, Out)| (p.0@, p.1.deep())) =~= seq![
        ("repos"@, OutV::L(oks(cv, n as int))),
        ("count"@, OutV::N(dec(oks(cv, n as int).len()))),
    ]);
    Out::m(pairs)
}

pub open spec fn entry_head(t: crate::scheduler::tasks_file::TaskV, priority: Seq<char>) -> Seq<char> {
    "  (\""@ + t.id + "\" . (\n"@ + "    (priority . "@ + priority + ")\n"@
}

pub open spec fn caps_part(t: crate::scheduler::tasks_file::TaskV) -> Seq<char> {
    if t.capabilities.len() > 0 {
        "    (capabilities . ("@ + join_spaces(t.capabilities) + "))\n"@
    } else {
        Seq::empty()
    }
}

pub open spec fn deps_part(t: crate::scheduler::tasks_file::TaskV) -> Seq<char> {
    if t.depends_on.len() > 0 {
        "    (depends-on . ("@ + join_spaces(t.depends_on.map_values(|d: Seq<char>| debug_text(d)))
            + "))\n"@
    } else {
        Seq::empty()
    }
}

pub open spec fn done_part(t: crate::scheduler::tasks_file::TaskV) -> Seq<char> {
    "    (done . "@ + (if t.done {
        seq!['t']
    } else {
        "()"@
    }) + ")\n"@
}

pub open spec fn desc_part(t: crate::scheduler::tasks_file::TaskV) -> Seq<char> {
    match t.description {
        Some(d) => "    (description . "@ + debug_text(d) + ")\n"@,
        None => Seq::empty(),
    }
}

pub open spec fn origin_part(t: crate::scheduler::tasks_file::TaskV) -> Seq<char> {
    match t.origin {
        Some(o) => "    (origin . "@ + o + ")\n"@,
        None => Seq::empty(),
    }
}

/// One task of the canonical `tasks.my` text: its id quoted, its
/// priority, its capabilities and dependencies when it has any (the
/// dependencies in debug form), whether it is done, and its description
/// (in debug form) and origin when declared.
pub open spec fn task_entry_text(t: crate::scheduler::tasks_file::TaskV, priority: Seq<char>) -> Seq<char> {
    entry_head(t, priority) + caps_part(t) + deps_part(t) + done_part(t) + desc_part(t)
        + origin_part(t) + "  ))\n"@
}

pub open spec fn task_entries_text(ts: Seq<crate::scheduler::tasks_file::TaskV>, ps: Seq<Seq<char>>) -> Seq<char>
    decreases ts.len(),
{
    if ts.len() == 0 {
        Seq::empty()
    } else {
        task_entries_text(ts.drop_last(), ps.drop_last()) + task_entry_text(ts.last(), ps.last())
    }
}

/// The canonical `tasks.my` text of a task list, each task's priority
/// given as rendered text.
pub open spec fn canonical_text(ts: Seq<crate::scheduler::tasks_file::TaskV>, ps: Seq<Seq<char>>) -> Seq<char> {
    "((kind . tasks-my)\n (tasks . (\n"@ + task_entries_text(ts, ps) + " ))\n)"@
}

fn push_joined(out: &mut String, items: &Vec<String>, debug: bool)
    ensures
        final(out)@ == old(out)@ + join_spaces(if debug {
            strs_of(items@).map_values(|d: Seq<char>| debug_text(d))
        } else {
            strs_of(items@)
        }),
{
    let ghost iv = if debug {
        strs_of(items@).map_values(|d: Seq<char>| debug_text(d))
    } else {
        strs_of(items@)
    };
    let ghost start = out@;
    for i in 0..items.len()
        invariant
            iv == (if debug {
                strs_of(items@).map_values(|d: Seq<char>| debug_text(d))
            } else {
                strs_of(items@)
            }),
            out@ == start + join_spaces(iv.take(i as int)),
            old(out)@ == start,
    {
        if i > 0 {
            push_str(out, " ");
            proof {
                reveal_strlit(" ");
            }
        }
        if debug {
            let d = debug_str(items[i].as_str());
            push_str(out, d.as_str());
        } else {
            push_str(out, items[i].as_str());
        }
        assert(iv.take(i + 1).drop_last() =~= iv.take(i as int));
        if i == 0 {
            assert(iv.take(0) =~= Seq::<Seq<char>>::empty());
        }
        assert(out@ =~= start + join_spaces(iv.take(i + 1)));
    }
    assert(iv.take(iv.len() as int) =~= iv);
}

fn push_entry_head(out: &mut String, t: &crate::scheduler::tasks_file::ParsedTask, priority: &String)
    ensures
        final(out)@ == old(out)@ + entry_head(t@, priority@),
{
    let ghost start = out@;
    push_str(out, "  (\"");
    push_str(out, t.id.as_str());
    push_str(out, "\" . (\n");
    push_str(out, "    (priority . ");
    push_str(out, priority.as_str());
    push_str(out, ")\n");
    assert(out@ =~= start + entry_head(t@, priority@));
}

fn push_lists(out: &mut String, t: &crate::scheduler::tasks_file::ParsedTask)
    ensures
        final(out)@ == old(out)@ + caps_part(t@) + deps_part(t@),
{
    let ghost start = out@;
    if t.capabilities.len() > 0 {
        push_str(out, "    (capabilities . (");
        push_joined(out, &t.capabilities, false);
        push_str(out, "))\n");
    }
    let ghost mid = out@;
    assert(mid =~= start + caps_part(t@));
    if t.depends_on.len() > 0 {
        push_str(out, "    (depends-on . (");
        push_joined(out, &t.depends_on, true);
        push_str(out, "))\n");
    }
    assert(out@ =~= mid + deps_part(t@));
}

fn push_done(out: &mut String, t: &crate::scheduler::tasks_file::ParsedTask)
    ensures
        final(out)@ == old(out)@ + done_part(t@),
{
    let ghost start = out@;
    push_str(out, "    (done . ");
    if t.done {
        push_str(out, "t");
        proof {
            reveal_strlit("t");
            assert("t"@ =~= seq!['t']);
        }
    } else {
        push_str(out, "()");
    }
    push_str(out, ")\n");
    assert(out@ =~= start + done_part(t@));
}

fn push_extras(out: &mut String, t: &crate::scheduler::tasks_file::ParsedTask)
    ensures
        final(out)@ == old(out)@ + desc_part(t@) + origin_part(t@),
{
    let ghost start = out@;
    match &t.description {
        Some(d) => {
            push_str(out, "    (description . ");
            let dd = debug_str(d.as_str());
            push_str(out, dd.as_str());
            push_str(out, ")\n");
        },
        None => {},
    }
    let ghost mid = out@;
    assert(mid =~= start + desc_part(t@));
    match &t.origin {
        Some(o) => {
            push_str(out, "    (origin . ");
            push_str(out, o.as_str());
            push_str(out, ")\n");
        },
        None => {},
    }
    assert(out@ =~= mid + origin_part(t@));
}

fn push_task_entry(out: &mut String, t: &crate::scheduler::tasks_file::ParsedTask, priority: &String)
    ensures
        final(out)@ == old(out)@ + task_entry_text(t@, priority@),
{
    let ghost start = out@;
    push_entry_head(out, t, priority);
    push_lists(out, t);
    push_done(out, t);
    push_extras(out, t);
    push_str(out, "  ))\n");
    assert(out@ =~= start + task_entry_text(t@, priority@));
}

/// The canonical text of a `tasks.my` task list; `priorities` holds each
/// task's priority as rendered text, position for position.
pub fn canonical_tasks(tasks: &Vec<crate::scheduler::tasks_file::ParsedTask>, priorities: &Vec<String>) -> (r: String)
    requires
        tasks@.len() == priorities@.len(),
    ensures
        r@ == canonical_text(crate::scheduler::tasks_file::tasks_view(tasks@), strs_of(priorities@)),
{
    let ghost tv = crate::scheduler::tasks_file::tasks_view(tasks@);
    let ghost pv = strs_of(priorities@);
    let mut out = String::from_str("((kind . tasks-my)\n (tasks . (\n");
    let ghost head = out@;
    for i in 0..tasks.len()
        invariant
            tasks@.len() == priorities@.len(),
            tv == crate::scheduler::tasks_file::tasks_view(tasks@),
            pv == strs_of(priorities@),
            out@ == head + task_entries_text(tv.take(i as int), pv.take(i as int)),
    {
        let ghost before = out@;
        push_task_entry(&mut out, &tasks[i], &priorities[i]);
        assert(tv.take(i + 1).drop_last() =~= tv.take(i as int));
        assert(pv.take(i + 1).drop_last() =~= pv.take(i as int));
        assert(tv[i as int] == tasks@[i as int]@);
        assert(out@ =~= head + task_entries_text(tv.take(i + 1), pv.take(i + 1)));
    }
    push_str(&mut out, " ))\n)");
    assert(tv.take(tv.len() as int) =~= tv);
    assert(pv.take(pv.len() as int) =~= pv);
    assert(out@ =~= canonical_text(tv, pv));
    out
}

/// Text values as a list of strings.
pub open spec fn strings_outv(v: Seq<Seq<char>>) -> OutV {
    OutV::L(v.map_values(|x: Seq<char>| OutV::S(x)))
}

/// One task of a `convert` listing; `priority` is its rendered priority.
pub open spec fn task_outv(t: crate::scheduler::tasks_file::TaskV, priority: Seq<char>) -> OutV {
    OutV::M(
        seq![
            ("id"@, OutV::S(t.id)),
            ("priority"@, OutV::N(priority)),
            ("capabilities"@, strings_outv(t.capabilities)),
            ("depends_on"@, strings_outv(t.depends_on)),
            ("done"@, OutV::B(t.done)),
            ("description"@, OutV::S(text_or(t.description, seq![]))),
            ("origin"@, OutV::S(text_or(t.origin, seq![]))),
        ],
    )
}

/// The `convert` listing: `{tasks: [...]}`, one entry per task, in order.
pub open spec fn tasks_outv(ts: Seq<crate::scheduler::tasks_file::TaskV>, ps: Seq<Seq<char>>) -> OutV {
    OutV::M(seq![("tasks"@, OutV::L(Seq::new(ts.len(), |i: int| task_outv(ts[i], ps[i]))))])
}

fn strings_out(v: &Vec<String>) -> (r: Out)
    ensures
        r.deep() == strings_outv(v@.map_values(|s: String| s@)),
{
    let mut items: Vec<Out> = Vec::new();
    for i in 0..v.len()
        invariant
            items@.len() == i,
            forall|k: int| 0 <= k < i ==> #[trigger] items@[k].deep() == OutV::S(v@[k]@),
    {
        items.push(Out::S(v[i].clone()));
    }
    proof {
        crate::swarm::out::lemma_outs_from_all(items@);
    }
    let ghost texts = v@.map_values(|s: String| s@);
    let ghost want = texts.map_values(|x: Seq<char>| OutV::S(x));
    assert(crate::swarm::out::outs_from(items@, 0) =~= want) by {
        assert forall|k: int| 0 <= k < want.len() implies #[trigger] want[k] == crate::swarm::out::outs_from(
            items@,
            0,
        )[k] by {
            assert(texts[k] == v@[k]@);
            assert(items@[k].deep() == OutV::S(v@[k]@));
        }
    }
    let r = Out::L(items);
    r
}

fn text_or_empty(t: &Option<String>) -> (r: String)
    ensures
        r@ == text_or(
            match t {
                Some(x) => Some(x@),
                None => None,
            },
            seq![],
        ),
{
    match t {
        Some(x) => x.clone(),
        None => String::new(),
    }
}

fn task_out(t: &crate::scheduler::tasks_file::ParsedTask, priority: &String) -> (r: Out)
    ensures
        r.deep() == task_outv(t@, priority@),
{
    let r = Out::m(
        vec![
            ("id", Out::S(t.id.clone())),
            ("priority", Out::N(priority.clone())),
            ("capabilities", strings_out(&t.capabilities)),
            ("depends_on", strings_out(&t.depends_on)),
            ("done", Out::B(t.done)),
            ("description", Out::S(text_or_empty(&t.description))),
            ("origin", Out::S(text_or_empty(&t.origin))),
        ],
    );
    assert(r.deep()->M_0 =~= task_outv(t@, priority@)->M_0);
    r
}

/// The `convert` listing of a task file's tasks; `priorities` holds each
/// task's priority as rendered text, position for position.
pub fn tasks_out(tasks: &Vec<crate::scheduler::tasks_file::ParsedTask>, priorities: &Vec<String>) -> (r: Out)
    requires
        tasks@.len() == priorities@.len(),
    ensures
        r.deep() == tasks_outv(crate::scheduler::tasks_file::tasks_view(tasks@), strs_of(priorities@)),
{
    let ghost tv = crate::scheduler::tasks_file::tasks_view(tasks@);
    let ghost pv = strs_of(priorities@);
    let mut items: Vec<Out> = Vec::new();
    for i in 0..tasks.len()
        invariant
            tasks@.len() == priorities@.len(),
            tv == crate::scheduler::tasks_file::tasks_view(tasks@),
            pv == strs_of(priorities@),
            items@.len() == i,
            forall|k: int| 0 <= k < i ==> #[trigger] items@[k].deep() == task_outv(tv[k], pv[k]),
    {
        items.push(task_out(&tasks[i], &priorities[i]));
    }
    proof {
        crate::swarm::out::lemma_outs_from_all(items@);
    }
    let ghost want = Seq::new(tv.len(), |i: int| task_outv(tv[i], pv[i]));
    assert(crate::swarm::out::outs_from(items@, 0) =~= want);
    let r = Out::m(vec![("tasks", Out::L(items))]);
    assert(r.deep()->M_0 =~= tasks_outv(tv, pv)->M_0);
    r
}

} // verus!
