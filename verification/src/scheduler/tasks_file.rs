//! Reads the ecosystem's durable `tasks.my` format, a dotted association
//! list: `((kind . tasks-my) (tasks . ((ID . ((priority . N)
//! (capabilities . (a b)) (depends-on . (x y)) (done . t)
//! (description . "...") (origin . repo))) ...)))`.

use vstd::prelude::*;
use crate::scheduler::sexpr::{deeps, lemma_deeps, parse, parse_spec, text_of, Sexp, SexpV};
use crate::text::{push_str, str_eq};

verus! {

/// One task as a `tasks.my` file declares it.
#[derive(Debug, Clone, PartialEq, Eq)]
pub struct ParsedTask {
    pub id: String,
    /// The text of the `priority` field, when the field holds an atom or a
    /// string; reading it as a number is left to the caller (the default
    /// priority is 1).
    pub priority: Option<String>,
    pub capabilities: Vec<String>,
    pub depends_on: Vec<String>,
    pub done: bool,
    pub description: Option<String>,
    /// The owning repository, when the file declares one.
    pub origin: Option<String>,
}

/// The value of a task.
#[verifier::ext_equal]
pub struct TaskV {
    pub id: Seq<char>,
    pub priority: Option<Seq<char>>,
    pub capabilities: Seq<Seq<char>>,
    pub depends_on: Seq<Seq<char>>,
    pub done: bool,
    pub description: Option<Seq<char>>,
    pub origin: Option<Seq<char>>,
}

pub open spec fn opt_view(s: Option<String>) -> Option<Seq<char>> {
    match s {
        Some(t) => Some(t@),
        None => None,
    }
}

pub open spec fn strs_view(v: Seq<String>) -> Seq<Seq<char>> {
    v.map_values(|s: String| s@)
}

impl View for ParsedTask {
    type V = TaskV;

    open spec fn view(&self) -> TaskV {
        TaskV {
            id: self.id@,
            priority: opt_view(self.priority),
            capabilities: strs_view(self.capabilities@),
            depends_on: strs_view(self.depends_on@),
            done: self.done,
            description: opt_view(self.description),
            origin: opt_view(self.origin),
        }
    }
}

/// The value of a `(key . value)` entry whose key is `key`.
pub open spec fn dotted_value(entry: SexpV, key: Seq<char>) -> Option<SexpV> {
    match entry {
        SexpV::List(items) => if items.len() == 3 && items[0] == SexpV::Atom(key) && items[1]
            == SexpV::Atom(seq!['.']) {
            Some(items[2])
        } else {
            None
        },
        _ => None,
    }
}

/// The value of the first `(key . value)` entry among `pairs[k..]`.
pub open spec fn dotted_from(pairs: Seq<SexpV>, key: Seq<char>, k: nat) -> Option<SexpV>
    decreases pairs.len() - k,
{
    if k < pairs.len() {
        match dotted_value(pairs[k as int], key) {
            Some(v) => Some(v),
            None => dotted_from(pairs, key, k + 1),
        }
    } else {
        None
    }
}

/// The text of an atom or a string.
pub open spec fn atom_text_spec(v: SexpV) -> Option<Seq<char>> {
    match v {
        SexpV::Atom(s) => Some(s),
        SexpV::Str(s) => Some(s),
        _ => None,
    }
}

/// The texts of the atoms and strings among `items`, in order.
pub open spec fn texts_of(items: Seq<SexpV>) -> Seq<Seq<char>>
    decreases items.len(),
{
    if items.len() == 0 {
        Seq::empty()
    } else {
        let rest = texts_of(items.drop_last());
        match atom_text_spec(items.last()) {
            Some(t) => rest.push(t),
            None => rest,
        }
    }
}

/// The texts of the atoms and strings of a list; nothing for anything else.
pub open spec fn atoms_of_spec(v: SexpV) -> Seq<Seq<char>> {
    match v {
        SexpV::List(items) => texts_of(items),
        _ => Seq::empty(),
    }
}

pub open spec fn field_text(fields: Seq<SexpV>, key: Seq<char>) -> Option<Seq<char>> {
    match dotted_from(fields, key, 0) {
        Some(v) => atom_text_spec(v),
        None => None,
    }
}

pub open spec fn field_list(fields: Seq<SexpV>, key: Seq<char>) -> Seq<Seq<char>> {
    match dotted_from(fields, key, 0) {
        Some(v) => atoms_of_spec(v),
        None => Seq::empty(),
    }
}

/// The task a `(ID . (fields))` entry with a valid id declares.
pub open spec fn task_spec(id: Seq<char>, fields: Seq<SexpV>) -> TaskV {
    TaskV {
        id,
        priority: field_text(fields, "priority"@),
        capabilities: field_list(fields, "capabilities"@),
        depends_on: field_list(fields, "depends-on"@),
        done: field_text(fields, "done"@) == Some(seq!['t']),
        description: field_text(fields, "description"@),
        origin: field_text(fields, "origin"@),
    }
}

/// What one task entry reads as, or the error it is reported with.
pub open spec fn entry_spec(entry: SexpV) -> Result<TaskV, Seq<char>> {
    match entry {
        SexpV::List(items) => if items.len() != 3 {
            Err("malformed task entry: "@ + text_of(entry))
        } else if atom_text_spec(items[1]) != Some(seq!['.']) {
            Err("malformed task entry (expected `ID . (fields)`): "@ + text_of(entry))
        } else {
            match atom_text_spec(items[0]) {
                None => Err("task id must be an atom or string: "@ + text_of(items[0])),
                Some(id) => match items[2] {
                    SexpV::List(fields) => Ok(task_spec(id, fields)),
                    _ => Err("task `"@ + id + "` fields must be a list"@),
                },
            }
        },
        _ => Err("malformed task entry: "@ + text_of(entry)),
    }
}

/// The tasks of the entries `entries[k..]` in order, or the error of the
/// first malformed one.
pub open spec fn entries_spec(entries: Seq<SexpV>, k: nat) -> Result<Seq<TaskV>, Seq<char>>
    decreases entries.len() - k,
{
    if k < entries.len() {
        match entry_spec(entries[k as int]) {
            Err(e) => Err(e),
            Ok(t) => match entries_spec(entries, k + 1) {
                Err(e) => Err(e),
                Ok(rest) => Ok(seq![t] + rest),
            },
        }
    } else {
        Ok(Seq::empty())
    }
}

/// What a `tasks.my` text reads as.
pub open spec fn tasks_file_spec(text: Seq<char>) -> Result<Seq<TaskV>, Seq<char>> {
    match parse_spec(text) {
        Err(e) => Err(e),
        Ok(SexpV::List(top)) => match dotted_from(top, "tasks"@, 0) {
            None => Err("missing `tasks` field"@),
            Some(SexpV::List(entries)) => entries_spec(entries, 0),
            Some(_) => Err("`tasks` field must be a list"@),
        },
        Ok(_) => Err("top-level form must be a list"@),
    }
}

pub open spec fn tasks_view(v: Seq<ParsedTask>) -> Seq<TaskV> {
    v.map_values(|t: ParsedTask| t@)
}

/// The value of the first `(key . value)` entry among `pairs`.
pub fn dotted_get<'a>(pairs: &'a [Sexp], key: &str) -> (r: Option<&'a Sexp>)
    ensures
        r matches Some(v) ==> dotted_from(deeps(pairs@), key@, 0) == Some(v.deep()),
        r is None ==> dotted_from(deeps(pairs@), key@, 0) is None,
{
    proof {
        lemma_deeps(pairs@);
    }
    let ghost d = deeps(pairs@);
    let mut i: usize = 0;
    while i < pairs.len()
        invariant
            i <= pairs@.len(),
            d == deeps(pairs@),
            d.len() == pairs@.len(),
            forall|j: int| 0 <= j < pairs@.len() ==> #[trigger] d[j] == pairs@[j].deep(),
            dotted_from(d, key@, 0) == dotted_from(d, key@, i as nat),
        decreases pairs@.len() - i,
    {
        if let Sexp::List(items) = &pairs[i] {
            proof {
                lemma_deeps(items@);
            }
            if items.len() == 3 {
                if let Sexp::Atom(k) = &items[0] {
                    if let Sexp::Atom(dot) = &items[1] {
                        if str_eq(dot.as_str(), ".") && str_eq(k.as_str(), key) {
                            proof {
                                reveal_strlit(".");
                                assert(dot@ =~= seq!['.']);
                                assert(dotted_value(d[i as int], key@) == Some(items@[2].deep()));
                            }
                            return Some(&items[2]);
                        }
                        proof {
                            reveal_strlit(".");
                            if dot@ == seq!['.'] {
                                assert(dot@ =~= "."@);
                            }
                        }
                    }
                }
            }
        }
        i = i + 1;
    }
    None
}

fn atom_text(sexp: &Sexp) -> (r: Option<String>)
    ensures
        opt_view(r) == atom_text_spec(sexp.deep()),
{
    match sexp {
        Sexp::Atom(s) => Some(s.clone()),
        Sexp::Str(s) => Some(s.clone()),
        _ => None,
    }
}

fn atoms_of(sexp: &Sexp) -> (r: Vec<String>)
    ensures
        strs_view(r@) == atoms_of_spec(sexp.deep()),
{
    let mut r: Vec<String> = Vec::new();
    match sexp {
        Sexp::List(items) => {
            proof {
                lemma_deeps(items@);
            }
            let ghost d = deeps(items@);
            for i in 0..items.len()
                invariant
                    d == deeps(items@),
                    d.len() == items@.len(),
                    forall|j: int| 0 <= j < items@.len() ==> #[trigger] d[j] == items@[j].deep(),
                    strs_view(r@) == texts_of(d.take(i as int)),
            {
                assert(d.take(i + 1).drop_last() =~= d.take(i as int));
                match &items[i] {
                    Sexp::Atom(s) => {
                        r.push(s.clone());
                    },
                    Sexp::Str(s) => {
                        r.push(s.clone());
                    },
                    _ => {},
                }
                assert(strs_view(r@) =~= texts_of(d.take(i + 1)));
            }
            assert(d.take(d.len() as int) =~= d);
        },
        _ => {},
    }
    assert(strs_view(r@) =~= atoms_of_spec(sexp.deep()));
    r
}


fn message(prefix: &str, tail: &str) -> (r: String)
    ensures
        r@ == prefix@ + tail@,
{
    let mut out = String::new();
    push_str(&mut out, prefix);
    push_str(&mut out, tail);
    assert(out@ =~= prefix@ + tail@);
    out
}

fn entry_task(entry: &Sexp) -> (r: Result<ParsedTask, String>)
    ensures
        r matches Ok(t) ==> entry_spec(entry.deep()) == Ok::<TaskV, Seq<char>>(t@),
        r matches Err(e) ==> entry_spec(entry.deep()) == Err::<TaskV, Seq<char>>(e@),
{
    let items = match entry {
        Sexp::List(items) => items,
        _ => {
            return Err(message("malformed task entry: ", entry.to_text().as_str()));
        },
    };
    proof {
        lemma_deeps(items@);
    }
    if items.len() != 3 {
        return Err(message("malformed task entry: ", entry.to_text().as_str()));
    }
    let dot = atom_text(&items[1]);
    let is_dot = match &dot {
        Some(d) => str_eq(d.as_str(), "."),
        None => false,
    };
    proof {
        reveal_strlit(".");
        if dot is Some {
            assert(seq!['.'] =~= "."@);
        }
    }
    if !is_dot {
        return Err(message("malformed task entry (expected `ID . (fields)`): ", entry.to_text().as_str()));
    }
    let id = match atom_text(&items[0]) {
        Some(id) => id,
        None => {
            return Err(message("task id must be an atom or string: ", items[0].to_text().as_str()));
        },
    };
    let fields = match &items[2] {
        Sexp::List(fields) => fields,
        _ => {
            let mut out = String::new();
            push_str(&mut out, "task `");
            push_str(&mut out, id.as_str());
            push_str(&mut out, "` fields must be a list");
            assert(out@ =~= "task `"@ + id@ + "` fields must be a list"@);
            return Err(out);
        },
    };
    let ghost fv = deeps(fields@);
    let priority = match dotted_get(fields.as_slice(), "priority") {
        Some(v) => atom_text(v),
        None => None,
    };
    let capabilities = match dotted_get(fields.as_slice(), "capabilities") {
        Some(v) => atoms_of(v),
        None => {
            let e: Vec<String> = Vec::new();
            assert(strs_view(e@) =~= Seq::<Seq<char>>::empty());
            e
        },
    };
    let depends_on = match dotted_get(fields.as_slice(), "depends-on") {
        Some(v) => atoms_of(v),
        None => {
            let e: Vec<String> = Vec::new();
            assert(strs_view(e@) =~= Seq::<Seq<char>>::empty());
            e
        },
    };
    let done_text = match dotted_get(fields.as_slice(), "done") {
        Some(v) => atom_text(v),
        None => None,
    };
    let done = match &done_text {
        Some(t) => str_eq(t.as_str(), "t"),
        None => false,
    };
    proof {
        reveal_strlit("t");
        if done_text is Some {
            assert(seq!['t'] =~= "t"@);
        }
    }
    let description = match dotted_get(fields.as_slice(), "description") {
        Some(v) => atom_text(v),
        None => None,
    };
    let origin = match dotted_get(fields.as_slice(), "origin") {
        Some(v) => atom_text(v),
        None => None,
    };
    let t = ParsedTask { id, priority, capabilities, depends_on, done, description, origin };
    assert(t@ == task_spec(id@, fv));
    Ok(t)
}

/// Reads a `tasks.my` text: its tasks in file order, or an error naming
/// the first structural problem.
pub fn parse_tasks_file(text: &str) -> (r: Result<Vec<ParsedTask>, String>)
    ensures
        r matches Ok(ts) ==> tasks_file_spec(text@) == Ok::<Seq<TaskV>, Seq<char>>(tasks_view(ts@)),
        r matches Err(e) ==> tasks_file_spec(text@) == Err::<Seq<TaskV>, Seq<char>>(e@),
{
    let top = match parse(text) {
        Ok(t) => t,
        Err(e) => {
            return Err(e);
        },
    };
    let top_items = match &top {
        Sexp::List(items) => items,
        _ => {
            return Err(String::from_str("top-level form must be a list"));
        },
    };
    let tasks_field = match dotted_get(top_items.as_slice(), "tasks") {
        Some(f) => f,
        None => {
            return Err(String::from_str("missing `tasks` field"));
        },
    };
    let entries = match tasks_field {
        Sexp::List(entries) => entries,
        _ => {
            return Err(String::from_str("`tasks` field must be a list"));
        },
    };
    proof {
        lemma_deeps(entries@);
    }
    let ghost d = deeps(entries@);
    let mut parsed: Vec<ParsedTask> = Vec::new();
    for i in 0..entries.len()
        invariant
            d == deeps(entries@),
            d.len() == entries@.len(),
            forall|j: int| 0 <= j < entries@.len() ==> #[trigger] d[j] == entries@[j].deep(),
            tasks_file_spec(text@) == entries_spec(d, 0),
            entries_spec(d, 0) == (match entries_spec(d, i as nat) {
                Err(e) => Err(e),
                Ok(rest) => Ok(tasks_view(parsed@) + rest),
            }),
    {
        match entry_task(&entries[i]) {
            Ok(t) => {
                let ghost before = parsed@;
                parsed.push(t);
                proof {
                    assert(tasks_view(parsed@) =~= tasks_view(before).push(t@));
                    match entries_spec(d, (i + 1) as nat) {
                        Err(e) => {},
                        Ok(rest) => {
                            assert(tasks_view(before) + (seq![t@] + rest) =~= tasks_view(parsed@) + rest);
                        },
                    }
                }
            },
            Err(e) => {
                return Err(e);
            },
        }
    }
    assert(tasks_view(parsed@) + Seq::<TaskV>::empty() =~= tasks_view(parsed@));
    Ok(parsed)
}

} // verus!
