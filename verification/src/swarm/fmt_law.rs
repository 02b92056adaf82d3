//! The canonical `tasks.my` text reads back as the tasks it was written
//! from (each with the priority text it was written with), so formatting a
//! formatted file changes nothing.

use vstd::prelude::*;
use crate::scheduler::sexpr::{
    escape, esc_char, lay_join, lay_ok, lay_ok_from, lay_text, lay_value, lay_values,
    lemma_lay_round_trip, lemma_lay_values, plain_atom, ws_only, Layout, SexpV,
};
use crate::scheduler::tasks_file::{
    atom_text_spec, dotted_from, dotted_value, entries_spec, entry_spec, field_list, field_text,
    task_spec, tasks_file_spec, texts_of, TaskV,
};
use crate::swarm::ops::{
    canonical_text, caps_part, deps_part, desc_part, done_part, entry_head, join_spaces,
    origin_part, task_entries_text, task_entry_text,
};
use crate::text::{debug_text, quiet_text};

verus! {

// ---------------------------------------------------------------------------
// Lists built one item at a time

proof fn lemma_lay_join_push(
    ws: Seq<Seq<char>>,
    items: Seq<Layout>,
    w: Seq<char>,
    x: Layout,
    k: nat,
)
    requires
        ws.len() == items.len(),
        k <= items.len(),
    ensures
        lay_join(ws.push(w), items.push(x), k) == lay_join(ws, items, k) + w + lay_text(x),
    decreases items.len() - k,
{
    if k < items.len() {
        lemma_lay_join_push(ws, items, w, x, k + 1);
        assert(ws.push(w)[k as int] == ws[k as int]);
        assert(items.push(x)[k as int] == items[k as int]);
        assert(lay_join(ws.push(w), items.push(x), k) =~= lay_join(ws, items, k) + w + lay_text(x));
    } else {
        assert(ws.push(w)[k as int] == w);
        assert(items.push(x)[k as int] == x);
        assert(lay_join(ws.push(w), items.push(x), k + 1) == Seq::<char>::empty());
        assert(lay_join(ws.push(w), items.push(x), k) =~= w + lay_text(x));
    }
}

proof fn lemma_lay_ok_push(ws: Seq<Seq<char>>, items: Seq<Layout>, w: Seq<char>, x: Layout, k: nat)
    requires
        ws.len() == items.len(),
        k <= items.len(),
        lay_ok_from(ws, items, k),
        ws_only(w),
        items.len() > 0 ==> w.len() > 0,
        lay_ok(x),
    ensures
        lay_ok_from(ws.push(w), items.push(x), k),
    decreases items.len() - k,
{
    if k < items.len() {
        lemma_lay_ok_push(ws, items, w, x, k + 1);
        assert(ws.push(w)[k as int] == ws[k as int]);
        assert(items.push(x)[k as int] == items[k as int]);
    } else {
        assert(ws.push(w)[k as int] == w);
        assert(items.push(x)[k as int] == x);
        assert(lay_ok_from(ws.push(w), items.push(x), k + 1));
    }
}

proof fn lemma_dotted_push(vs: Seq<SexpV>, x: SexpV, key: Seq<char>, k: nat)
    requires
        k <= vs.len(),
    ensures
        dotted_from(vs.push(x), key, k) == match dotted_from(vs, key, k) {
            Some(v) => Some(v),
            None => dotted_value(x, key),
        },
    decreases vs.len() - k,
{
    if k < vs.len() {
        lemma_dotted_push(vs, x, key, k + 1);
        assert(vs.push(x)[k as int] == vs[k as int]);
    } else {
        assert(vs.push(x)[k as int] == x);
        assert(dotted_from(vs.push(x), key, k + 1) == None::<SexpV>);
    }
}

/// The texts of atoms or strings `c[i]`, one per item, are `c`.
proof fn lemma_texts_of_each(vs: Seq<SexpV>, c: Seq<Seq<char>>)
    requires
        vs.len() == c.len(),
        forall|i: int| 0 <= i < vs.len() ==> atom_text_spec(#[trigger] vs[i]) == Some(c[i]),
    ensures
        texts_of(vs) == c,
    decreases vs.len(),
{
    if vs.len() > 0 {
        lemma_texts_of_each(vs.drop_last(), c.drop_last());
        assert(atom_text_spec(vs[vs.len() - 1]) == Some(c[c.len() - 1]));
        assert(c =~= c.drop_last().push(c.last()));
    } else {
        assert(c =~= Seq::<Seq<char>>::empty());
    }
}

/// Text that has neither a backslash nor a double quote is its own escape.
proof fn lemma_escape_plain(s: Seq<char>)
    requires
        forall|i: int| 0 <= i < s.len() ==> #[trigger] s[i] != '"' && s[i] != '\\',
    ensures
        escape(s) == s,
    decreases s.len(),
{
    if s.len() > 0 {
        assert forall|i: int| 0 <= i < s.drop_first().len() implies #[trigger] s.drop_first()[i]
            != '"' && s.drop_first()[i] != '\\' by {
            assert(s.drop_first()[i] == s[i + 1]);
        }
        lemma_escape_plain(s.drop_first());
        assert(esc_char(s[0]) == seq![s[0]]);
        assert(escape(s) =~= s);
    }
}

// ---------------------------------------------------------------------------
// Space-separated lists

pub open spec fn space_ws(n: nat) -> Seq<Seq<char>> {
    Seq::new(n, |i: int| if i == 0 { Seq::<char>::empty() } else { seq![' '] })
}

/// A list written `(a b c)`.
pub open spec fn spaced(xs: Seq<Layout>) -> Layout {
    Layout::List(space_ws(xs.len()), xs, Seq::empty())
}

pub open spec fn texts_seq(xs: Seq<Layout>) -> Seq<Seq<char>> {
    Seq::new(xs.len(), |i: int| lay_text(xs[i]))
}

proof fn lemma_spaced_join(xs: Seq<Layout>)
    ensures
        lay_join(space_ws(xs.len()), xs, 0) == join_spaces(texts_seq(xs)),
    decreases xs.len(),
{
    if xs.len() > 0 {
        let n = xs.len();
        let d = xs.drop_last();
        lemma_spaced_join(d);
        let sep: Seq<char> = if n - 1 == 0 { Seq::empty() } else { seq![' '] };
        assert(space_ws(n) =~= space_ws(d.len()).push(sep));
        assert(xs =~= d.push(xs.last()));
        lemma_lay_join_push(space_ws(d.len()), d, sep, xs.last(), 0);
        assert(texts_seq(d) =~= texts_seq(xs).drop_last());
        if n == 1 {
            assert(lay_join(space_ws(0), d, 0) == Seq::<char>::empty());
            assert(join_spaces(texts_seq(xs)) == texts_seq(xs)[0]);
            assert(lay_join(space_ws(n), xs, 0) =~= lay_text(xs[0]));
        } else {
            assert(join_spaces(texts_seq(xs)) == join_spaces(texts_seq(xs).drop_last()) + seq![' ']
                + texts_seq(xs).last());
        }
    } else {
        assert(lay_join(space_ws(0), xs, 0) == Seq::<char>::empty());
    }
}

proof fn lemma_spaced_ok(xs: Seq<Layout>)
    requires
        forall|i: int| 0 <= i < xs.len() ==> lay_ok(#[trigger] xs[i]),
    ensures
        lay_ok(spaced(xs)),
    decreases xs.len(),
{
    if xs.len() > 0 {
        let n = xs.len();
        let d = xs.drop_last();
        assert forall|i: int| 0 <= i < d.len() implies lay_ok(#[trigger] d[i]) by {
            assert(d[i] == xs[i]);
        }
        lemma_spaced_ok(d);
        let sep: Seq<char> = if n - 1 == 0 { Seq::empty() } else { seq![' '] };
        assert(space_ws(n) =~= space_ws(d.len()).push(sep));
        assert(xs =~= d.push(xs.last()));
        assert(lay_ok(xs[n - 1]));
        lemma_lay_ok_push(space_ws(d.len()), d, sep, xs.last(), 0);
    }
    assert(ws_only(Seq::<char>::empty()));
}

// ---------------------------------------------------------------------------
// One task entry

/// Rust's debug form writes quiet text just between quotes (what
/// `debug_str` states of each of its calls).
pub open spec fn debug_quotes_quiet() -> bool {
    forall|s: Seq<char>| quiet_text(s) ==> #[trigger] debug_text(s) == seq!['"'] + s + seq!['"']
}

/// `(key . value)`.
pub open spec fn pair_lay(key: Seq<char>, v: Layout) -> Layout {
    Layout::List(
        seq![Seq::<char>::empty(), seq![' '], seq![' ']],
        seq![Layout::Atom(key), Layout::Atom(seq!['.']), v],
        Seq::empty(),
    )
}

proof fn lemma_pair(key: Seq<char>, v: Layout)
    ensures
        lay_text(pair_lay(key, v)) == seq!['('] + key + seq![' ', '.', ' '] + lay_text(v) + seq![')'],
        lay_value(pair_lay(key, v)) == SexpV::List(
            seq![SexpV::Atom(key), SexpV::Atom(seq!['.']), lay_value(v)],
        ),
        plain_atom(key) && lay_ok(v) ==> lay_ok(pair_lay(key, v)),
{
    let ws = seq![Seq::<char>::empty(), seq![' '], seq![' ']];
    let items = seq![Layout::Atom(key), Layout::Atom(seq!['.']), v];
    assert(lay_join(ws, items, 3) == Seq::<char>::empty());
    assert(ws[1] == seq![' ']);
    assert(ws[2] == seq![' ']);
    assert(ws[0] == Seq::<char>::empty());
    assert(items[1] == Layout::Atom(seq!['.']));
    assert(lay_text(items[1]) == seq!['.']);
    assert(lay_text(items[0]) == key);
    assert(lay_join(ws, items, 2) =~= seq![' '] + lay_text(v));
    assert(lay_join(ws, items, 1) =~= seq![' ', '.'] + seq![' '] + lay_text(v));
    assert(lay_join(ws, items, 0) =~= key + seq![' ', '.'] + seq![' '] + lay_text(v));
    assert(lay_text(pair_lay(key, v)) =~= seq!['('] + key + seq![' ', '.', ' '] + lay_text(v) + seq![
        ')',
    ]);
    lemma_lay_values(items, 0);
    assert(lay_values(items, 0) =~= seq![SexpV::Atom(key), SexpV::Atom(seq!['.']), lay_value(v)]);
    assert(plain_atom(seq!['.']));
    assert(ws_only(Seq::<char>::empty()));
    assert(ws_only(seq![' ']));
    if plain_atom(key) && lay_ok(v) {
        assert(items[2] == v);
        assert(items[0] == Layout::Atom(key));
        assert(lay_ok(items[1]));
        assert(lay_ok(items[2]));
        assert(lay_ok(items[0]));
        assert(ws_only(ws[2]) && ws_only(ws[1]) && ws_only(ws[0]));
        assert(lay_ok_from(ws, items, 3));
        assert(lay_ok_from(ws, items, 2));
        assert(lay_ok_from(ws, items, 1));
        assert(lay_ok_from(ws, items, 0));
    }
}

pub open spec fn cap_atoms(t: TaskV) -> Seq<Layout> {
    t.capabilities.map_values(|c: Seq<char>| Layout::Atom(c))
}

pub open spec fn dep_strs(t: TaskV) -> Seq<Layout> {
    t.depends_on.map_values(|d: Seq<char>| Layout::Str(d))
}

pub open spec fn done_lay(d: bool) -> Layout {
    if d {
        Layout::Atom(seq!['t'])
    } else {
        Layout::List(Seq::empty(), Seq::empty(), Seq::empty())
    }
}

/// The fields of a task's entry, as `(key, value)` pairs.
pub open spec fn field_kv(t: TaskV, p: Seq<char>) -> Seq<(Seq<char>, Layout)> {
    let a = seq![("priority"@, Layout::Atom(p))];
    let b = if t.capabilities.len() > 0 {
        a.push(("capabilities"@, spaced(cap_atoms(t))))
    } else {
        a
    };
    let c = if t.depends_on.len() > 0 {
        b.push(("depends-on"@, spaced(dep_strs(t))))
    } else {
        b
    };
    let d = c.push(("done"@, done_lay(t.done)));
    let e = match t.description {
        Some(x) => d.push(("description"@, Layout::Str(x))),
        None => d,
    };
    match t.origin {
        Some(o) => e.push(("origin"@, Layout::Atom(o))),
        None => e,
    }
}

pub open spec fn pairs_of(kv: Seq<(Seq<char>, Layout)>) -> Seq<Layout> {
    kv.map_values(|e: (Seq<char>, Layout)| pair_lay(e.0, e.1))
}

pub open spec fn nl4() -> Seq<char> {
    seq!['\n', ' ', ' ', ' ', ' ']
}

pub open spec fn fields_ws(n: nat) -> Seq<Seq<char>> {
    Seq::new(n, |i: int| nl4())
}

/// The entry `("ID" . (fields))` of a task, laid out as written.
pub open spec fn entry_lay(t: TaskV, p: Seq<char>) -> Layout {
    let fl = pairs_of(field_kv(t, p));
    Layout::List(
        seq![Seq::<char>::empty(), seq![' '], seq![' ']],
        seq![
            Layout::Str(t.id),
            Layout::Atom(seq!['.']),
            Layout::List(fields_ws(fl.len()), fl, seq!['\n', ' ', ' ']),
        ],
        Seq::empty(),
    )
}

/// The first field value stored under `key` among `kv[k..]`.
pub open spec fn kv_lookup(kv: Seq<(Seq<char>, Layout)>, key: Seq<char>, k: nat) -> Option<Layout>
    decreases kv.len() - k,
{
    if k < kv.len() {
        if kv[k as int].0 == key {
            Some(kv[k as int].1)
        } else {
            kv_lookup(kv, key, k + 1)
        }
    } else {
        None
    }
}

proof fn lemma_kv_lookup_push(kv: Seq<(Seq<char>, Layout)>, x: (Seq<char>, Layout), k: nat)
    requires
        k <= kv.len(),
    ensures
        forall|key: Seq<char>|
            #[trigger] kv_lookup(kv.push(x), key, k) == match kv_lookup(kv, key, k) {
                Some(v) => Some(v),
                None => if x.0 == key {
                    Some(x.1)
                } else {
                    None
                },
            },
    decreases kv.len() - k,
{
    if k < kv.len() {
        lemma_kv_lookup_push(kv, x, k + 1);
        assert(kv.push(x)[k as int] == kv[k as int]);
        assert forall|key: Seq<char>|
            #[trigger] kv_lookup(kv.push(x), key, k) == match kv_lookup(kv, key, k) {
                Some(v) => Some(v),
                None => if x.0 == key {
                    Some(x.1)
                } else {
                    None
                },
            } by {
            assert(kv_lookup(kv.push(x), key, k + 1) == match kv_lookup(kv, key, k + 1) {
                Some(v) => Some(v),
                None => if x.0 == key {
                    Some(x.1)
                } else {
                    None
                },
            });
        }
    } else {
        assert(kv.push(x)[k as int] == x);
        assert forall|key: Seq<char>|
            #[trigger] kv_lookup(kv.push(x), key, k) == match kv_lookup(kv, key, k) {
                Some(v) => Some(v),
                None => if x.0 == key {
                    Some(x.1)
                } else {
                    None
                },
            } by {
            assert(kv_lookup(kv.push(x), key, k + 1) == None::<Layout>);
            assert(kv_lookup(kv, key, k) == None::<Layout>);
        }
    }
}

/// Reading the fields' values finds what the pairs store.
proof fn lemma_dotted_kv(kv: Seq<(Seq<char>, Layout)>, key: Seq<char>, k: nat)
    requires
        k <= kv.len(),
    ensures
        dotted_from(lay_values(pairs_of(kv), 0), key, k) == match kv_lookup(kv, key, k) {
            Some(v) => Some(lay_value(v)),
            None => None::<SexpV>,
        },
    decreases kv.len() - k,
{
    lemma_lay_values(pairs_of(kv), 0);
    if k < kv.len() {
        lemma_dotted_kv(kv, key, k + 1);
        lemma_pair(kv[k as int].0, kv[k as int].1);
        assert(lay_values(pairs_of(kv), 0)[k as int] == lay_value(pair_lay(kv[k as int].0, kv[k as int].1)));
    }
}

// ---------------------------------------------------------------------------
// The text of an entry, part by part

/// A field line: four spaces, `(key . value)`, a newline.
pub open spec fn kv_part(e: (Seq<char>, Layout)) -> Seq<char> {
    seq![' ', ' ', ' ', ' '] + lay_text(pair_lay(e.0, e.1)) + seq!['\n']
}

pub open spec fn kv_parts(kv: Seq<(Seq<char>, Layout)>) -> Seq<char>
    decreases kv.len(),
{
    if kv.len() == 0 {
        Seq::empty()
    } else {
        kv_parts(kv.drop_last()) + kv_part(kv.last())
    }
}

proof fn lemma_kv_parts_push(kv: Seq<(Seq<char>, Layout)>, x: (Seq<char>, Layout))
    ensures
        kv_parts(kv.push(x)) == kv_parts(kv) + kv_part(x),
{
    assert(kv.push(x).drop_last() =~= kv);
}

proof fn lemma_quiet_plain(s: Seq<char>)
    requires
        quiet_text(s),
    ensures
        escape(s) == s,
{
    assert forall|i: int| 0 <= i < s.len() implies #[trigger] s[i] != '"' && s[i] != '\\' by {}
    lemma_escape_plain(s);
}

proof fn lemma_part_priority(p: Seq<char>)
    ensures
        kv_part(("priority"@, Layout::Atom(p))) == "    (priority . "@ + p + ")\n"@,
{
    lemma_pair("priority"@, Layout::Atom(p));
    reveal_strlit("priority");
    reveal_strlit("    (priority . ");
    reveal_strlit(")\n");
    assert(kv_part(("priority"@, Layout::Atom(p))) =~= "    (priority . "@ + p + ")\n"@);
}

proof fn lemma_part_caps(t: TaskV)
    requires
        t.capabilities.len() > 0,
    ensures
        kv_part(("capabilities"@, spaced(cap_atoms(t)))) == caps_part(t),
{
    let xs = cap_atoms(t);
    lemma_pair("capabilities"@, spaced(xs));
    lemma_spaced_join(xs);
    assert(texts_seq(xs) =~= t.capabilities);
    assert(lay_text(spaced(xs)) =~= seq!['('] + join_spaces(t.capabilities) + seq![')']);
    reveal_strlit("capabilities");
    reveal_strlit("    (capabilities . (");
    reveal_strlit("))\n");
    assert(kv_part(("capabilities"@, spaced(xs))) =~= "    (capabilities . ("@ + join_spaces(
        t.capabilities,
    ) + "))\n"@);
}

proof fn lemma_part_deps(t: TaskV)
    requires
        t.depends_on.len() > 0,
        debug_quotes_quiet(),
        forall|i: int| 0 <= i < t.depends_on.len() ==> quiet_text(#[trigger] t.depends_on[i]),
    ensures
        kv_part(("depends-on"@, spaced(dep_strs(t)))) == deps_part(t),
{
    let xs = dep_strs(t);
    let qs = t.depends_on.map_values(|d: Seq<char>| debug_text(d));
    lemma_pair("depends-on"@, spaced(xs));
    lemma_spaced_join(xs);
    assert forall|i: int| 0 <= i < xs.len() implies #[trigger] texts_seq(xs)[i] == qs[i] by {
        let d = t.depends_on[i];
        lemma_quiet_plain(d);
        assert(debug_text(d) == seq!['"'] + d + seq!['"']);
        assert(xs[i] == Layout::Str(d));
    }
    assert(texts_seq(xs) =~= qs);
    assert(lay_text(spaced(xs)) =~= seq!['('] + join_spaces(qs) + seq![')']);
    reveal_strlit("depends-on");
    reveal_strlit("    (depends-on . (");
    reveal_strlit("))\n");
    assert(kv_part(("depends-on"@, spaced(xs))) =~= "    (depends-on . ("@ + join_spaces(qs)
        + "))\n"@);
}

proof fn lemma_part_done(t: TaskV)
    ensures
        kv_part(("done"@, done_lay(t.done))) == done_part(t),
{
    lemma_pair("done"@, done_lay(t.done));
    reveal_strlit("done");
    reveal_strlit("    (done . ");
    reveal_strlit("()");
    reveal_strlit(")\n");
    if !t.done {
        assert(lay_join(Seq::empty(), Seq::<Layout>::empty(), 0) == Seq::<char>::empty());
        assert(lay_text(done_lay(false)) =~= "()"@);
    }
    assert(kv_part(("done"@, done_lay(t.done))) =~= done_part(t));
}

proof fn lemma_part_desc(t: TaskV, x: Seq<char>)
    requires
        t.description == Some(x),
        quiet_text(x),
        debug_quotes_quiet(),
    ensures
        kv_part(("description"@, Layout::Str(x))) == desc_part(t),
{
    lemma_pair("description"@, Layout::Str(x));
    lemma_quiet_plain(x);
    assert(debug_text(x) == seq!['"'] + x + seq!['"']);
    reveal_strlit("description");
    reveal_strlit("    (description . ");
    reveal_strlit(")\n");
    assert(kv_part(("description"@, Layout::Str(x))) =~= desc_part(t));
}

proof fn lemma_part_origin(t: TaskV, o: Seq<char>)
    requires
        t.origin == Some(o),
    ensures
        kv_part(("origin"@, Layout::Atom(o))) == origin_part(t),
{
    lemma_pair("origin"@, Layout::Atom(o));
    reveal_strlit("origin");
    reveal_strlit("    (origin . ");
    reveal_strlit(")\n");
    assert(kv_part(("origin"@, Layout::Atom(o))) =~= origin_part(t));
}

/// A task and priority text whose canonical entry reads back as written:
/// an id without quotes or backslashes, a plain priority, plain
/// capabilities and origin, and quiet dependencies and description.
pub open spec fn fmt_safe(t: TaskV, p: Seq<char>) -> bool {
    &&& forall|i: int| 0 <= i < t.id.len() ==> #[trigger] t.id[i] != '"' && t.id[i] != '\\'
    &&& plain_atom(p)
    &&& forall|i: int| 0 <= i < t.capabilities.len() ==> plain_atom(#[trigger] t.capabilities[i])
    &&& forall|i: int| 0 <= i < t.depends_on.len() ==> quiet_text(#[trigger] t.depends_on[i])
    &&& (t.description matches Some(x) ==> quiet_text(x))
    &&& (t.origin matches Some(o) ==> plain_atom(o))
}

#[verifier::spinoff_prover]
proof fn lemma_fields_text(t: TaskV, p: Seq<char>)
    requires
        fmt_safe(t, p),
        debug_quotes_quiet(),
    ensures
        kv_parts(field_kv(t, p)) == "    (priority . "@ + p + ")\n"@ + caps_part(t) + deps_part(t)
            + done_part(t) + desc_part(t) + origin_part(t),
{
    let a = seq![("priority"@, Layout::Atom(p))];
    assert(a.drop_last() =~= Seq::<(Seq<char>, Layout)>::empty());
    lemma_part_priority(p);
    assert(kv_parts(a) == kv_parts(a.drop_last()) + kv_part(a.last()));
    assert(kv_parts(a) =~= "    (priority . "@ + p + ")\n"@);
    let b = if t.capabilities.len() > 0 {
        a.push(("capabilities"@, spaced(cap_atoms(t))))
    } else {
        a
    };
    if t.capabilities.len() > 0 {
        lemma_kv_parts_push(a, ("capabilities"@, spaced(cap_atoms(t))));
        lemma_part_caps(t);
    }
    assert(kv_parts(b) =~= kv_parts(a) + caps_part(t));
    let c = if t.depends_on.len() > 0 {
        b.push(("depends-on"@, spaced(dep_strs(t))))
    } else {
        b
    };
    if t.depends_on.len() > 0 {
        lemma_kv_parts_push(b, ("depends-on"@, spaced(dep_strs(t))));
        lemma_part_deps(t);
    }
    assert(kv_parts(c) =~= kv_parts(b) + deps_part(t));
    let d = c.push(("done"@, done_lay(t.done)));
    lemma_kv_parts_push(c, ("done"@, done_lay(t.done)));
    lemma_part_done(t);
    assert(kv_parts(d) == kv_parts(c) + done_part(t));
    let e = match t.description {
        Some(x) => d.push(("description"@, Layout::Str(x))),
        None => d,
    };
    match t.description {
        Some(x) => {
            lemma_kv_parts_push(d, ("description"@, Layout::Str(x)));
            lemma_part_desc(t, x);
        },
        None => {},
    }
    assert(kv_parts(e) =~= kv_parts(d) + desc_part(t));
    let f = match t.origin {
        Some(o) => e.push(("origin"@, Layout::Atom(o))),
        None => e,
    };
    match t.origin {
        Some(o) => {
            lemma_kv_parts_push(e, ("origin"@, Layout::Atom(o)));
            lemma_part_origin(t, o);
        },
        None => {},
    }
    assert(kv_parts(f) =~= kv_parts(e) + origin_part(t));
    assert(f == field_kv(t, p));
    assert(kv_parts(f) =~= "    (priority . "@ + p + ")\n"@ + caps_part(t) + deps_part(t)
        + done_part(t) + desc_part(t) + origin_part(t));
}

proof fn lemma_fields_join(kv: Seq<(Seq<char>, Layout)>)
    ensures
        seq!['\n'] + kv_parts(kv) == lay_join(fields_ws(kv.len()), pairs_of(kv), 0) + seq!['\n'],
    decreases kv.len(),
{
    if kv.len() == 0 {
        assert(lay_join(fields_ws(0), pairs_of(kv), 0) == Seq::<char>::empty());
        assert(seq!['\n'] + kv_parts(kv) =~= seq!['\n']);
    } else {
        let d = kv.drop_last();
        let x = kv.last();
        lemma_fields_join(d);
        assert(fields_ws(kv.len()) =~= fields_ws(d.len()).push(nl4()));
        assert(pairs_of(kv) =~= pairs_of(d).push(pair_lay(x.0, x.1)));
        lemma_lay_join_push(fields_ws(d.len()), pairs_of(d), nl4(), pair_lay(x.0, x.1), 0);
        assert(kv_parts(kv) == kv_parts(d) + kv_part(x));
        assert(lay_join(fields_ws(kv.len()), pairs_of(kv), 0) == lay_join(
            fields_ws(d.len()),
            pairs_of(d),
            0,
        ) + nl4() + lay_text(pair_lay(x.0, x.1)));
        let jd = lay_join(fields_ws(d.len()), pairs_of(d), 0);
        let pt = lay_text(pair_lay(x.0, x.1));
        assert(seq!['\n'] + kv_parts(kv) =~= (seq!['\n'] + kv_parts(d)) + kv_part(x));
        assert((jd + seq!['\n']) + kv_part(x) =~= jd + nl4() + pt + seq!['\n']);
    }
}

/// The text of a task's laid-out entry.
#[verifier::spinoff_prover]
proof fn lemma_entry_lay_text(t: TaskV, p: Seq<char>)
    requires
        forall|i: int| 0 <= i < t.id.len() ==> #[trigger] t.id[i] != '"' && t.id[i] != '\\',
    ensures
        lay_text(entry_lay(t, p)) == seq!['(', '"'] + t.id + seq!['"', ' ', '.', ' ', '('] + lay_join(
            fields_ws(pairs_of(field_kv(t, p)).len()),
            pairs_of(field_kv(t, p)),
            0,
        ) + seq!['\n', ' ', ' ', ')', ')'],
{
    let fl = pairs_of(field_kv(t, p));
    let j = lay_join(fields_ws(fl.len()), fl, 0);
    lemma_escape_plain(t.id);
    let inner = Layout::List(fields_ws(fl.len()), fl, seq!['\n', ' ', ' ']);
    assert(lay_text(inner) =~= seq!['('] + j + seq!['\n', ' ', ' '] + seq![')']);
    let ws = seq![Seq::<char>::empty(), seq![' '], seq![' ']];
    let items = seq![Layout::Str(t.id), Layout::Atom(seq!['.']), inner];
    assert(ws[1] == seq![' ']);
    assert(ws[2] == seq![' ']);
    assert(ws[0] == Seq::<char>::empty());
    assert(items[2] == inner);
    assert(lay_text(items[1]) == seq!['.']);
    assert(lay_text(items[0]) == seq!['"'] + t.id + seq!['"']);
    assert(lay_join(ws, items, 3) == Seq::<char>::empty());
    assert(lay_join(ws, items, 2) =~= seq![' '] + lay_text(inner));
    assert(lay_join(ws, items, 1) =~= seq![' ', '.'] + seq![' '] + lay_text(inner));
    assert(lay_join(ws, items, 0) =~= seq!['"'] + t.id + seq!['"'] + seq![' ', '.'] + seq![' ']
        + lay_text(inner));
    assert(entry_lay(t, p) == Layout::List(ws, items, Seq::empty()));
    assert(lay_text(entry_lay(t, p)) =~= seq!['('] + lay_join(ws, items, 0) + seq![')']);
    assert(lay_text(entry_lay(t, p)) =~= seq!['(', '"'] + t.id + seq!['"', ' ', '.', ' ', '('] + j
        + seq!['\n', ' ', ' ', ')', ')']);
}

proof fn lemma_entry_head(t: TaskV, p: Seq<char>)
    ensures
        entry_head(t, p) == seq![' ', ' ', '(', '"'] + t.id + seq!['"', ' ', '.', ' ', '(']
            + seq!['\n'] + ("    (priority . "@ + p + ")\n"@),
{
    reveal_strlit("  (\"");
    reveal_strlit("\" . (\n");
    assert(entry_head(t, p) =~= seq![' ', ' ', '(', '"'] + t.id + seq!['"', ' ', '.', ' ', '(']
        + seq!['\n'] + ("    (priority . "@ + p + ")\n"@));
}

proof fn lemma_entry_tail()
    ensures
        "  ))\n"@ == seq![' ', ' ', ')', ')', '\n'],
{
    reveal_strlit("  ))\n");
}

proof fn lemma_entry_assoc(
    id: Seq<char>,
    j: Seq<char>,
    prio: Seq<char>,
    rest: Seq<char>,
    head: Seq<char>,
    lay: Seq<char>,
)
    requires
        head == seq![' ', ' ', '(', '"'] + id + seq!['"', ' ', '.', ' ', '('] + seq!['\n'] + prio,
        seq!['\n'] + (prio + rest) == j + seq!['\n'],
        lay == seq!['(', '"'] + id + seq!['"', ' ', '.', ' ', '('] + j + seq!['\n', ' ', ' ', ')', ')'],
    ensures
        head + rest + seq![' ', ' ', ')', ')', '\n'] == seq![' ', ' '] + lay + seq!['\n'],
{
    let e0 = seq![' ', ' ', '(', '"'] + id + seq!['"', ' ', '.', ' ', '('];
    assert(head + rest =~= e0 + (seq!['\n'] + (prio + rest)));
    assert(head + rest + seq![' ', ' ', ')', ')', '\n'] =~= e0 + j + seq!['\n'] + seq![
        ' ',
        ' ',
        ')',
        ')',
        '\n',
    ]);
    assert(head + rest + seq![' ', ' ', ')', ')', '\n'] =~= seq![' ', ' '] + lay + seq!['\n']);
}

/// A task's canonical entry is its laid-out entry, indented by two spaces
/// and ended by a newline.
#[verifier::spinoff_prover]
proof fn lemma_entry_text(t: TaskV, p: Seq<char>)
    requires
        fmt_safe(t, p),
        debug_quotes_quiet(),
    ensures
        task_entry_text(t, p) == seq![' ', ' '] + lay_text(entry_lay(t, p)) + seq!['\n'],
{
    let kv = field_kv(t, p);
    let fl = pairs_of(kv);
    let j = lay_join(fields_ws(fl.len()), fl, 0);
    let prio = "    (priority . "@ + p + ")\n"@;
    let rest = caps_part(t) + deps_part(t) + done_part(t) + desc_part(t) + origin_part(t);
    lemma_fields_text(t, p);
    lemma_fields_join(kv);
    lemma_entry_lay_text(t, p);
    lemma_entry_head(t, p);
    lemma_entry_tail();
    assert(kv_parts(kv) =~= prio + rest);
    assert(task_entry_text(t, p) =~= entry_head(t, p) + rest + "  ))\n"@);
    lemma_entry_assoc(t.id, j, prio, rest, entry_head(t, p), lay_text(entry_lay(t, p)));
}

// ---------------------------------------------------------------------------
// What an entry reads as

/// The task with its priority given as the text `p`.
pub open spec fn with_priority(t: TaskV, p: Seq<char>) -> TaskV {
    TaskV {
        id: t.id,
        priority: Some(p),
        capabilities: t.capabilities,
        depends_on: t.depends_on,
        done: t.done,
        description: t.description,
        origin: t.origin,
    }
}

/// Each task with its priority text, position for position.
pub open spec fn with_priorities(ts: Seq<TaskV>, ps: Seq<Seq<char>>) -> Seq<TaskV> {
    Seq::new(ts.len(), |i: int| with_priority(ts[i], ps[i]))
}

proof fn lemma_key_lengths()
    ensures
        "priority"@.len() == 8,
        "capabilities"@.len() == 12,
        "depends-on"@.len() == 10,
        "done"@.len() == 4,
        "description"@.len() == 11,
        "origin"@.len() == 6,
{
    reveal_strlit("priority");
    reveal_strlit("capabilities");
    reveal_strlit("depends-on");
    reveal_strlit("done");
    reveal_strlit("description");
    reveal_strlit("origin");
}

pub open spec fn lay_of_list(n: nat, l: Layout) -> Option<Layout> {
    if n > 0 {
        Some(l)
    } else {
        None
    }
}

#[verifier::spinoff_prover]
proof fn lemma_field_lookup(t: TaskV, p: Seq<char>)
    ensures
        kv_lookup(field_kv(t, p), "priority"@, 0) == Some(Layout::Atom(p)),
        kv_lookup(field_kv(t, p), "capabilities"@, 0) == lay_of_list(
            t.capabilities.len(),
            spaced(cap_atoms(t)),
        ),
        kv_lookup(field_kv(t, p), "depends-on"@, 0) == lay_of_list(
            t.depends_on.len(),
            spaced(dep_strs(t)),
        ),
        kv_lookup(field_kv(t, p), "done"@, 0) == Some(done_lay(t.done)),
        kv_lookup(field_kv(t, p), "description"@, 0) == match t.description {
            Some(x) => Some(Layout::Str(x)),
            None => None,
        },
        kv_lookup(field_kv(t, p), "origin"@, 0) == match t.origin {
            Some(o) => Some(Layout::Atom(o)),
            None => None,
        },
{
    lemma_key_lengths();
    let a = seq![("priority"@, Layout::Atom(p))];
    assert forall|key: Seq<char>| #[trigger] kv_lookup(a, key, 0) == (if key == "priority"@ {
        Some(Layout::Atom(p))
    } else {
        None
    }) by {
        assert(kv_lookup(a, key, 1) == None::<Layout>);
    }
    let b = if t.capabilities.len() > 0 {
        a.push(("capabilities"@, spaced(cap_atoms(t))))
    } else {
        a
    };
    if t.capabilities.len() > 0 {
        lemma_kv_lookup_push(a, ("capabilities"@, spaced(cap_atoms(t))), 0);
    }
    let c = if t.depends_on.len() > 0 {
        b.push(("depends-on"@, spaced(dep_strs(t))))
    } else {
        b
    };
    if t.depends_on.len() > 0 {
        lemma_kv_lookup_push(b, ("depends-on"@, spaced(dep_strs(t))), 0);
    }
    let d = c.push(("done"@, done_lay(t.done)));
    lemma_kv_lookup_push(c, ("done"@, done_lay(t.done)), 0);
    let e = match t.description {
        Some(x) => d.push(("description"@, Layout::Str(x))),
        None => d,
    };
    match t.description {
        Some(x) => lemma_kv_lookup_push(d, ("description"@, Layout::Str(x)), 0),
        None => {},
    }
    let f = match t.origin {
        Some(o) => e.push(("origin"@, Layout::Atom(o))),
        None => e,
    };
    match t.origin {
        Some(o) => lemma_kv_lookup_push(e, ("origin"@, Layout::Atom(o)), 0),
        None => {},
    }
    assert(f == field_kv(t, p));
    assert(kv_lookup(a, "priority"@, 0) == Some(Layout::Atom(p)));
    assert(kv_lookup(a, "capabilities"@, 0) == None::<Layout>);
    assert(kv_lookup(a, "depends-on"@, 0) == None::<Layout>);
    assert(kv_lookup(a, "done"@, 0) == None::<Layout>);
    assert(kv_lookup(a, "description"@, 0) == None::<Layout>);
    assert(kv_lookup(a, "origin"@, 0) == None::<Layout>);
    assert(kv_lookup(b, "priority"@, 0) == Some(Layout::Atom(p)));
    assert(kv_lookup(c, "priority"@, 0) == Some(Layout::Atom(p)));
    assert(kv_lookup(d, "priority"@, 0) == Some(Layout::Atom(p)));
    assert(kv_lookup(e, "priority"@, 0) == Some(Layout::Atom(p)));
    assert(kv_lookup(f, "priority"@, 0) == Some(Layout::Atom(p)));
    assert(kv_lookup(b, "capabilities"@, 0) == lay_of_list(t.capabilities.len(), spaced(cap_atoms(t))));
    assert(kv_lookup(c, "capabilities"@, 0) == lay_of_list(t.capabilities.len(), spaced(cap_atoms(t))));
    assert(kv_lookup(d, "capabilities"@, 0) == lay_of_list(t.capabilities.len(), spaced(cap_atoms(t))));
    assert(kv_lookup(e, "capabilities"@, 0) == lay_of_list(t.capabilities.len(), spaced(cap_atoms(t))));
    assert(kv_lookup(b, "depends-on"@, 0) == None::<Layout>);
    assert(kv_lookup(c, "depends-on"@, 0) == lay_of_list(t.depends_on.len(), spaced(dep_strs(t))));
    assert(kv_lookup(d, "depends-on"@, 0) == lay_of_list(t.depends_on.len(), spaced(dep_strs(t))));
    assert(kv_lookup(e, "depends-on"@, 0) == lay_of_list(t.depends_on.len(), spaced(dep_strs(t))));
    assert(kv_lookup(c, "done"@, 0) == None::<Layout>);
    assert(kv_lookup(d, "done"@, 0) == Some(done_lay(t.done)));
    assert(kv_lookup(e, "done"@, 0) == Some(done_lay(t.done)));
    assert(kv_lookup(d, "description"@, 0) == None::<Layout>);
    assert(kv_lookup(d, "origin"@, 0) == None::<Layout>);
    assert(kv_lookup(e, "origin"@, 0) == None::<Layout>);
}

proof fn lemma_list_texts(xs: Seq<Layout>, c: Seq<Seq<char>>)
    requires
        xs.len() == c.len(),
        forall|i: int| 0 <= i < xs.len() ==> atom_text_spec(lay_value(#[trigger] xs[i])) == Some(c[i]),
    ensures
        texts_of(lay_values(xs, 0)) == c,
{
    lemma_lay_values(xs, 0);
    let vs = lay_values(xs, 0);
    assert forall|i: int| 0 <= i < vs.len() implies atom_text_spec(#[trigger] vs[i]) == Some(c[i]) by {
        assert(vs[i] == lay_value(xs[0 + i]));
    }
    lemma_texts_of_each(vs, c);
}

/// The fields of a laid-out entry read as the task, with the priority
/// text it was written with.
#[verifier::spinoff_prover]
proof fn lemma_entry_fields(t: TaskV, p: Seq<char>)
    ensures
        task_spec(t.id, lay_values(pairs_of(field_kv(t, p)), 0)) == with_priority(t, p),
{
    let kv = field_kv(t, p);
    let fields = lay_values(pairs_of(kv), 0);
    lemma_field_lookup(t, p);
    lemma_dotted_kv(kv, "priority"@, 0);
    lemma_dotted_kv(kv, "capabilities"@, 0);
    lemma_dotted_kv(kv, "depends-on"@, 0);
    lemma_dotted_kv(kv, "done"@, 0);
    lemma_dotted_kv(kv, "description"@, 0);
    lemma_dotted_kv(kv, "origin"@, 0);
    assert(field_text(fields, "priority"@) == Some(p));
    if t.capabilities.len() > 0 {
        let xs = cap_atoms(t);
        lemma_list_texts(xs, t.capabilities);
        assert(field_list(fields, "capabilities"@) == t.capabilities);
    } else {
        assert(field_list(fields, "capabilities"@) =~= t.capabilities);
    }
    if t.depends_on.len() > 0 {
        let xs = dep_strs(t);
        lemma_list_texts(xs, t.depends_on);
        assert(field_list(fields, "depends-on"@) == t.depends_on);
    } else {
        assert(field_list(fields, "depends-on"@) =~= t.depends_on);
    }
    if t.done {
        assert(field_text(fields, "done"@) == Some(seq!['t']));
    } else {
        assert(field_text(fields, "done"@) == None::<Seq<char>>);
    }
    assert(field_text(fields, "description"@) == t.description);
    assert(field_text(fields, "origin"@) == t.origin);
}

/// A laid-out entry reads as its task, with the priority text it was
/// written with.
proof fn lemma_entry_value(t: TaskV, p: Seq<char>)
    ensures
        entry_spec(lay_value(entry_lay(t, p))) == Ok::<TaskV, Seq<char>>(with_priority(t, p)),
{
    let fl = pairs_of(field_kv(t, p));
    let inner = Layout::List(fields_ws(fl.len()), fl, seq!['\n', ' ', ' ']);
    let items = seq![Layout::Str(t.id), Layout::Atom(seq!['.']), inner];
    lemma_lay_values(items, 0);
    let vs = lay_values(items, 0);
    assert(vs[0] == SexpV::Str(t.id));
    assert(vs[1] == SexpV::Atom(seq!['.']));
    assert(vs[2] == SexpV::List(lay_values(fl, 0)));
    lemma_entry_fields(t, p);
}

// ---------------------------------------------------------------------------
// Entries that read back

pub open spec fn kv_ok(kv: Seq<(Seq<char>, Layout)>) -> bool {
    forall|i: int| 0 <= i < kv.len() ==> plain_atom(#[trigger] kv[i].0) && lay_ok(kv[i].1)
}

proof fn lemma_kv_ok_push(kv: Seq<(Seq<char>, Layout)>, x: (Seq<char>, Layout))
    requires
        kv_ok(kv),
        plain_atom(x.0),
        lay_ok(x.1),
    ensures
        kv_ok(kv.push(x)),
{
    assert forall|i: int| 0 <= i < kv.push(x).len() implies plain_atom(#[trigger] kv.push(x)[i].0)
        && lay_ok(kv.push(x)[i].1) by {
        if i < kv.len() {
            assert(kv.push(x)[i] == kv[i]);
        } else {
            assert(kv.push(x)[i] == x);
        }
    }
}

proof fn lemma_fields_ok(kv: Seq<(Seq<char>, Layout)>)
    requires
        kv_ok(kv),
    ensures
        lay_ok_from(fields_ws(kv.len()), pairs_of(kv), 0),
    decreases kv.len(),
{
    if kv.len() > 0 {
        let d = kv.drop_last();
        let x = kv.last();
        assert forall|i: int| 0 <= i < d.len() implies plain_atom(#[trigger] d[i].0) && lay_ok(
            d[i].1,
        ) by {
            assert(d[i] == kv[i]);
        }
        lemma_fields_ok(d);
        assert(plain_atom(kv[kv.len() - 1].0) && lay_ok(kv[kv.len() - 1].1));
        lemma_pair(x.0, x.1);
        assert(ws_only(nl4()));
        assert(fields_ws(kv.len()) =~= fields_ws(d.len()).push(nl4()));
        assert(pairs_of(kv) =~= pairs_of(d).push(pair_lay(x.0, x.1)));
        lemma_lay_ok_push(fields_ws(d.len()), pairs_of(d), nl4(), pair_lay(x.0, x.1), 0);
    }
}

proof fn lemma_keys_plain()
    ensures
        plain_atom("priority"@),
        plain_atom("capabilities"@),
        plain_atom("depends-on"@),
        plain_atom("done"@),
        plain_atom("description"@),
        plain_atom("origin"@),
        plain_atom("kind"@),
        plain_atom("tasks"@),
        plain_atom("tasks-my"@),
        plain_atom(seq!['.']),
        plain_atom(seq!['t']),
{
    reveal_strlit("priority");
    reveal_strlit("capabilities");
    reveal_strlit("depends-on");
    reveal_strlit("done");
    reveal_strlit("description");
    reveal_strlit("origin");
    reveal_strlit("kind");
    reveal_strlit("tasks");
    reveal_strlit("tasks-my");
}

proof fn lemma_field_kv_ok(t: TaskV, p: Seq<char>)
    requires
        fmt_safe(t, p),
    ensures
        kv_ok(field_kv(t, p)),
{
    lemma_keys_plain();
    let a = seq![("priority"@, Layout::Atom(p))];
    assert(kv_ok(a)) by {
        assert(a[0] == ("priority"@, Layout::Atom(p)));
    }
    let b = if t.capabilities.len() > 0 {
        a.push(("capabilities"@, spaced(cap_atoms(t))))
    } else {
        a
    };
    if t.capabilities.len() > 0 {
        let xs = cap_atoms(t);
        assert forall|i: int| 0 <= i < xs.len() implies lay_ok(#[trigger] xs[i]) by {
            assert(xs[i] == Layout::Atom(t.capabilities[i]));
        }
        lemma_spaced_ok(xs);
        lemma_kv_ok_push(a, ("capabilities"@, spaced(xs)));
    }
    let c = if t.depends_on.len() > 0 {
        b.push(("depends-on"@, spaced(dep_strs(t))))
    } else {
        b
    };
    if t.depends_on.len() > 0 {
        let xs = dep_strs(t);
        assert forall|i: int| 0 <= i < xs.len() implies lay_ok(#[trigger] xs[i]) by {
            assert(xs[i] == Layout::Str(t.depends_on[i]));
        }
        lemma_spaced_ok(xs);
        lemma_kv_ok_push(b, ("depends-on"@, spaced(xs)));
    }
    let d = c.push(("done"@, done_lay(t.done)));
    assert(lay_ok(done_lay(t.done))) by {
        if !t.done {
            assert(ws_only(Seq::<char>::empty()));
        }
    }
    lemma_kv_ok_push(c, ("done"@, done_lay(t.done)));
    let e = match t.description {
        Some(x) => d.push(("description"@, Layout::Str(x))),
        None => d,
    };
    match t.description {
        Some(x) => lemma_kv_ok_push(d, ("description"@, Layout::Str(x))),
        None => {},
    }
    match t.origin {
        Some(o) => lemma_kv_ok_push(e, ("origin"@, Layout::Atom(o))),
        None => {},
    }
}

/// A safe task's laid-out entry reads back as its value.
#[verifier::spinoff_prover]
proof fn lemma_entry_ok(t: TaskV, p: Seq<char>)
    requires
        fmt_safe(t, p),
    ensures
        lay_ok(entry_lay(t, p)),
{
    let kv = field_kv(t, p);
    let fl = pairs_of(kv);
    lemma_field_kv_ok(t, p);
    lemma_fields_ok(kv);
    lemma_keys_plain();
    let inner = Layout::List(fields_ws(fl.len()), fl, seq!['\n', ' ', ' ']);
    assert(ws_only(seq!['\n', ' ', ' ']));
    assert(lay_ok(inner));
    let ws = seq![Seq::<char>::empty(), seq![' '], seq![' ']];
    let items = seq![Layout::Str(t.id), Layout::Atom(seq!['.']), inner];
    assert(items[2] == inner);
    assert(lay_ok(items[0]) && lay_ok(items[1]) && lay_ok(items[2]));
    assert(ws[1] == seq![' ']);
    assert(ws[2] == seq![' ']);
    assert(ws[0] == Seq::<char>::empty());
    assert(ws_only(ws[2]) && ws_only(ws[1]) && ws_only(ws[0]));
    assert(lay_ok_from(ws, items, 3));
    assert(lay_ok_from(ws, items, 2));
    assert(lay_ok_from(ws, items, 1));
    assert(lay_ok_from(ws, items, 0));
    assert(entry_lay(t, p) == Layout::List(ws, items, Seq::empty()));
}

// ---------------------------------------------------------------------------
// The whole file

pub open spec fn entries_ws(n: nat) -> Seq<Seq<char>> {
    Seq::new(n, |i: int| seq!['\n', ' ', ' '])
}

pub open spec fn entry_lays(ts: Seq<TaskV>, ps: Seq<Seq<char>>) -> Seq<Layout> {
    Seq::new(ts.len(), |i: int| entry_lay(ts[i], ps[i]))
}

/// The task list of a canonical file, laid out as written.
pub open spec fn entries_lay(ts: Seq<TaskV>, ps: Seq<Seq<char>>) -> Layout {
    Layout::List(entries_ws(ts.len()), entry_lays(ts, ps), seq!['\n', ' '])
}

/// A canonical file, laid out as written.
pub open spec fn file_lay(ts: Seq<TaskV>, ps: Seq<Seq<char>>) -> Layout {
    Layout::List(
        seq![Seq::<char>::empty(), seq!['\n', ' ']],
        seq![pair_lay("kind"@, Layout::Atom("tasks-my"@)), pair_lay("tasks"@, entries_lay(ts, ps))],
        seq!['\n'],
    )
}

/// Every task of the list, with its priority text, writes a safe entry.
pub open spec fn all_fmt_safe(ts: Seq<TaskV>, ps: Seq<Seq<char>>) -> bool {
    &&& ts.len() == ps.len()
    &&& forall|i: int| 0 <= i < ts.len() ==> fmt_safe(#[trigger] ts[i], ps[i])
}

/// Each entry's canonical text is its laid-out entry, indented by two
/// spaces and ended by a newline.
pub open spec fn entries_laid(ts: Seq<TaskV>, ps: Seq<Seq<char>>) -> bool {
    forall|i: int|
        0 <= i < ts.len() ==> #[trigger] task_entry_text(ts[i], ps[i]) == seq![' ', ' '] + lay_text(
            entry_lay(ts[i], ps[i]),
        ) + seq!['\n']
}

proof fn lemma_entries_laid(ts: Seq<TaskV>, ps: Seq<Seq<char>>)
    requires
        all_fmt_safe(ts, ps),
        debug_quotes_quiet(),
    ensures
        entries_laid(ts, ps),
{
    assert forall|i: int| 0 <= i < ts.len() implies #[trigger] task_entry_text(ts[i], ps[i]) == seq![
        ' ',
        ' ',
    ] + lay_text(entry_lay(ts[i], ps[i])) + seq!['\n'] by {
        assert(fmt_safe(ts[i], ps[i]));
        lemma_entry_text(ts[i], ps[i]);
    }
}

proof fn lemma_join_step(jd: Seq<char>, lx: Seq<char>, prev: Seq<char>, last: Seq<char>)
    requires
        seq!['\n'] + prev == jd + seq!['\n'],
        last == seq![' ', ' '] + lx + seq!['\n'],
    ensures
        seq!['\n'] + (prev + last) == jd + seq!['\n', ' ', ' '] + lx + seq!['\n'],
{
    assert(seq!['\n'] + (prev + last) =~= (seq!['\n'] + prev) + last);
    assert((jd + seq!['\n']) + last =~= jd + seq!['\n', ' ', ' '] + lx + seq!['\n']);
}

proof fn lemma_entries_join(ts: Seq<TaskV>, ps: Seq<Seq<char>>)
    requires
        ts.len() == ps.len(),
        entries_laid(ts, ps),
    ensures
        seq!['\n'] + task_entries_text(ts, ps) == lay_join(entries_ws(ts.len()), entry_lays(ts, ps), 0)
            + seq!['\n'],
    decreases ts.len(),
{
    if ts.len() == 0 {
        assert(lay_join(entries_ws(0), entry_lays(ts, ps), 0) == Seq::<char>::empty());
        assert(seq!['\n'] + task_entries_text(ts, ps) =~= seq!['\n']);
    } else {
        let n = ts.len();
        let dt = ts.drop_last();
        let dp = ps.drop_last();
        assert forall|i: int| 0 <= i < dt.len() implies #[trigger] task_entry_text(dt[i], dp[i])
            == seq![' ', ' '] + lay_text(entry_lay(dt[i], dp[i])) + seq!['\n'] by {
            assert(dt[i] == ts[i]);
            assert(dp[i] == ps[i]);
            assert(task_entry_text(ts[i], ps[i]) == seq![' ', ' '] + lay_text(entry_lay(ts[i], ps[i]))
                + seq!['\n']);
        }
        lemma_entries_join(dt, dp);
        let x = entry_lay(ts.last(), ps.last());
        let w = seq!['\n', ' ', ' '];
        assert(task_entry_text(ts[n - 1], ps[n - 1]) == seq![' ', ' '] + lay_text(
            entry_lay(ts[n - 1], ps[n - 1]),
        ) + seq!['\n']);
        assert(entries_ws(n) =~= entries_ws(dt.len()).push(w));
        assert(entry_lays(ts, ps) =~= entry_lays(dt, dp).push(x));
        lemma_lay_join_push(entries_ws(dt.len()), entry_lays(dt, dp), w, x, 0);
        lemma_join_step(
            lay_join(entries_ws(dt.len()), entry_lays(dt, dp), 0),
            lay_text(x),
            task_entries_text(dt, dp),
            task_entry_text(ts.last(), ps.last()),
        );
    }
}

proof fn lemma_file_assoc(h: Seq<char>, j: Seq<char>, t: Seq<char>, canon: Seq<char>, lay: Seq<char>)
    requires
        seq!['\n'] + t == j + seq!['\n'],
        canon == h + seq!['\n'] + t + seq![' ', ')', ')', '\n', ')'],
        lay == h + j + seq!['\n', ' ', ')', ')', '\n', ')'],
    ensures
        canon == lay,
{
    assert(canon =~= h + (seq!['\n'] + t) + seq![' ', ')', ')', '\n', ')']);
    assert(lay =~= h + (j + seq!['\n']) + seq![' ', ')', ')', '\n', ')']);
}

pub open spec fn file_head() -> Seq<char> {
    seq![
        '(', '(', 'k', 'i', 'n', 'd', ' ', '.', ' ', 't', 'a', 's', 'k', 's', '-', 'm', 'y', ')',
        '\n', ' ', '(', 't', 'a', 's', 'k', 's', ' ', '.', ' ', '(',
    ]
}

proof fn lemma_two_items(w0: Seq<char>, w1: Seq<char>, x: Layout, y: Layout, c: Seq<char>)
    ensures
        lay_text(Layout::List(seq![w0, w1], seq![x, y], c)) == seq!['('] + w0 + lay_text(x) + w1
            + lay_text(y) + c + seq![')'],
{
    let ws = seq![w0, w1];
    let items = seq![x, y];
    assert(ws[0] == w0 && ws[1] == w1);
    assert(items[0] == x && items[1] == y);
    assert(lay_join(ws, items, 2) == Seq::<char>::empty());
    assert(lay_join(ws, items, 1) =~= w1 + lay_text(y));
    assert(lay_join(ws, items, 0) =~= w0 + lay_text(x) + w1 + lay_text(y));
    assert(lay_text(Layout::List(ws, items, c)) =~= seq!['('] + w0 + lay_text(x) + w1 + lay_text(y)
        + c + seq![')']);
}

proof fn lemma_kind_text()
    ensures
        lay_text(pair_lay("kind"@, Layout::Atom("tasks-my"@))) == seq![
            '(', 'k', 'i', 'n', 'd', ' ', '.', ' ', 't', 'a', 's', 'k', 's', '-', 'm', 'y', ')',
        ],
{
    lemma_pair("kind"@, Layout::Atom("tasks-my"@));
    reveal_strlit("kind");
    reveal_strlit("tasks-my");
    assert(lay_text(pair_lay("kind"@, Layout::Atom("tasks-my"@))) =~= seq![
        '(', 'k', 'i', 'n', 'd', ' ', '.', ' ', 't', 'a', 's', 'k', 's', '-', 'm', 'y', ')',
    ]);
}

proof fn lemma_tasks_text(ent: Layout)
    ensures
        lay_text(pair_lay("tasks"@, ent)) == seq!['(', 't', 'a', 's', 'k', 's', ' ', '.', ' ']
            + lay_text(ent) + seq![')'],
{
    lemma_pair("tasks"@, ent);
    reveal_strlit("tasks");
    assert(lay_text(pair_lay("tasks"@, ent)) =~= seq!['(', 't', 'a', 's', 'k', 's', ' ', '.', ' ']
        + lay_text(ent) + seq![')']);
}

proof fn lemma_file_lay_text(ts: Seq<TaskV>, ps: Seq<Seq<char>>)
    ensures
        lay_text(file_lay(ts, ps)) == file_head() + lay_join(
            entries_ws(ts.len()),
            entry_lays(ts, ps),
            0,
        ) + seq!['\n', ' ', ')', ')', '\n', ')'],
{
    let ent = entries_lay(ts, ps);
    let j = lay_join(entries_ws(ts.len()), entry_lays(ts, ps), 0);
    assert(lay_text(ent) == seq!['('] + j + seq!['\n', ' '] + seq![')']);
    let kind = pair_lay("kind"@, Layout::Atom("tasks-my"@));
    let tasks = pair_lay("tasks"@, ent);
    lemma_kind_text();
    lemma_tasks_text(ent);
    lemma_two_items(Seq::<char>::empty(), seq!['\n', ' '], kind, tasks, seq!['\n']);
    assert(lay_text(file_lay(ts, ps)) =~= file_head() + j + seq!['\n', ' ', ')', ')', '\n', ')']);
}

proof fn lemma_file_text(ts: Seq<TaskV>, ps: Seq<Seq<char>>)
    requires
        ts.len() == ps.len(),
        entries_laid(ts, ps),
    ensures
        canonical_text(ts, ps) == lay_text(file_lay(ts, ps)),
{
    lemma_entries_join(ts, ps);
    lemma_file_lay_text(ts, ps);
    reveal_strlit("((kind . tasks-my)\n (tasks . (\n");
    reveal_strlit(" ))\n)");
    let h = file_head();
    assert("((kind . tasks-my)\n (tasks . (\n"@ =~= h + seq!['\n']);
    assert(" ))\n)"@ =~= seq![' ', ')', ')', '\n', ')']);
    lemma_file_assoc(
        h,
        lay_join(entries_ws(ts.len()), entry_lays(ts, ps), 0),
        task_entries_text(ts, ps),
        canonical_text(ts, ps),
        lay_text(file_lay(ts, ps)),
    );
}

proof fn lemma_entry_lays_ok(ts: Seq<TaskV>, ps: Seq<Seq<char>>)
    requires
        all_fmt_safe(ts, ps),
    ensures
        lay_ok_from(entries_ws(ts.len()), entry_lays(ts, ps), 0),
    decreases ts.len(),
{
    if ts.len() > 0 {
        let n = ts.len();
        let dt = ts.drop_last();
        let dp = ps.drop_last();
        assert forall|i: int| 0 <= i < dt.len() implies fmt_safe(#[trigger] dt[i], dp[i]) by {
            assert(dt[i] == ts[i]);
            assert(dp[i] == ps[i]);
        }
        lemma_entry_lays_ok(dt, dp);
        assert(fmt_safe(ts[n - 1], ps[n - 1]));
        lemma_entry_ok(ts.last(), ps.last());
        let x = entry_lay(ts.last(), ps.last());
        let w = seq!['\n', ' ', ' '];
        assert(ws_only(w));
        assert(entries_ws(n) =~= entries_ws(dt.len()).push(w));
        assert(entry_lays(ts, ps) =~= entry_lays(dt, dp).push(x));
        lemma_lay_ok_push(entries_ws(dt.len()), entry_lays(dt, dp), w, x, 0);
    }
}

#[verifier::spinoff_prover]
proof fn lemma_file_ok(ts: Seq<TaskV>, ps: Seq<Seq<char>>)
    requires
        all_fmt_safe(ts, ps),
    ensures
        lay_ok(file_lay(ts, ps)),
{
    lemma_entry_lays_ok(ts, ps);
    lemma_keys_plain();
    let ent = entries_lay(ts, ps);
    assert(ws_only(seq!['\n', ' ']));
    assert(lay_ok(ent));
    let kind = pair_lay("kind"@, Layout::Atom("tasks-my"@));
    let tasks = pair_lay("tasks"@, ent);
    lemma_pair("kind"@, Layout::Atom("tasks-my"@));
    lemma_pair("tasks"@, ent);
    let ws = seq![Seq::<char>::empty(), seq!['\n', ' ']];
    let items = seq![kind, tasks];
    assert(ws[0] == Seq::<char>::empty());
    assert(ws[1] == seq!['\n', ' ']);
    assert(items[0] == kind);
    assert(items[1] == tasks);
    assert(ws_only(ws[0]) && ws_only(ws[1]));
    assert(ws_only(seq!['\n']));
    assert(lay_ok_from(ws, items, 2));
    assert(lay_ok_from(ws, items, 1));
    assert(lay_ok_from(ws, items, 0));
}

proof fn lemma_entries_read(vals: Seq<SexpV>, out: Seq<TaskV>, k: nat)
    requires
        vals.len() == out.len(),
        k <= vals.len(),
        forall|i: int| 0 <= i < vals.len() ==> entry_spec(#[trigger] vals[i]) == Ok::<TaskV, Seq<char>>(out[i]),
    ensures
        entries_spec(vals, k) == Ok::<Seq<TaskV>, Seq<char>>(out.subrange(k as int, out.len() as int)),
    decreases vals.len() - k,
{
    if k < vals.len() {
        lemma_entries_read(vals, out, k + 1);
        assert(entry_spec(vals[k as int]) == Ok::<TaskV, Seq<char>>(out[k as int]));
        assert(seq![out[k as int]] + out.subrange((k + 1) as int, out.len() as int) =~= out.subrange(
            k as int,
            out.len() as int,
        ));
    } else {
        assert(out.subrange(k as int, out.len() as int) =~= Seq::<TaskV>::empty());
    }
}

#[verifier::spinoff_prover]
proof fn lemma_file_value(ts: Seq<TaskV>, ps: Seq<Seq<char>>)
    requires
        all_fmt_safe(ts, ps),
    ensures
        tasks_file_spec(lay_text(file_lay(ts, ps))) == Ok::<Seq<TaskV>, Seq<char>>(
            with_priorities(ts, ps),
        ),
{
    lemma_file_ok(ts, ps);
    lemma_lay_round_trip(file_lay(ts, ps));
    lemma_key_lengths();
    reveal_strlit("kind");
    reveal_strlit("tasks");
    let ent = entries_lay(ts, ps);
    let kind = pair_lay("kind"@, Layout::Atom("tasks-my"@));
    let tasks = pair_lay("tasks"@, ent);
    lemma_pair("kind"@, Layout::Atom("tasks-my"@));
    lemma_pair("tasks"@, ent);
    let items = seq![kind, tasks];
    lemma_lay_values(items, 0);
    let top = lay_values(items, 0);
    assert(top[0] == lay_value(kind));
    assert(top[1] == lay_value(tasks));
    assert("kind"@ != "tasks"@) by {
        assert("kind"@.len() == 4);
        assert("tasks"@.len() == 5);
    }
    assert(dotted_value(top[0], "tasks"@) == None::<SexpV>);
    assert(dotted_value(top[1], "tasks"@) == Some(lay_value(ent)));
    assert(top.len() == 2);
    assert(dotted_from(top, "tasks"@, 2) == None::<SexpV>);
    assert(dotted_from(top, "tasks"@, 1) == Some(lay_value(ent)));
    assert(dotted_from(top, "tasks"@, 0) == Some(lay_value(ent)));
    let lays = entry_lays(ts, ps);
    lemma_lay_values(lays, 0);
    let vals = lay_values(lays, 0);
    let out = with_priorities(ts, ps);
    assert forall|i: int| 0 <= i < vals.len() implies entry_spec(#[trigger] vals[i]) == Ok::<
        TaskV,
        Seq<char>,
    >(out[i]) by {
        assert(vals[i] == lay_value(lays[0 + i]));
        assert(lays[i] == entry_lay(ts[i], ps[i]));
        lemma_entry_value(ts[i], ps[i]);
    }
    lemma_entries_read(vals, out, 0);
    assert(out.subrange(0, out.len() as int) =~= out);
}

/// Formatting a formatted task file changes nothing: the canonical text of
/// a task list reads back as those tasks, each with the priority text it
/// was written with, and writing what it reads gives the same text again.
/// This holds of ids without quotes or backslashes, plain priority texts,
/// capabilities and origins, and quiet dependencies and descriptions,
/// given that Rust's debug form writes quiet text between plain quotes
/// (what `debug_str` states of each of its calls).
pub proof fn law_canonical_fixed_point(ts: Seq<TaskV>, ps: Seq<Seq<char>>)
    requires
        all_fmt_safe(ts, ps),
    ensures
        debug_quotes_quiet() ==> tasks_file_spec(canonical_text(ts, ps)) == Ok::<
            Seq<TaskV>,
            Seq<char>,
        >(with_priorities(ts, ps)),
        canonical_text(with_priorities(ts, ps), ps) == canonical_text(ts, ps),
{
    if debug_quotes_quiet() {
        lemma_entries_laid(ts, ps);
        lemma_file_text(ts, ps);
        lemma_file_value(ts, ps);
    }
    lemma_rewrite_same(ts, ps);
}

/// Writing a task ignores the priority it holds: the text given is used.
proof fn lemma_rewrite_same(ts: Seq<TaskV>, ps: Seq<Seq<char>>)
    requires
        ts.len() == ps.len(),
    ensures
        task_entries_text(with_priorities(ts, ps), ps) == task_entries_text(ts, ps),
        canonical_text(with_priorities(ts, ps), ps) == canonical_text(ts, ps),
    decreases ts.len(),
{
    if ts.len() > 0 {
        let wp = with_priorities(ts, ps);
        lemma_rewrite_same(ts.drop_last(), ps.drop_last());
        assert(wp.drop_last() =~= with_priorities(ts.drop_last(), ps.drop_last()));
        let t = ts.last();
        let p = ps.last();
        assert(wp.last() == with_priority(t, p));
        assert(task_entry_text(with_priority(t, p), p) == task_entry_text(t, p));
    } else {
        assert(with_priorities(ts, ps) =~= ts);
    }
}

} // verus!
