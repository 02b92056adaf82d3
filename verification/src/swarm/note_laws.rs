//! What a Markdown note export keeps: a task written as a note and read
//! back keeps its id, priority, capabilities, dependencies, done flag and
//! origin, when each of them can be written on one frontmatter line.

use vstd::prelude::*;
use crate::observer::git_read::lines_spec;
use crate::swarm::adapters::{
    apply_line, apply_lines, empty_note, fence_from, join_commas, lead_char, list_items, list_line,
    note_body, note_head, note_spec, note_status, note_text, notes_text, priority_text, trail_char,
    trim_both, NoteV,
};
use crate::scheduler::tasks_file::TaskV;
use crate::text::{find_from, is_ws, lead_ws, trail_end, trim_spec, trimmed_items};

verus! {

/// A value that a frontmatter line carries unchanged: not empty, on one
/// line, without surrounding whitespace or double quotes.
pub open spec fn plain_field(s: Seq<char>) -> bool {
    &&& s.len() > 0
    &&& forall|i: int| 0 <= i < s.len() ==> #[trigger] s[i] != '\n'
    &&& !is_ws(s[0])
    &&& !is_ws(s.last())
    &&& s[0] != '"'
    &&& s.last() != '"'
}

/// A list item that a frontmatter list carries unchanged: a plain field
/// without commas.
pub open spec fn plain_item(s: Seq<char>) -> bool {
    &&& plain_field(s)
    &&& forall|i: int| 0 <= i < s.len() ==> #[trigger] s[i] != ','
}

/// A list that a frontmatter line carries unchanged: plain items, the
/// first not opening with `[`, the last not closing with `]`.
pub open spec fn plain_list(items: Seq<Seq<char>>) -> bool {
    &&& forall|i: int| 0 <= i < items.len() ==> plain_item(#[trigger] items[i])
    &&& items.len() > 0 ==> items[0][0] != '[' && items.last().last() != ']'
}

/// `find_from` passes over positions without `c` and stops at the first
/// `c` (or the end).
proof fn lemma_find_from_at(s: Seq<char>, c: char, i: int, p: int)
    requires
        0 <= i <= p <= s.len(),
        forall|k: int| i <= k < p ==> s[k] != c,
        p < s.len() ==> s[p] == c,
    ensures
        find_from(s, c, i) == p,
    decreases p - i,
{
    if i < p {
        lemma_find_from_at(s, c, i + 1, p);
    }
}

/// A text without surrounding whitespace trims to itself.
proof fn lemma_trim_plain(x: Seq<char>)
    requires
        x.len() > 0,
        !is_ws(x[0]),
        !is_ws(x.last()),
    ensures
        trim_spec(x) == x,
{
    assert(lead_ws(x, 0) == 0);
    assert(trail_end(x, x.len() as int) == x.len());
    assert(x.subrange(0, x.len() as int) =~= x);
}

/// One space before such a text trims away.
proof fn lemma_trim_after_space(x: Seq<char>)
    requires
        x.len() > 0,
        !is_ws(x[0]),
        !is_ws(x.last()),
    ensures
        trim_spec(seq![' '] + x) == x,
{
    let s = seq![' '] + x;
    assert(s[0] == ' ');
    assert(s[1] == x[0]);
    assert(lead_ws(s, 1) == 1);
    assert(lead_ws(s, 0) == 1);
    assert(s[s.len() - 1] == x.last());
    assert(trail_end(s, s.len() as int) == s.len());
    assert(s.subrange(1, s.len() as int) =~= x);
}

/// A text that neither starts nor ends with `c` keeps itself under
/// `trim_both`.
proof fn lemma_trim_both_plain(x: Seq<char>, c: char)
    requires
        x.len() > 0,
        x[0] != c,
        x.last() != c,
    ensures
        trim_both(x, c) == x,
{
    assert(lead_char(x, c, 0) == 0);
    assert(trail_char(x, c, x.len() as int, 0) == x.len());
    assert(x.subrange(0, x.len() as int) =~= x);
}

/// The comma-joined list, read from its front: the first item, then the
/// rest after `, `.
proof fn lemma_join_front(items: Seq<Seq<char>>)
    requires
        items.len() >= 2,
    ensures
        join_commas(items) == items[0] + ", "@ + join_commas(items.skip(1)),
    decreases items.len(),
{
    let d = items.drop_last();
    if items.len() == 2 {
        assert(d.len() == 1);
        assert(join_commas(d) == d[0]);
        assert(items.skip(1).len() == 1);
        assert(join_commas(items.skip(1)) == items.skip(1)[0]);
    } else {
        lemma_join_front(d);
        assert(d.skip(1) =~= items.skip(1).drop_last());
        assert(items.skip(1).last() == items.last());
        assert(join_commas(items.skip(1)) == join_commas(items.skip(1).drop_last()) + ", "@
            + items.skip(1).last());
        assert(join_commas(items) =~= items[0] + ", "@ + join_commas(items.skip(1)));
    }
}

/// The comma-joined list starts with the first item's first character and
/// ends with the last item's last character, and has no line break when
/// no item has one.
proof fn lemma_join_ends(items: Seq<Seq<char>>)
    requires
        items.len() >= 1,
        forall|i: int| 0 <= i < items.len() ==> plain_item(#[trigger] items[i]),
    ensures
        join_commas(items).len() > 0,
        join_commas(items)[0] == items[0][0],
        join_commas(items).last() == items.last().last(),
        forall|k: int| 0 <= k < join_commas(items).len() ==> #[trigger] join_commas(items)[k] != '\n',
    decreases items.len(),
{
    reveal_strlit(", ");
    if items.len() == 1 {
        assert(plain_item(items[0]));
    } else {
        let d = items.drop_last();
        assert forall|i: int| 0 <= i < d.len() implies plain_item(#[trigger] d[i]) by {
            assert(d[i] == items[i]);
        }
        lemma_join_ends(d);
        let j = join_commas(items);
        let jd = join_commas(d);
        let l = items.last();
        assert(plain_item(items[items.len() - 1]));
        assert(j == jd + ", "@ + l);
        assert(j[0] == jd[0]);
        assert forall|k: int| 0 <= k < j.len() implies #[trigger] j[k] != '\n' by {
            if k < jd.len() {
                assert(j[k] == jd[k]);
            } else if k < jd.len() + 2 {
            } else {
                assert(j[k] == l[k - jd.len() - 2]);
            }
        }
    }
}

/// Splitting a comma-joined list (after an optional leading space) at its
/// commas and trimming the pieces gives the items back.
proof fn lemma_split_joined(a: Seq<char>, sp: bool, items: Seq<Seq<char>>)
    requires
        items.len() >= 1,
        forall|i: int| 0 <= i < items.len() ==> plain_item(#[trigger] items[i]),
    ensures
        trimmed_items(
            a + (if sp {
                seq![' ']
            } else {
                seq![]
            }) + join_commas(items),
            a.len() as int,
        ) == items,
    decreases items.len(),
{
    reveal_strlit(", ");
    let pre: Seq<char> = if sp {
        seq![' ']
    } else {
        seq![]
    };
    let s = a + pre + join_commas(items);
    let first = pre + items[0];
    assert(plain_item(items[0]));
    let p = a.len() as int;
    let e = p + first.len();
    let tail: Seq<char> = if items.len() == 1 {
        seq![]
    } else {
        ", "@ + join_commas(items.skip(1))
    };
    if items.len() >= 2 {
        lemma_join_front(items);
    }
    assert(join_commas(items) =~= items[0] + tail);
    assert(s =~= a + pre + items[0] + tail);
    assert forall|k: int| p <= k < e implies s[k] != ',' by {
        if k < p + pre.len() {
            assert(s[k] == pre[k - p]);
        } else {
            assert(s[k] == items[0][k - p - pre.len()]);
        }
    }
    if items.len() == 1 {
        assert(s =~= a + first);
        lemma_find_from_at(s, ',', p, e);
        assert(s.subrange(p, e) =~= first);
        if sp {
            lemma_trim_after_space(items[0]);
        } else {
            assert(first =~= items[0]);
            lemma_trim_plain(items[0]);
        }
        assert(trimmed_items(s, p) =~= seq![items[0]] + Seq::<Seq<char>>::empty());
        assert(items =~= seq![items[0]]);
    } else {
        lemma_join_front(items);
        let rest = items.skip(1);
        let a2 = a + first + seq![','];
        assert(s =~= a2 + seq![' '] + join_commas(rest));
        assert(s[e] == ',');
        lemma_find_from_at(s, ',', p, e);
        assert(s.subrange(p, e) =~= first);
        if sp {
            lemma_trim_after_space(items[0]);
        } else {
            assert(first =~= items[0]);
            lemma_trim_plain(items[0]);
        }
        assert forall|i: int| 0 <= i < rest.len() implies plain_item(#[trigger] rest[i]) by {
            assert(rest[i] == items[i + 1]);
        }
        lemma_split_joined(a2, true, rest);
        assert(a2.len() == e + 1);
        assert(trimmed_items(s, e + 1) == rest);
        assert(trimmed_items(s, p) == seq![items[0]] + rest);
        assert(items =~= seq![items[0]] + rest);
    }
}

/// A list written as `[a, b, ...]` reads back as the same items.
proof fn lemma_list_round_trip(items: Seq<Seq<char>>)
    requires
        items.len() >= 1,
        plain_list(items),
    ensures
        list_items(seq!['['] + join_commas(items) + seq![']']) == items,
{
    lemma_join_ends(items);
    let j = join_commas(items);
    let v = seq!['['] + j + seq![']'];
    assert(v[1] == j[0]);
    assert(lead_char(v, '[', 1) == 1);
    assert(lead_char(v, '[', 0) == 1);
    let u = v.skip(1);
    assert(u =~= j + seq![']']);
    assert(u[u.len() - 1] == ']');
    assert(u[u.len() - 2] == j.last());
    assert(trail_char(u, ']', u.len() - 1, 0) == u.len() - 1);
    assert(trail_char(u, ']', u.len() as int, 0) == u.len() - 1);
    assert(u.take(u.len() - 1) =~= j);
    lemma_split_joined(seq![], false, items);
    assert(seq![] + Seq::<char>::empty() + j =~= j);
}

/// Lines, each preceded by a line break.
pub open spec fn nl_lines(ls: Seq<Seq<char>>) -> Seq<char>
    decreases ls.len(),
{
    if ls.len() == 0 {
        seq![]
    } else {
        seq!['\n'] + ls[0] + nl_lines(ls.skip(1))
    }
}

/// A frontmatter line that reads back cleanly: not empty, no line break,
/// not starting with `-`, not ending with whitespace.
pub open spec fn clean_line(l: Seq<char>) -> bool {
    &&& l.len() > 0
    &&& forall|i: int| 0 <= i < l.len() ==> #[trigger] l[i] != '\n'
    &&& l[0] != '-'
    &&& !is_ws(l.last())
}

proof fn lemma_nl_lines_push(ls: Seq<Seq<char>>, x: Seq<char>)
    ensures
        nl_lines(ls.push(x)) == nl_lines(ls) + seq!['\n'] + x,
    decreases ls.len(),
{
    if ls.len() == 0 {
        assert(ls.push(x).skip(1) =~= Seq::<Seq<char>>::empty());
        assert(ls.push(x)[0] == x);
        assert(nl_lines(ls.push(x).skip(1)) == Seq::<char>::empty());
        assert(nl_lines(ls) == Seq::<char>::empty());
        assert(nl_lines(ls.push(x)) =~= seq!['\n'] + x);
    } else {
        assert(ls.push(x).skip(1) =~= ls.skip(1).push(x));
        lemma_nl_lines_push(ls.skip(1), x);
        assert(ls.push(x)[0] == ls[0]);
        assert(nl_lines(ls.push(x)) =~= nl_lines(ls) + seq!['\n'] + x);
    }
}

/// `fence_from` passes over positions holding no line break.
proof fn lemma_fence_skips(s: Seq<char>, i: int, k: int)
    requires
        0 <= i <= k,
        k + 4 <= s.len(),
        forall|p: int| i <= p < k ==> s[p] != '\n',
    ensures
        fence_from(s, i) == fence_from(s, k),
    decreases k - i,
{
    if i < k {
        lemma_fence_skips(s, i + 1, k);
    }
}

/// After clean lines, the first `\n---` is the one that follows them.
proof fn lemma_fence_after_lines(pre: Seq<char>, ls: Seq<Seq<char>>, tail: Seq<char>)
    requires
        forall|i: int| 0 <= i < ls.len() ==> clean_line(#[trigger] ls[i]),
    ensures
        fence_from(pre + nl_lines(ls) + "\n---"@ + tail, pre.len() as int) == pre.len()
            + nl_lines(ls).len(),
    decreases ls.len(),
{
    reveal_strlit("\n---");
    let s = pre + nl_lines(ls) + "\n---"@ + tail;
    let p = pre.len() as int;
    if ls.len() == 0 {
        assert(s[p] == '\n' && s[p + 1] == '-' && s[p + 2] == '-' && s[p + 3] == '-');
    } else {
        let l = ls[0];
        assert(clean_line(l));
        let rest = ls.skip(1);
        let pre2 = pre + seq!['\n'] + l;
        assert(s =~= pre2 + nl_lines(rest) + "\n---"@ + tail);
        assert(s[p] == '\n');
        assert(s[p + 1] == l[0]);
        assert forall|q: int| p + 1 <= q < pre2.len() implies s[q] != '\n' by {
            assert(s[q] == l[q - p - 1]);
        }
        lemma_fence_skips(s, p + 1, pre2.len() as int);
        assert forall|i: int| 0 <= i < rest.len() implies clean_line(#[trigger] rest[i]) by {
            assert(rest[i] == ls[i + 1]);
        }
        lemma_fence_after_lines(pre2, rest, tail);
    }
}

/// Clean lines joined by line breaks read back as the same lines.
proof fn lemma_lines_of_joined(ls: Seq<Seq<char>>)
    requires
        ls.len() >= 1,
        forall|i: int| 0 <= i < ls.len() ==> clean_line(#[trigger] ls[i]),
    ensures
        lines_spec(ls[0] + nl_lines(ls.skip(1))) == ls,
    decreases ls.len(),
{
    let l = ls[0];
    assert(clean_line(l));
    let rest = ls.skip(1);
    let t = l + nl_lines(rest);
    if rest.len() == 0 {
        assert(t =~= l);
        lemma_find_from_at(t, '\n', 0, t.len() as int);
        assert(ls =~= seq![l]);
    } else {
        assert(t[l.len() as int] == '\n');
        lemma_find_from_at(t, '\n', 0, l.len() as int);
        assert(t.take(l.len() as int) =~= l);
        assert(t.skip((l.len() + 1) as int) =~= rest[0] + nl_lines(rest.skip(1)));
        assert forall|i: int| 0 <= i < rest.len() implies clean_line(#[trigger] rest[i]) by {
            assert(rest[i] == ls[i + 1]);
        }
        lemma_lines_of_joined(rest);
        assert(ls =~= seq![l] + rest);
    }
}

/// The frontmatter text after the opening `---` reads as an empty line and
/// then the clean lines.
proof fn lemma_lines_of_nl(ls: Seq<Seq<char>>)
    requires
        ls.len() >= 1,
        forall|i: int| 0 <= i < ls.len() ==> clean_line(#[trigger] ls[i]),
    ensures
        lines_spec(nl_lines(ls)) == seq![Seq::<char>::empty()] + ls,
{
    let t = nl_lines(ls);
    lemma_find_from_at(t, '\n', 0, 0);
    assert(t.take(0) =~= Seq::<char>::empty());
    assert(t.skip(1) =~= ls[0] + nl_lines(ls.skip(1)));
    lemma_lines_of_joined(ls);
}

/// Reading more lines leaves the state after the first `k` unchanged.
proof fn lemma_apply_lines_prefix(ls: Seq<Seq<char>>, x: Seq<char>, k: int)
    requires
        0 <= k <= ls.len(),
    ensures
        apply_lines(ls.push(x), k) == apply_lines(ls, k),
    decreases k,
{
    if k > 0 {
        lemma_apply_lines_prefix(ls, x, k - 1);
        assert(ls.push(x)[k - 1] == ls[k - 1]);
    }
}

/// The state after one more line.
proof fn lemma_apply_lines_push(ls: Seq<Seq<char>>, x: Seq<char>)
    ensures
        apply_lines(ls.push(x), (ls.len() + 1) as int) == apply_line(apply_lines(ls, ls.len() as int), x),
{
    lemma_apply_lines_prefix(ls, x, ls.len() as int);
    assert(ls.push(x)[ls.len() as int] == x);
}

/// A frontmatter key: not empty, no colon, no line break, no surrounding
/// whitespace, not starting with `-`.
pub open spec fn plain_key(k: Seq<char>) -> bool {
    &&& k.len() > 0
    &&& forall|i: int| 0 <= i < k.len() ==> #[trigger] k[i] != ':' && k[i] != '\n'
    &&& !is_ws(k[0])
    &&& !is_ws(k.last())
    &&& k[0] != '-'
}

/// How the line `key: value` is read: the key and the value come back as
/// written, and the line is clean.
proof fn lemma_kv_line(key: Seq<char>, v: Seq<char>)
    requires
        plain_key(key),
        plain_field(v),
    ensures
        find_from(key + ": "@ + v, ':', 0) == key.len(),
        key.len() < (key + ": "@ + v).len(),
        trim_spec((key + ": "@ + v).take(key.len() as int)) == key,
        trim_both(trim_spec((key + ": "@ + v).skip((key.len() + 1) as int)), '"') == v,
        clean_line(key + ": "@ + v),
{
    reveal_strlit(": ");
    let line = key + ": "@ + v;
    assert(line[key.len() as int] == ':');
    assert forall|q: int| 0 <= q < key.len() implies line[q] != ':' by {
        assert(line[q] == key[q]);
    }
    lemma_find_from_at(line, ':', 0, key.len() as int);
    assert(line.take(key.len() as int) =~= key);
    lemma_trim_plain(key);
    assert(line.skip((key.len() + 1) as int) =~= seq![' '] + v);
    lemma_trim_after_space(v);
    lemma_trim_both_plain(v, '"');
    assert forall|i: int| 0 <= i < line.len() implies #[trigger] line[i] != '\n' by {
        if i < key.len() {
            assert(line[i] == key[i]);
        } else if i < key.len() + 2 {
        } else {
            assert(line[i] == v[i - key.len() - 2]);
        }
    }
    assert(line[0] == key[0]);
    assert(line.last() == v.last());
}

/// The frontmatter line `key: value`.
pub open spec fn kv(key: Seq<char>, v: Seq<char>) -> Seq<char> {
    key + ": "@ + v
}

/// A list as a frontmatter value, `[a, b, ...]`.
pub open spec fn list_text(items: Seq<Seq<char>>) -> Seq<char> {
    seq!['['] + join_commas(items) + seq![']']
}

pub open spec fn done_text(d: bool) -> Seq<char> {
    if d {
        "true"@
    } else {
        "false"@
    }
}

proof fn lemma_list_text_plain(items: Seq<Seq<char>>)
    requires
        items.len() >= 1,
        plain_list(items),
    ensures
        plain_field(list_text(items)),
{
    lemma_join_ends(items);
    let j = join_commas(items);
    let v = list_text(items);
    assert forall|i: int| 0 <= i < v.len() implies #[trigger] v[i] != '\n' by {
        if 0 < i < v.len() - 1 {
            assert(v[i] == j[i - 1]);
        }
    }
}

proof fn lemma_step_id(st: NoteV, id: Seq<char>)
    requires
        plain_field(id),
    ensures
        apply_line(st, kv("task-id"@, id)) == (NoteV { id, ..st }),
        clean_line(kv("task-id"@, id)),
{
    reveal_strlit("task-id");
    reveal_strlit("id");
    lemma_kv_line("task-id"@, id);
}

proof fn lemma_step_priority(st: NoteV, p: Seq<char>)
    requires
        plain_field(p),
    ensures
        apply_line(st, kv("priority"@, p)) == (NoteV { priority: Some(p), ..st }),
        clean_line(kv("priority"@, p)),
{
    reveal_strlit("task-id");
    reveal_strlit("id");
    reveal_strlit("title");
    reveal_strlit("priority");
    lemma_kv_line("priority"@, p);
}

proof fn lemma_step_capabilities(st: NoteV, items: Seq<Seq<char>>)
    requires
        items.len() >= 1,
        plain_list(items),
    ensures
        apply_line(st, kv("capabilities"@, list_text(items))) == (NoteV {
            capabilities: items,
            ..st
        }),
        clean_line(kv("capabilities"@, list_text(items))),
{
    reveal_strlit("task-id");
    reveal_strlit("id");
    reveal_strlit("title");
    reveal_strlit("priority");
    reveal_strlit("tags");
    reveal_strlit("capabilities");
    lemma_list_text_plain(items);
    lemma_kv_line("capabilities"@, list_text(items));
    lemma_list_round_trip(items);
}

proof fn lemma_step_depends(st: NoteV, items: Seq<Seq<char>>)
    requires
        items.len() >= 1,
        plain_list(items),
    ensures
        apply_line(st, kv("depends-on"@, list_text(items))) == (NoteV {
            depends_on: items,
            ..st
        }),
        clean_line(kv("depends-on"@, list_text(items))),
{
    reveal_strlit("task-id");
    reveal_strlit("id");
    reveal_strlit("title");
    reveal_strlit("priority");
    reveal_strlit("tags");
    reveal_strlit("capabilities");
    reveal_strlit("depends-on");
    lemma_list_text_plain(items);
    lemma_kv_line("depends-on"@, list_text(items));
    lemma_list_round_trip(items);
}

proof fn lemma_step_done(st: NoteV, d: bool)
    ensures
        apply_line(st, kv("done"@, done_text(d))) == (NoteV { done: d, ..st }),
        clean_line(kv("done"@, done_text(d))),
{
    reveal_strlit("task-id");
    reveal_strlit("id");
    reveal_strlit("title");
    reveal_strlit("priority");
    reveal_strlit("tags");
    reveal_strlit("capabilities");
    reveal_strlit("depends-on");
    reveal_strlit("depends_on");
    reveal_strlit("done");
    reveal_strlit("true");
    reveal_strlit("false");
    reveal_strlit("t");
    reveal_strlit("yes");
    lemma_kv_line("done"@, done_text(d));
}

proof fn lemma_step_origin(st: NoteV, o: Seq<char>)
    requires
        plain_field(o),
    ensures
        apply_line(st, kv("origin"@, o)) == (NoteV { origin: Some(o), ..st }),
        clean_line(kv("origin"@, o)),
{
    reveal_strlit("task-id");
    reveal_strlit("id");
    reveal_strlit("title");
    reveal_strlit("priority");
    reveal_strlit("tags");
    reveal_strlit("capabilities");
    reveal_strlit("depends-on");
    reveal_strlit("depends_on");
    reveal_strlit("done");
    reveal_strlit("origin");
    lemma_kv_line("origin"@, o);
}

/// The frontmatter lines a note gets for `t`, after `start`.
pub open spec fn fm_from(start: Seq<Seq<char>>, t: TaskV) -> Seq<Seq<char>> {
    let a = start.push(kv("task-id"@, t.id)).push(kv("priority"@, priority_text(t.priority)));
    let b = if t.capabilities.len() > 0 {
        a.push(kv("capabilities"@, list_text(t.capabilities)))
    } else {
        a
    };
    let c = if t.depends_on.len() > 0 {
        b.push(kv("depends-on"@, list_text(t.depends_on)))
    } else {
        b
    };
    let d = c.push(kv("done"@, done_text(t.done)));
    match t.origin {
        Some(o) => d.push(kv("origin"@, o)),
        None => d,
    }
}

proof fn lemma_head_text(t: TaskV)
    ensures
        note_head(t) == "---"@ + seq!['\n'] + kv("task-id"@, t.id) + seq!['\n'] + kv(
            "priority"@,
            priority_text(t.priority),
        ) + seq!['\n'],
{
    reveal_strlit("---\ntask-id: ");
    reveal_strlit("\n");
    reveal_strlit("priority: ");
    reveal_strlit(": ");
    reveal_strlit("task-id");
    reveal_strlit("priority");
    reveal_strlit("---");
    assert(note_head(t) =~= "---"@ + seq!['\n'] + kv("task-id"@, t.id) + seq!['\n'] + kv(
        "priority"@,
        priority_text(t.priority),
    ) + seq!['\n']);
}

proof fn lemma_caps_text(items: Seq<Seq<char>>)
    ensures
        items.len() > 0 ==> list_line("capabilities: ["@, items) == kv(
            "capabilities"@,
            list_text(items),
        ) + seq!['\n'],
        items.len() == 0 ==> list_line("capabilities: ["@, items) == Seq::<char>::empty(),
{
    reveal_strlit("capabilities: [");
    reveal_strlit("]\n");
    reveal_strlit(": ");
    reveal_strlit("capabilities");
    if items.len() > 0 {
        assert(list_line("capabilities: ["@, items) =~= kv("capabilities"@, list_text(items))
            + seq!['\n']);
    }
}

proof fn lemma_deps_text(items: Seq<Seq<char>>)
    ensures
        items.len() > 0 ==> list_line("depends-on: ["@, items) == kv("depends-on"@, list_text(items))
            + seq!['\n'],
        items.len() == 0 ==> list_line("depends-on: ["@, items) == Seq::<char>::empty(),
{
    reveal_strlit("depends-on: [");
    reveal_strlit("]\n");
    reveal_strlit(": ");
    reveal_strlit("depends-on");
    if items.len() > 0 {
        assert(list_line("depends-on: ["@, items) =~= kv("depends-on"@, list_text(items)) + seq![
            '\n',
        ]);
    }
}

proof fn lemma_status_text(t: TaskV)
    ensures
        note_status(t) == kv("done"@, done_text(t.done)) + seq!['\n'] + match t.origin {
            Some(o) => kv("origin"@, o) + seq!['\n'],
            None => Seq::<char>::empty(),
        },
{
    reveal_strlit("done: ");
    reveal_strlit("origin: ");
    reveal_strlit("\n");
    reveal_strlit(": ");
    reveal_strlit("done");
    reveal_strlit("origin");
    assert(note_status(t) =~= kv("done"@, done_text(t.done)) + seq!['\n'] + match t.origin {
        Some(o) => kv("origin"@, o) + seq!['\n'],
        None => Seq::<char>::empty(),
    });
}

proof fn lemma_body_text(t: TaskV)
    ensures
        note_body(t) == "---"@ + note_body(t).skip(3),
{
    reveal_strlit("---\n\n# ");
    reveal_strlit("---");
    assert(note_body(t) =~= "---"@ + note_body(t).skip(3));
}

/// `---`, the lines each after a line break, and a closing line break.
pub open spec fn fm_text(ls: Seq<Seq<char>>) -> Seq<char> {
    "---"@ + nl_lines(ls) + seq!['\n']
}

proof fn lemma_fm_text_push(ls: Seq<Seq<char>>, x: Seq<char>)
    ensures
        fm_text(ls.push(x)) == fm_text(ls) + x + seq!['\n'],
{
    lemma_nl_lines_push(ls, x);
    assert(fm_text(ls.push(x)) =~= fm_text(ls) + x + seq!['\n']);
}

/// The frontmatter of `t`'s note is its opening `---` and then its lines.
proof fn lemma_note_frontmatter(t: TaskV)
    ensures
        note_text(t) == fm_text(fm_from(seq![], t)) + note_body(t),
{
    let l1 = kv("task-id"@, t.id);
    let l2 = kv("priority"@, priority_text(t.priority));
    let e0: Seq<Seq<char>> = seq![];
    let a = e0.push(l1).push(l2);
    lemma_fm_text_push(e0, l1);
    lemma_fm_text_push(e0.push(l1), l2);
    assert(nl_lines(e0) == Seq::<char>::empty());
    lemma_head_text(t);
    assert(note_head(t) =~= fm_text(a));
    lemma_caps_text(t.capabilities);
    let b = if t.capabilities.len() > 0 {
        lemma_fm_text_push(a, kv("capabilities"@, list_text(t.capabilities)));
        a.push(kv("capabilities"@, list_text(t.capabilities)))
    } else {
        a
    };
    assert(note_head(t) + list_line("capabilities: ["@, t.capabilities) =~= fm_text(b));
    lemma_deps_text(t.depends_on);
    let c = if t.depends_on.len() > 0 {
        lemma_fm_text_push(b, kv("depends-on"@, list_text(t.depends_on)));
        b.push(kv("depends-on"@, list_text(t.depends_on)))
    } else {
        b
    };
    let h3 = note_head(t) + list_line("capabilities: ["@, t.capabilities) + list_line(
        "depends-on: ["@,
        t.depends_on,
    );
    assert(h3 =~= fm_text(c));
    let d = c.push(kv("done"@, done_text(t.done)));
    lemma_fm_text_push(c, kv("done"@, done_text(t.done)));
    lemma_status_text(t);
    match t.origin {
        Some(o) => {
            lemma_fm_text_push(d, kv("origin"@, o));
            assert(h3 + note_status(t) =~= fm_text(d.push(kv("origin"@, o))));
        },
        None => {
            assert(h3 + note_status(t) =~= fm_text(d));
        },
    }
}

/// The fields a note keeps: what reading `t`'s frontmatter lines gives.
pub open spec fn kept(t: TaskV) -> NoteV {
    NoteV {
        id: t.id,
        priority: Some(priority_text(t.priority)),
        capabilities: t.capabilities,
        depends_on: t.depends_on,
        done: t.done,
        origin: t.origin,
        slug_title: None,
        title_fallback: None,
    }
}

/// The fields a note can carry on one line each.
pub open spec fn note_safe(t: TaskV) -> bool {
    &&& plain_field(t.id)
    &&& plain_field(priority_text(t.priority))
    &&& plain_list(t.capabilities)
    &&& plain_list(t.depends_on)
    &&& t.origin matches Some(o) ==> plain_field(o)
}

/// Reading `t`'s frontmatter lines, after `start`, from the state `start`
/// leaves, gives its kept fields; and every one of those lines is clean.
proof fn lemma_read_lines(start: Seq<Seq<char>>, t: TaskV)
    requires
        note_safe(t),
        apply_lines(start, start.len() as int) == empty_note(),
    ensures
        apply_lines(fm_from(start, t), fm_from(start, t).len() as int) == kept(t),
        forall|i: int|
            start.len() <= i < fm_from(start, t).len() ==> clean_line(#[trigger] fm_from(start, t)[i]),
        fm_from(start, t).len() > start.len(),
        forall|i: int| 0 <= i < start.len() ==> #[trigger] fm_from(start, t)[i] == start[i],
{
    let p = priority_text(t.priority);
    let caps = t.capabilities;
    let deps = t.depends_on;
    let l1 = kv("task-id"@, t.id);
    let l2 = kv("priority"@, p);
    let s1 = empty_note();
    lemma_step_id(s1, t.id);
    let s2 = NoteV { id: t.id, ..s1 };
    lemma_step_priority(s2, p);
    let s3 = NoteV { priority: Some(p), ..s2 };
    let a1 = start.push(l1);
    let a = a1.push(l2);
    lemma_apply_lines_push(start, l1);
    lemma_apply_lines_push(a1, l2);
    assert(apply_lines(a, a.len() as int) == s3);
    let b = if caps.len() > 0 {
        a.push(kv("capabilities"@, list_text(caps)))
    } else {
        a
    };
    let s4 = if caps.len() > 0 {
        NoteV { capabilities: caps, ..s3 }
    } else {
        s3
    };
    if caps.len() > 0 {
        lemma_step_capabilities(s3, caps);
        lemma_apply_lines_push(a, kv("capabilities"@, list_text(caps)));
    }
    assert(apply_lines(b, b.len() as int) == s4);
    let c = if deps.len() > 0 {
        b.push(kv("depends-on"@, list_text(deps)))
    } else {
        b
    };
    let s5 = if deps.len() > 0 {
        NoteV { depends_on: deps, ..s4 }
    } else {
        s4
    };
    if deps.len() > 0 {
        lemma_step_depends(s4, deps);
        lemma_apply_lines_push(b, kv("depends-on"@, list_text(deps)));
    }
    assert(apply_lines(c, c.len() as int) == s5);
    let l5 = kv("done"@, done_text(t.done));
    let d = c.push(l5);
    lemma_step_done(s5, t.done);
    lemma_apply_lines_push(c, l5);
    let s6 = NoteV { done: t.done, ..s5 };
    assert(apply_lines(d, d.len() as int) == s6);
    let f = fm_from(start, t);
    match t.origin {
        Some(o) => {
            lemma_step_origin(s6, o);
            lemma_apply_lines_push(d, kv("origin"@, o));
            assert(f == d.push(kv("origin"@, o)));
            assert(apply_lines(f, f.len() as int) =~= kept(t));
        },
        None => {
            assert(f == d);
            assert(apply_lines(f, f.len() as int) =~= kept(t));
        },
    }
}

/// A task written as a Markdown note and read back keeps its id, priority
/// (the default `1` when it had none), capabilities, dependencies, done
/// flag and origin, whenever each of them fits on one frontmatter line:
/// not empty, without line breaks, surrounding whitespace or double
/// quotes, and list items without commas.
pub proof fn law_md_note_round_trip(t: TaskV)
    requires
        note_safe(t),
    ensures
        note_spec(notes_text(seq![t], 1)) matches Ok(back) && back.id == t.id && back.priority
            == Some(priority_text(t.priority)) && back.capabilities == t.capabilities
            && back.depends_on == t.depends_on && back.done == t.done && back.origin == t.origin,
{
    reveal_strlit("\n---");
    reveal_strlit("---");
    let text = notes_text(seq![t], 1);
    assert(notes_text(seq![t], 0) == Seq::<char>::empty());
    assert(text =~= note_text(t));
    lemma_note_frontmatter(t);
    lemma_body_text(t);
    let ls = fm_from(seq![], t);
    let tail = note_body(t).skip(3);
    assert(apply_lines(Seq::<Seq<char>>::empty(), 0) == empty_note());
    lemma_read_lines(seq![], t);
    let nl = nl_lines(ls);
    assert(text =~= "---"@ + nl + "\n---"@ + tail);
    let rest = text.skip(3);
    assert(rest =~= Seq::<char>::empty() + nl + "\n---"@ + tail);
    lemma_fence_after_lines(seq![], ls, tail);
    let j = fence_from(rest, 0);
    assert(j == nl.len());
    assert(rest.take(j) =~= nl);
    lemma_lines_of_nl(ls);
    let start: Seq<Seq<char>> = seq![Seq::<char>::empty()];
    let e = Seq::<char>::empty();
    assert(find_from(e, ':', 0) == 0);
    assert(apply_line(empty_note(), e) == empty_note());
    assert(apply_lines(start, 1) == apply_line(apply_lines(start, 0), start[0]));
    assert(apply_lines(start, start.len() as int) == empty_note());
    lemma_read_lines(start, t);
    let big = fm_from(start, t);
    assert(seq![e] + ls =~= big);
    assert(apply_lines(lines_spec(rest.take(j)), lines_spec(rest.take(j)).len() as int) == kept(t));
}

} // verus!
