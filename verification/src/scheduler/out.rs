//! JSON text pieces shared by the renderers: string escaping and arrays
//! of strings.

use vstd::prelude::*;
use crate::scheduler::graph::BlockReason;
use crate::text::{chars_of, dec, push_char, push_decimal, push_str};

verus! {

/// The lowercase hexadecimal digit for `d < 16`.
pub open spec fn hex_char(d: int) -> char {
    if d < 10 {
        (('0' as int) + d) as char
    } else {
        (('a' as int) + d - 10) as char
    }
}

/// How one character appears inside a JSON string: quote, backslash and
/// the usual control characters get their short escapes, other control
/// characters a `\u00XX` escape, everything else stands for itself.
pub open spec fn json_esc_char(c: char) -> Seq<char> {
    if c == '"' {
        seq!['\\', '"']
    } else if c == '\\' {
        seq!['\\', '\\']
    } else if c == '\n' {
        seq!['\\', 'n']
    } else if c == '\r' {
        seq!['\\', 'r']
    } else if c == '\t' {
        seq!['\\', 't']
    } else if (c as int) < 0x20 {
        seq!['\\', 'u', '0', '0', hex_char((c as int) / 16), hex_char((c as int) % 16)]
    } else {
        seq![c]
    }
}

/// A text escaped for use inside a JSON string.
pub open spec fn json_escape_spec(s: Seq<char>) -> Seq<char>
    decreases s.len(),
{
    if s.len() == 0 {
        Seq::empty()
    } else {
        json_escape_spec(s.drop_last()) + json_esc_char(s.last())
    }
}

fn hex_digit(d: u32) -> (c: char)
    requires
        d < 16,
    ensures
        c == hex_char(d as int),
{
    if d < 10 {
        char_from(48 + d)
    } else {
        char_from(87 + d)
    }
}

/// The character with code point `v`, for `v` in the ASCII range.
fn char_from(v: u32) -> (c: char)
    requires
        v < 128,
    ensures
        c as int == v,
{
    let b: u8 = v as u8;
    b as char
}

/// Appends `c` as it appears inside a JSON string.
pub fn push_json_char(out: &mut String, c: char)
    ensures
        final(out)@ == old(out)@ + json_esc_char(c),
{
    if c == '"' {
        push_str(out, "\\\"");
        proof { reveal_strlit("\\\""); }
    } else if c == '\\' {
        push_str(out, "\\\\");
        proof { reveal_strlit("\\\\"); }
    } else if c == '\n' {
        push_str(out, "\\n");
        proof { reveal_strlit("\\n"); }
    } else if c == '\r' {
        push_str(out, "\\r");
        proof { reveal_strlit("\\r"); }
    } else if c == '\t' {
        push_str(out, "\\t");
        proof { reveal_strlit("\\t"); }
    } else if (c as u32) < 0x20 {
        let v = c as u32;
        push_str(out, "\\u00");
        proof { reveal_strlit("\\u00"); }
        push_char(out, hex_digit(v / 16));
        push_char(out, hex_digit(v % 16));
    } else {
        push_char(out, c);
    }
    assert(final(out)@ =~= old(out)@ + json_esc_char(c));
}

/// Escapes a text for use inside a JSON string.
pub fn json_escape(s: &str) -> (r: String)
    ensures
        r@ == json_escape_spec(s@),
{
    let v = chars_of(s);
    let mut out = String::new();
    for i in 0..v.len()
        invariant
            v@ == s@,
            out@ == json_escape_spec(s@.take(i as int)),
    {
        push_json_char(&mut out, v[i]);
        assert(s@.take(i + 1).drop_last() =~= s@.take(i as int));
    }
    assert(s@.take(s@.len() as int) =~= s@);
    out
}

/// A JSON array of the given strings, `["a","b"]`.
pub open spec fn str_array_spec(items: Seq<Seq<char>>) -> Seq<char> {
    seq!['['] + str_items(items) + seq![']']
}

/// The quoted, escaped strings separated by commas.
pub open spec fn str_items(items: Seq<Seq<char>>) -> Seq<char>
    decreases items.len(),
{
    if items.len() == 0 {
        Seq::empty()
    } else if items.len() == 1 {
        seq!['"'] + json_escape_spec(items[0]) + seq!['"']
    } else {
        str_items(items.drop_last()) + seq![','] + seq!['"'] + json_escape_spec(items.last())
            + seq!['"']
    }
}

/// A JSON array of the given strings.
pub fn str_array(items: &Vec<String>) -> (r: String)
    ensures
        r@ == str_array_spec(items@.map_values(|s: String| s@)),
{
    let ghost iv = items@.map_values(|s: String| s@);
    let mut out = String::new();
    push_char(&mut out, '[');
    for i in 0..items.len()
        invariant
            iv == items@.map_values(|s: String| s@),
            out@ == seq!['['] + str_items(iv.take(i as int)),
    {
        if i > 0 {
            push_char(&mut out, ',');
        }
        push_char(&mut out, '"');
        let e = json_escape(items[i].as_str());
        push_str(&mut out, e.as_str());
        push_char(&mut out, '"');
        assert(iv.take(i + 1).drop_last() =~= iv.take(i as int));
        assert(iv.take(i + 1).last() == items@[i as int]@);
        if i == 0 {
            assert(iv.take(0) =~= Seq::<Seq<char>>::empty());
        }
        assert(out@ =~= seq!['['] + str_items(iv.take(i + 1)));
    }
    push_char(&mut out, ']');
    assert(iv.take(iv.len() as int) =~= iv);
    assert(out@ =~= str_array_spec(iv));
    out
}

/// The parts with `sep` between each two.
pub open spec fn joined_by(parts: Seq<Seq<char>>, sep: Seq<char>) -> Seq<char>
    decreases parts.len(),
{
    if parts.len() == 0 {
        Seq::empty()
    } else if parts.len() == 1 {
        parts[0]
    } else {
        joined_by(parts.drop_last(), sep) + sep + parts.last()
    }
}

/// The parts one after another.
pub open spec fn concat(parts: Seq<Seq<char>>) -> Seq<char>
    decreases parts.len(),
{
    if parts.len() == 0 {
        Seq::empty()
    } else {
        concat(parts.drop_last()) + parts.last()
    }
}

/// A JSON string holding `s`.
pub open spec fn quoted(s: Seq<char>) -> Seq<char> {
    seq!['"'] + json_escape_spec(s) + seq!['"']
}

fn push_quoted(out: &mut String, s: &str)
    ensures
        final(out)@ == old(out)@ + quoted(s@),
{
    push_char(out, '"');
    let e = json_escape(s);
    push_str(out, e.as_str());
    push_char(out, '"');
}

/// The JSON object of one source file: its repository, path and number
/// of tasks.
pub open spec fn source_json(repo: Seq<char>, path: Seq<char>, tasks: nat) -> Seq<char> {
    "{\"repo\":"@ + quoted(repo) + ",\"path\":"@ + quoted(path) + ",\"tasks\":"@ + dec(tasks) + "}"@
}

pub open spec fn source_parts(s: Seq<(String, String, usize)>) -> Seq<Seq<char>> {
    Seq::new(s.len(), |i: int| source_json(s[i].0@, s[i].1@, s[i].2 as nat))
}

/// The source objects of a plan, comma-separated.
pub fn sources_json(sources: &Vec<(String, String, usize)>) -> (r: String)
    ensures
        r@ == joined_by(source_parts(sources@), ","@),
{
    let ghost parts = source_parts(sources@);
    let mut out = String::new();
    for i in 0..sources.len()
        invariant
            parts == source_parts(sources@),
            out@ == joined_by(parts.take(i as int), ","@),
    {
        let ghost before = out@;
        if i > 0 {
            push_str(&mut out, ",");
        }
        push_str(&mut out, "{\"repo\":");
        push_quoted(&mut out, sources[i].0.as_str());
        push_str(&mut out, ",\"path\":");
        push_quoted(&mut out, sources[i].1.as_str());
        push_str(&mut out, ",\"tasks\":");
        push_decimal(&mut out, sources[i].2 as u64);
        push_str(&mut out, "}");
        assert(parts.take(i + 1).drop_last() =~= parts.take(i as int));
        assert(parts.take(i + 1).last() == parts[i as int]);
        if i == 0 {
            assert(out@ =~= parts[0]);
        } else {
            assert(out@ =~= before + ","@ + parts[i as int]);
        }
        assert(out@ =~= joined_by(parts.take(i + 1), ","@));
    }
    assert(parts.take(parts.len() as int) =~= parts);
    out
}

/// Why a task is blocked, as a JSON object.
pub open spec fn reason_json(r: BlockReason) -> Seq<char> {
    match r {
        BlockReason::MissingDep(d) => "{\"kind\":\"missing-dep\",\"dep\":"@ + quoted(d@) + "}"@,
        BlockReason::WaitingOn(d) => "{\"kind\":\"waiting-on\",\"dep\":"@ + quoted(d@) + "}"@,
        BlockReason::Cycle => "{\"kind\":\"cycle\"}"@,
    }
}

/// One blocked task `(id, origin, reason)` as a JSON object.
pub open spec fn blocked_entry_json(e: (String, String, BlockReason)) -> Seq<char> {
    "{\"id\":"@ + quoted(e.0@) + ",\"origin\":"@ + quoted(e.1@) + ",\"reason\":"@ + reason_json(e.2)
        + "}"@
}

pub open spec fn blocked_parts(d: Seq<(String, String, BlockReason)>) -> Seq<Seq<char>> {
    Seq::new(d.len(), |i: int| blocked_entry_json(d[i]))
}

fn push_blocked_entry(out: &mut String, e: &(String, String, BlockReason))
    ensures
        final(out)@ == old(out)@ + blocked_entry_json(*e),
{
    let ghost start = out@;
    push_str(out, "{\"id\":");
    push_quoted(out, e.0.as_str());
    push_str(out, ",\"origin\":");
    push_quoted(out, e.1.as_str());
    push_str(out, ",\"reason\":");
    match &e.2 {
        BlockReason::MissingDep(d) => {
            push_str(out, "{\"kind\":\"missing-dep\",\"dep\":");
            push_quoted(out, d.as_str());
            push_str(out, "}");
        },
        BlockReason::WaitingOn(d) => {
            push_str(out, "{\"kind\":\"waiting-on\",\"dep\":");
            push_quoted(out, d.as_str());
            push_str(out, "}");
        },
        BlockReason::Cycle => {
            push_str(out, "{\"kind\":\"cycle\"}");
        },
    }
    push_str(out, "}");
    assert(out@ =~= start + blocked_entry_json(*e));
}

/// The blocked tasks of a plan as JSON objects, comma-separated.
pub fn blocked_json(detail: &Vec<(String, String, BlockReason)>) -> (r: String)
    ensures
        r@ == joined_by(blocked_parts(detail@), ","@),
{
    let ghost parts = blocked_parts(detail@);
    let mut out = String::new();
    for i in 0..detail.len()
        invariant
            parts == blocked_parts(detail@),
            out@ == joined_by(parts.take(i as int), ","@),
    {
        let ghost before = out@;
        if i > 0 {
            push_str(&mut out, ",");
        }
        push_blocked_entry(&mut out, &detail[i]);
        assert(parts.take(i + 1).drop_last() =~= parts.take(i as int));
        assert(parts.take(i + 1).last() == parts[i as int]);
        if i == 0 {
            assert(out@ =~= parts[0]);
        } else {
            assert(out@ =~= before + ","@ + parts[i as int]);
        }
        assert(out@ =~= joined_by(parts.take(i + 1), ","@));
    }
    assert(parts.take(parts.len() as int) =~= parts);
    out
}

/// Why a task is blocked, in words.
pub open spec fn reason_text(r: BlockReason) -> Seq<char> {
    match r {
        BlockReason::MissingDep(d) => "missing dep `"@ + d@ + "`"@,
        BlockReason::WaitingOn(d) => "waiting on `"@ + d@ + "`"@,
        BlockReason::Cycle => "dependency cycle"@,
    }
}

pub open spec fn blocked_lines(d: Seq<(String, String, BlockReason)>) -> Seq<Seq<char>> {
    Seq::new(d.len(), |i: int| "  ["@ + d[i].1@ + "] "@ + d[i].0@ + ": "@ + reason_text(d[i].2) + "\n"@)
}

fn push_blocked_line(out: &mut String, e: &(String, String, BlockReason))
    ensures
        final(out)@ == old(out)@ + "  ["@ + e.1@ + "] "@ + e.0@ + ": "@ + reason_text(e.2) + "\n"@,
{
    let ghost start = out@;
    push_str(out, "  [");
    push_str(out, e.1.as_str());
    push_str(out, "] ");
    push_str(out, e.0.as_str());
    push_str(out, ": ");
    match &e.2 {
        BlockReason::MissingDep(d) => {
            push_str(out, "missing dep `");
            push_str(out, d.as_str());
            push_str(out, "`");
        },
        BlockReason::WaitingOn(d) => {
            push_str(out, "waiting on `");
            push_str(out, d.as_str());
            push_str(out, "`");
        },
        BlockReason::Cycle => {
            push_str(out, "dependency cycle");
        },
    }
    push_str(out, "\n");
    assert(out@ =~= start + "  ["@ + e.1@ + "] "@ + e.0@ + ": "@ + reason_text(e.2) + "\n"@);
}

/// The text plan's closing section: a heading and one line per blocked
/// task, or nothing when none is blocked.
pub fn blocked_text(detail: &Vec<(String, String, BlockReason)>) -> (r: String)
    ensures
        r@ == if detail@.len() == 0 {
            Seq::empty()
        } else {
            "== blocked ==\n"@ + concat(blocked_lines(detail@))
        },
{
    let mut out = String::new();
    if detail.len() == 0 {
        return out;
    }
    push_str(&mut out, "== blocked ==\n");
    let ghost head = out@;
    let ghost lines = blocked_lines(detail@);
    for i in 0..detail.len()
        invariant
            lines == blocked_lines(detail@),
            out@ == head + concat(lines.take(i as int)),
    {
        push_blocked_line(&mut out, &detail[i]);
        assert(lines.take(i + 1).drop_last() =~= lines.take(i as int));
        assert(out@ =~= head + concat(lines.take(i + 1)));
    }
    assert(lines.take(lines.len() as int) =~= lines);
    out
}

/// The graph's counts `(total, done, ready, blocked)` in words.
pub open spec fn counts_text(c: (usize, usize, usize, usize)) -> Seq<char> {
    "graph: "@ + dec(c.0 as nat) + " tasks | "@ + dec(c.1 as nat) + " done | "@ + dec(c.2 as nat)
        + " ready | "@ + dec(c.3 as nat) + " blocked\n\n"@
}

pub open spec fn warning_lines(w: Seq<String>) -> Seq<Seq<char>> {
    Seq::new(w.len(), |i: int| "WARN: "@ + w[i]@ + "\n"@)
}

/// The text plan's opening: one line per warning, then the graph's counts.
pub fn header_text(warnings: &Vec<String>, counts: (usize, usize, usize, usize)) -> (r: String)
    ensures
        r@ == concat(warning_lines(warnings@)) + counts_text(counts),
{
    let mut out = String::new();
    let ghost lines = warning_lines(warnings@);
    for i in 0..warnings.len()
        invariant
            lines == warning_lines(warnings@),
            out@ == concat(lines.take(i as int)),
    {
        push_str(&mut out, "WARN: ");
        push_str(&mut out, warnings[i].as_str());
        push_str(&mut out, "\n");
        assert(lines.take(i + 1).drop_last() =~= lines.take(i as int));
        assert(out@ =~= concat(lines.take(i + 1)));
    }
    assert(lines.take(lines.len() as int) =~= lines);
    let ghost mid = out@;
    push_str(&mut out, "graph: ");
    push_decimal(&mut out, counts.0 as u64);
    push_str(&mut out, " tasks | ");
    push_decimal(&mut out, counts.1 as u64);
    push_str(&mut out, " done | ");
    push_decimal(&mut out, counts.2 as u64);
    push_str(&mut out, " ready | ");
    push_decimal(&mut out, counts.3 as u64);
    push_str(&mut out, " blocked\n\n");
    assert(out@ =~= mid + counts_text(counts));
    out
}

/// The graph's counts as the JSON object of a plan.
pub open spec fn graph_json_spec(c: (usize, usize, usize, usize)) -> Seq<char> {
    "{\"total\":"@ + dec(c.0 as nat) + ",\"done\":"@ + dec(c.1 as nat) + ",\"ready\":"@ + dec(
        c.2 as nat,
    ) + ",\"blocked\":"@ + dec(c.3 as nat) + "}"@
}

pub fn graph_json(counts: (usize, usize, usize, usize)) -> (r: String)
    ensures
        r@ == graph_json_spec(counts),
{
    let mut out = String::from_str("{\"total\":");
    push_decimal(&mut out, counts.0 as u64);
    push_str(&mut out, ",\"done\":");
    push_decimal(&mut out, counts.1 as u64);
    push_str(&mut out, ",\"ready\":");
    push_decimal(&mut out, counts.2 as u64);
    push_str(&mut out, ",\"blocked\":");
    push_decimal(&mut out, counts.3 as u64);
    push_str(&mut out, "}");
    out
}

/// The heading of one agent's route in the text plan: its capabilities
/// (`any` when it declared none), and a note when nothing is actionable.
pub open spec fn route_head_spec(agent: Seq<char>, caps: Seq<Seq<char>>, nothing: bool) -> Seq<char> {
    "== "@ + agent + " (caps: "@ + (if caps.len() == 0 {
        "any"@
    } else {
        joined_by(caps, ", "@)
    }) + ") ==\n"@ + (if nothing {
        "  (nothing actionable)\n"@
    } else {
        Seq::empty()
    })
}

pub fn route_head(agent: &str, caps: &Vec<String>, nothing: bool) -> (r: String)
    ensures
        r@ == route_head_spec(agent@, caps@.map_values(|c: String| c@), nothing),
{
    let ghost cv = caps@.map_values(|c: String| c@);
    let mut out = String::from_str("== ");
    push_str(&mut out, agent);
    push_str(&mut out, " (caps: ");
    let ghost start = out@;
    if caps.len() == 0 {
        push_str(&mut out, "any");
    } else {
        for i in 0..caps.len()
            invariant
                cv == caps@.map_values(|c: String| c@),
                out@ == start + joined_by(cv.take(i as int), ", "@),
        {
            let ghost before = out@;
            if i > 0 {
                push_str(&mut out, ", ");
            }
            push_str(&mut out, caps[i].as_str());
            assert(cv.take(i + 1).drop_last() =~= cv.take(i as int));
            assert(cv.take(i + 1).last() == caps@[i as int]@);
            if i == 0 {
                assert(out@ =~= start + cv[0]);
            }
            assert(out@ =~= start + joined_by(cv.take(i + 1), ", "@));
        }
        assert(cv.take(cv.len() as int) =~= cv);
    }
    push_str(&mut out, ") ==\n");
    if nothing {
        push_str(&mut out, "  (nothing actionable)\n");
    }
    out
}

} // verus!
