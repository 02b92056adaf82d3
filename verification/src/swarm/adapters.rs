//! Format adapters between the durable `tasks.my` records and interchange
//! formats: JSON task lists, GitHub issue objects, and Markdown notes with
//! a `---` frontmatter block.
//!
//! | field        | JSON key       | GitHub issue      | Markdown frontmatter     |
//! |--------------|----------------|-------------------|--------------------------|
//! | id           | id             | `GH-<number>`     | task-id / id / title     |
//! | priority     | priority (num) | default given     | priority                 |
//! | capabilities | capabilities[] | labels[].name     | tags / capabilities      |
//! | depends_on   | depends_on[]   | —                 | depends-on / depends_on  |
//! | done         | done (bool)    | state == "closed" | done                     |
//! | description  | description    | title, body       | first line of the body   |
//!
//! Priorities stay text, as written; the default when none is given is 1.

use vstd::prelude::*;
use crate::observer::git_read::{lines_spec, strs, text_lines};
use crate::scheduler::tasks_file::{opt_view, strs_view, ParsedTask, TaskV};
use crate::swarm::minijson::{get_from, jsons_from, lemma_jsons_from, parse, parse_spec, Json, JsonV};
use crate::text::{
    dec, push_decimal, push_str, chars_of, find_char_from, find_from, is_ws, lemma_find_from_bounds, string_of, str_eq,
    sub_chars, trim_chars, trim_spec, texts_of, trimmed_items, split_trimmed,
};

verus! {

/// Where `s` starts once every leading `c` from `p` on is skipped.
pub open spec fn lead_char(s: Seq<char>, c: char, p: int) -> int
    decreases s.len() - p,
{
    if 0 <= p < s.len() && s[p] == c {
        lead_char(s, c, p + 1)
    } else {
        p
    }
}

/// Where `s[..e]` ends once every trailing `c` above `lo` is dropped.
pub open spec fn trail_char(s: Seq<char>, c: char, e: int, lo: int) -> int
    decreases e,
{
    if 0 <= lo < e <= s.len() && s[e - 1] == c {
        trail_char(s, c, e - 1, lo)
    } else {
        e
    }
}

/// `s` without leading and trailing `c`, as `trim_matches(c)` gives it.
pub open spec fn trim_both(s: Seq<char>, c: char) -> Seq<char> {
    let a = lead_char(s, c, 0);
    s.subrange(a, trail_char(s, c, s.len() as int, a))
}

proof fn lemma_lead_char(s: Seq<char>, c: char, p: int)
    requires
        0 <= p <= s.len(),
    ensures
        p <= lead_char(s, c, p) <= s.len(),
    decreases s.len() - p,
{
    if p < s.len() && s[p] == c {
        lemma_lead_char(s, c, p + 1);
    }
}

proof fn lemma_trail_char(s: Seq<char>, c: char, e: int, lo: int)
    requires
        0 <= lo <= e <= s.len(),
    ensures
        lo <= trail_char(s, c, e, lo) <= e,
    decreases e,
{
    if lo < e && s[e - 1] == c {
        lemma_trail_char(s, c, e - 1, lo);
    }
}

/// `v[lo..hi]` without leading and trailing `c`.
fn trim_char_in(v: &[char], c: char, lo: usize, hi: usize) -> (r: Vec<char>)
    requires
        lo <= hi <= v@.len(),
    ensures
        r@ == trim_both(v@.subrange(lo as int, hi as int), c),
{
    let ghost t = v@.subrange(lo as int, hi as int);
    let mut a: usize = lo;
    while a < hi && v[a] == c
        invariant
            lo <= a <= hi <= v@.len(),
            t == v@.subrange(lo as int, hi as int),
            lead_char(t, c, a - lo) == lead_char(t, c, 0),
        decreases hi - a,
    {
        assert(t[a - lo] == v@[a as int]);
        a = a + 1;
    }
    assert(a < hi ==> t[a - lo] == v@[a as int]);
    let mut e: usize = hi;
    while e > a && v[e - 1] == c
        invariant
            lo <= a <= e <= hi <= v@.len(),
            t == v@.subrange(lo as int, hi as int),
            a - lo == lead_char(t, c, 0),
            trail_char(t, c, e - lo, a - lo) == trail_char(t, c, t.len() as int, a - lo),
        decreases e,
    {
        assert(t[e - lo - 1] == v@[e - 1]);
        e = e - 1;
    }
    assert(e > a ==> t[e - lo - 1] == v@[e - 1]);
    let r = sub_chars(v, a, e);
    assert(r@ =~= trim_both(t, c));
    r
}

/// What `slugify` keeps of one character: ASCII letters upper-cased, ASCII
/// digits as they are, everything else a dash.
pub open spec fn slug_char(c: char) -> char {
    if 'a' <= c && c <= 'z' {
        ((c as u32) - 32) as char
    } else if ('A' <= c && c <= 'Z') || ('0' <= c && c <= '9') {
        c
    } else {
        '-'
    }
}

/// The first `k` characters of `t` with each run of dashes cut to one.
pub open spec fn squeeze_dashes(t: Seq<char>, k: int) -> Seq<char>
    decreases k,
{
    if k <= 0 {
        seq![]
    } else if t[k - 1] == '-' && k >= 2 && t[k - 2] == '-' {
        squeeze_dashes(t, k - 1)
    } else {
        squeeze_dashes(t, k - 1).push(t[k - 1])
    }
}

/// An id made of a title: upper-case letters and digits, single dashes
/// between the words, none at either end.
pub open spec fn slug_spec(s: Seq<char>) -> Seq<char> {
    let mapped = s.map_values(|c: char| slug_char(c));
    let t = trim_both(mapped, '-');
    squeeze_dashes(t, t.len() as int)
}

fn slug_char_of(c: char) -> (r: char)
    ensures
        r == slug_char(c),
{
    if 'a' <= c && c <= 'z' {
        let u: u8 = (c as u8) - 32;
        u as char
    } else if ('A' <= c && c <= 'Z') || ('0' <= c && c <= '9') {
        c
    } else {
        '-'
    }
}

/// An id made of a title, as `slug_spec` describes.
pub fn slugify(s: &str) -> (r: String)
    ensures
        r@ == slug_spec(s@),
{
    let chars = chars_of(s);
    let mut mapped: Vec<char> = Vec::new();
    for i in 0..chars.len()
        invariant
            chars@ == s@,
            mapped@ == s@.take(i as int).map_values(|c: char| slug_char(c)),
    {
        mapped.push(slug_char_of(chars[i]));
        assert(mapped@ =~= s@.take(i + 1).map_values(|c: char| slug_char(c)));
    }
    assert(s@.take(s@.len() as int) =~= s@);
    let t = trim_char_in(mapped.as_slice(), '-', 0, mapped.len());
    assert(mapped@.subrange(0, mapped@.len() as int) =~= mapped@);
    let mut out: Vec<char> = Vec::new();
    for k in 0..t.len()
        invariant
            out@ == squeeze_dashes(t@, k as int),
    {
        if !(t[k] == '-' && k >= 1 && t[k - 1] == '-') {
            out.push(t[k]);
        }
    }
    string_of(out.as_slice())
}

/// A frontmatter list such as `[a, b]`: the brackets dropped, the items
/// split at commas and trimmed, empty ones left out.
pub open spec fn list_items(v: Seq<char>) -> Seq<Seq<char>> {
    let u = v.skip(lead_char(v, '[', 0));
    trimmed_items(u.take(trail_char(u, ']', u.len() as int, 0)), 0)
}

/// The items of a frontmatter list value.
fn list_of(v: &Vec<char>) -> (r: Vec<String>)
    ensures
        texts_of(r@) == list_items(v@),
{
    let mut a: usize = 0;
    while a < v.len() && v[a] == '['
        invariant
            a <= v@.len(),
            lead_char(v@, '[', a as int) == lead_char(v@, '[', 0),
        decreases v@.len() - a,
    {
        a = a + 1;
    }
    let ghost u = v@.skip(a as int);
    let mut e: usize = v.len();
    while e > a && v[e - 1] == ']'
        invariant
            a <= e <= v@.len(),
            u == v@.skip(a as int),
            trail_char(u, ']', e - a, 0) == trail_char(u, ']', u.len() as int, 0),
        decreases e,
    {
        assert(u[e - a - 1] == v@[e - 1]);
        e = e - 1;
    }
    assert(e > a ==> u[e - a - 1] == v@[e - 1]);
    let inner = sub_chars(v.as_slice(), a, e);
    assert(inner@ =~= u.take(trail_char(u, ']', u.len() as int, 0)));
    split_trimmed(inner.as_slice())
}

/// What the frontmatter says so far.
#[verifier::ext_equal]
pub struct NoteV {
    pub id: Seq<char>,
    pub priority: Option<Seq<char>>,
    pub capabilities: Seq<Seq<char>>,
    pub depends_on: Seq<Seq<char>>,
    pub done: bool,
    pub origin: Option<Seq<char>>,
    /// The last title given while no id had been.
    pub slug_title: Option<Seq<char>>,
    /// The last title given.
    pub title_fallback: Option<Seq<char>>,
}

pub open spec fn empty_note() -> NoteV {
    NoteV {
        id: seq![],
        priority: None,
        capabilities: seq![],
        depends_on: seq![],
        done: false,
        origin: None,
        slug_title: None,
        title_fallback: None,
    }
}

/// One frontmatter line `key: value` read into `st`; a line without a
/// colon, or with a key not listed, changes nothing. The value is trimmed,
/// then loses its surrounding double quotes.
pub open spec fn apply_line(st: NoteV, line: Seq<char>) -> NoteV {
    let c = find_from(line, ':', 0);
    if c >= line.len() {
        st
    } else {
        let k = trim_spec(line.take(c));
        let v = trim_both(trim_spec(line.skip(c + 1)), '"');
        if k == "task-id"@ || k == "id"@ {
            NoteV { id: v, ..st }
        } else if k == "title"@ {
            NoteV {
                slug_title: if st.id.len() == 0 {
                    Some(v)
                } else {
                    st.slug_title
                },
                title_fallback: Some(v),
                ..st
            }
        } else if k == "priority"@ {
            NoteV { priority: Some(v), ..st }
        } else if k == "tags"@ || k == "capabilities"@ {
            NoteV { capabilities: list_items(v), ..st }
        } else if k == "depends-on"@ || k == "depends_on"@ {
            NoteV { depends_on: list_items(v), ..st }
        } else if k == "done"@ {
            NoteV { done: v == "true"@ || v == "t"@ || v == "yes"@, ..st }
        } else if k == "origin"@ {
            NoteV { origin: Some(v), ..st }
        } else {
            st
        }
    }
}

/// The first `k` lines read in order.
pub open spec fn apply_lines(ls: Seq<Seq<char>>, k: int) -> NoteV
    decreases k,
{
    if k <= 0 {
        empty_note()
    } else {
        apply_line(apply_lines(ls, k - 1), ls[k - 1])
    }
}

/// The first position at or after `i` where `\n---` starts, or -1.
pub open spec fn fence_from(s: Seq<char>, i: int) -> int
    decreases s.len() - i,
{
    if i < 0 || i + 4 > s.len() {
        -1
    } else if s[i] == '\n' && s[i + 1] == '-' && s[i + 2] == '-' && s[i + 3] == '-' {
        i
    } else {
        fence_from(s, i + 1)
    }
}

/// The first line from `i` on that is not blank, trimmed.
pub open spec fn first_line_from(ls: Seq<Seq<char>>, i: int) -> Option<Seq<char>>
    decreases ls.len() - i,
{
    if i < 0 || i >= ls.len() {
        None
    } else if trim_spec(ls[i]).len() > 0 {
        Some(trim_spec(ls[i]))
    } else {
        first_line_from(ls, i + 1)
    }
}

/// The id of a note: the one given, or else one made of its title.
pub open spec fn note_id(st: NoteV) -> Seq<char> {
    if st.id.len() > 0 {
        st.id
    } else {
        match st.slug_title {
            Some(t) => slug_spec(t),
            None => match st.title_fallback {
                Some(t) => slug_spec(t),
                None => st.id,
            },
        }
    }
}

/// The task a Markdown note describes: its frontmatter between a leading
/// `---` and the next line starting `---`, and the first line of its body
/// as the description.
pub open spec fn note_spec(text: Seq<char>) -> Result<TaskV, Seq<char>> {
    if text.len() < 3 || text[0] != '-' || text[1] != '-' || text[2] != '-' {
        Err("no frontmatter block"@)
    } else {
        let rest = text.skip(3);
        let j = fence_from(rest, 0);
        if j < 0 {
            Err("unterminated frontmatter"@)
        } else {
            let ls = lines_spec(rest.take(j));
            let st = apply_lines(ls, ls.len() as int);
            let id = note_id(st);
            if id.len() == 0 {
                Err("note has neither task-id/id nor title to derive one from"@)
            } else {
                let body = trim_spec(rest.skip(j + 4));
                Ok(
                    TaskV {
                        id,
                        priority: st.priority,
                        capabilities: st.capabilities,
                        depends_on: st.depends_on,
                        done: st.done,
                        description: if body.len() > 0 {
                            first_line_from(lines_spec(body), 0)
                        } else {
                            None
                        },
                        origin: st.origin,
                    },
                )
            }
        }
    }
}

/// What the frontmatter says so far.
struct NoteState {
    id: String,
    priority: Option<String>,
    capabilities: Vec<String>,
    depends_on: Vec<String>,
    done: bool,
    origin: Option<String>,
    slug_title: Option<String>,
    title_fallback: Option<String>,
}

impl View for NoteState {
    type V = NoteV;

    closed spec fn view(&self) -> NoteV {
        NoteV {
            id: self.id@,
            priority: opt_view(self.priority),
            capabilities: texts_of(self.capabilities@),
            depends_on: texts_of(self.depends_on@),
            done: self.done,
            origin: opt_view(self.origin),
            slug_title: opt_view(self.slug_title),
            title_fallback: opt_view(self.title_fallback),
        }
    }
}

fn is_empty_text(s: &String) -> (r: bool)
    ensures
        r == (s@.len() == 0),
{
    chars_of(s.as_str()).len() == 0
}

/// Reads one frontmatter line into `st`.
fn apply_note_line(st: &mut NoteState, line: &str)
    ensures
        final(st)@ == apply_line(old(st)@, line@),
{
    let v = chars_of(line);
    let c = find_char_from(v.as_slice(), ':', 0);
    proof {
        lemma_find_from_bounds(line@, ':', 0);
    }
    if c >= v.len() {
        return;
    }
    let k = trim_chars(&sub_chars(v.as_slice(), 0, c));
    let raw = trim_chars(&sub_chars(v.as_slice(), c + 1, v.len()));
    let val = trim_char_in(raw.as_slice(), '"', 0, raw.len());
    proof {
        assert(line@.take(c as int) =~= line@.subrange(0, c as int));
        assert(line@.skip(c + 1) =~= line@.subrange(c + 1, line@.len() as int));
        assert(raw@.subrange(0, raw@.len() as int) =~= raw@);
    }
    let key = string_of(k.as_slice());
    let value = string_of(val.as_slice());
    let ghost before = st@;
    if str_eq(key.as_str(), "task-id") || str_eq(key.as_str(), "id") {
        st.id = value;
        assert(st@ =~= NoteV { id: value@, ..before });
    } else if str_eq(key.as_str(), "title") {
        if is_empty_text(&st.id) {
            st.slug_title = Some(value.clone());
        }
        st.title_fallback = Some(value);
        assert(st@ =~= NoteV {
            slug_title: if before.id.len() == 0 {
                Some(val@)
            } else {
                before.slug_title
            },
            title_fallback: Some(val@),
            ..before
        });
    } else if str_eq(key.as_str(), "priority") {
        st.priority = Some(value);
        assert(st@ =~= NoteV { priority: Some(val@), ..before });
    } else if str_eq(key.as_str(), "tags") || str_eq(key.as_str(), "capabilities") {
        st.capabilities = list_of(&val);
        assert(st@ =~= NoteV { capabilities: list_items(val@), ..before });
    } else if str_eq(key.as_str(), "depends-on") || str_eq(key.as_str(), "depends_on") {
        st.depends_on = list_of(&val);
        assert(st@ =~= NoteV { depends_on: list_items(val@), ..before });
    } else if str_eq(key.as_str(), "done") {
        st.done = str_eq(value.as_str(), "true") || str_eq(value.as_str(), "t") || str_eq(
            value.as_str(),
            "yes",
        );
        assert(st@ =~= NoteV { done: val@ == "true"@ || val@ == "t"@ || val@ == "yes"@, ..before });
    } else if str_eq(key.as_str(), "origin") {
        st.origin = Some(value);
        assert(st@ =~= NoteV { origin: Some(val@), ..before });
    }
}

/// The first position at or after `from` where `\n---` starts.
fn find_fence(s: &[char]) -> (r: Option<usize>)
    ensures
        match r {
            Some(j) => fence_from(s@, 0) == j && j + 4 <= s@.len(),
            None => fence_from(s@, 0) == -1,
        },
{
    let mut i: usize = 0;
    while s.len() >= 4 && i <= s.len() - 4
        invariant
            fence_from(s@, i as int) == fence_from(s@, 0),
        decreases s@.len() - i,
    {
        if s[i] == '\n' && s[i + 1] == '-' && s[i + 2] == '-' && s[i + 3] == '-' {
            return Some(i);
        }
        i = i + 1;
    }
    None
}

/// The first line of `lines` that is not blank, trimmed.
fn first_line(lines: &Vec<String>) -> (r: Option<String>)
    ensures
        opt_view(r) == first_line_from(strs(lines@), 0),
{
    let ghost ls = strs(lines@);
    let mut i: usize = 0;
    while i < lines.len()
        invariant
            ls == strs(lines@),
            first_line_from(ls, i as int) == first_line_from(ls, 0),
        decreases lines@.len() - i,
    {
        let t = trim_chars(&chars_of(lines[i].as_str()));
        if t.len() > 0 {
            return Some(string_of(t.as_slice()));
        }
        i = i + 1;
    }
    None
}

/// The task a Markdown note with `---` frontmatter describes.
pub fn task_from_md_note(text: &str) -> (r: Result<ParsedTask, String>)
    ensures
        match note_spec(text@) {
            Ok(t) => r matches Ok(p) && p@ == t,
            Err(m) => r matches Err(e) && e@ == m,
        },
{
    let v = chars_of(text);
    if v.len() < 3 || v[0] != '-' || v[1] != '-' || v[2] != '-' {
        return Err(String::from_str("no frontmatter block"));
    }
    let rest = sub_chars(v.as_slice(), 3, v.len());
    assert(rest@ =~= text@.skip(3));
    let j = match find_fence(rest.as_slice()) {
        Some(j) => j,
        None => return Err(String::from_str("unterminated frontmatter")),
    };
    let fm = sub_chars(rest.as_slice(), 0, j);
    assert(fm@ =~= rest@.take(j as int));
    let lines = text_lines(&fm);
    let ghost ls = strs(lines@);
    let mut st = NoteState {
        id: String::new(),
        priority: None,
        capabilities: Vec::new(),
        depends_on: Vec::new(),
        done: false,
        origin: None,
        slug_title: None,
        title_fallback: None,
    };
    assert(st@ =~= empty_note());
    for k in 0..lines.len()
        invariant
            ls == strs(lines@),
            st@ == apply_lines(ls, k as int),
    {
        apply_note_line(&mut st, lines[k].as_str());
    }
    let ghost fin = st@;
    let NoteState { id, priority, capabilities, depends_on, done, origin, slug_title, title_fallback } =
        st;
    let id = if !is_empty_text(&id) {
        id
    } else {
        match slug_title {
            Some(t) => slugify(t.as_str()),
            None => match title_fallback {
                Some(t) => slugify(t.as_str()),
                None => id,
            },
        }
    };
    assert(id@ == note_id(fin));
    if is_empty_text(&id) {
        return Err(String::from_str("note has neither task-id/id nor title to derive one from"));
    }
    let body = trim_chars(&sub_chars(rest.as_slice(), j + 4, rest.len()));
    assert(rest@.subrange(j + 4, rest@.len() as int) =~= rest@.skip(j + 4));
    let description = if body.len() > 0 {
        first_line(&text_lines(&body))
    } else {
        None
    };
    let t = ParsedTask { id, priority, capabilities, depends_on, done, description, origin };
    assert(t@ =~= note_spec(text@)->Ok_0);
    Ok(t)
}

/// The member `key` of an object.
pub open spec fn member(v: JsonV, key: Seq<char>) -> Option<JsonV> {
    match v {
        JsonV::Obj(pairs) => get_from(pairs, key, 0),
        _ => None,
    }
}

pub open spec fn str_of(v: Option<JsonV>) -> Option<Seq<char>> {
    match v {
        Some(JsonV::Str(s)) => Some(s),
        _ => None,
    }
}

/// The strings among the first `k` items, in order; other items are left
/// out.
pub open spec fn strings_in(items: Seq<JsonV>, k: int) -> Seq<Seq<char>>
    decreases k,
{
    if k <= 0 {
        seq![]
    } else {
        match items[k - 1] {
            JsonV::Str(s) => strings_in(items, k - 1).push(s),
            _ => strings_in(items, k - 1),
        }
    }
}

pub open spec fn string_list(v: Option<JsonV>) -> Seq<Seq<char>> {
    match v {
        Some(JsonV::Arr(items)) => strings_in(items, items.len() as int),
        _ => seq![],
    }
}

/// The task a JSON object describes: `id` is required and must be a
/// string; the other members are read when they have the right kind.
pub open spec fn json_task_spec(v: JsonV) -> Result<TaskV, Seq<char>> {
    match v {
        JsonV::Obj(_) => match str_of(member(v, "id"@)) {
            None => Err("task object needs `id`"@),
            Some(id) => Ok(
                TaskV {
                    id,
                    priority: match member(v, "priority"@) {
                        Some(JsonV::Num(n)) => Some(n),
                        _ => None,
                    },
                    capabilities: string_list(member(v, "capabilities"@)),
                    depends_on: string_list(member(v, "depends_on"@)),
                    done: match member(v, "done"@) {
                        Some(JsonV::Bool(b)) => b,
                        _ => false,
                    },
                    description: str_of(member(v, "description"@)),
                    origin: str_of(member(v, "origin"@)),
                },
            ),
        },
        _ => Err("task entry must be an object"@),
    }
}

/// The tasks of `items[k..]`, or the first entry's error.
pub open spec fn json_tasks_from(items: Seq<JsonV>, k: int) -> Result<Seq<TaskV>, Seq<char>>
    decreases items.len() - k,
{
    if k < 0 || k >= items.len() {
        Ok(seq![])
    } else {
        match json_task_spec(items[k]) {
            Err(m) => Err(m),
            Ok(t) => match json_tasks_from(items, k + 1) {
                Err(m) => Err(m),
                Ok(ts) => Ok(seq![t] + ts),
            },
        }
    }
}

/// The tasks of a JSON text: an array of task objects, or an object whose
/// `tasks` member is one.
pub open spec fn json_tasks_spec(text: Seq<char>) -> Result<Seq<TaskV>, Seq<char>> {
    match parse_spec(text) {
        Err(m) => Err(m),
        Ok(j) => match j {
            JsonV::Arr(items) => json_tasks_from(items, 0),
            JsonV::Obj(_) => match member(j, "tasks"@) {
                Some(JsonV::Arr(items)) => json_tasks_from(items, 0),
                _ => Err("JSON object must contain a `tasks` array"@),
            },
            _ => Err("top-level JSON must be an array or {tasks:[...]}"@),
        },
    }
}

pub open spec fn tasks_view(v: Seq<ParsedTask>) -> Seq<TaskV> {
    v.map_values(|t: ParsedTask| t@)
}

/// The strings of an optional JSON array.
fn strings_of(v: Option<&Json>) -> (r: Vec<String>)
    ensures
        texts_of(r@) == string_list(
            match v {
                Some(j) => Some(j.deep()),
                None => None,
            },
        ),
{
    let mut out: Vec<String> = Vec::new();
    match v {
        Some(j) => match j.as_arr() {
            Some(items) => {
                let ghost iv = jsons_from(items@, 0);
                proof {
                    lemma_jsons_from(items@, 0);
                }
                for k in 0..items.len()
                    invariant
                        iv == jsons_from(items@, 0),
                        iv.len() == items@.len(),
                        forall|i: int| 0 <= i < items@.len() ==> #[trigger] iv[i] == items@[i].deep(),
                        texts_of(out@) == strings_in(iv, k as int),
                {
                    assert(iv[k as int] == items@[k as int].deep());
                    match items[k].as_str() {
                        Some(s) => {
                            let ghost before = out@;
                            out.push(String::from_str(s));
                            assert(texts_of(out@) =~= texts_of(before).push(s@));
                        },
                        None => {},
                    }
                }
            },
            None => {},
        },
        None => {},
    }
    out
}

fn text_member(v: &Json, key: &str) -> (r: Option<String>)
    ensures
        opt_view(r) == str_of(member(v.deep(), key@)),
{
    match v.get(key) {
        Some(m) => match m.as_str() {
            Some(s) => Some(String::from_str(s)),
            None => None,
        },
        None => None,
    }
}

/// The task a JSON object describes.
fn json_task(v: &Json) -> (r: Result<ParsedTask, String>)
    ensures
        match json_task_spec(v.deep()) {
            Ok(t) => r matches Ok(p) && p@ == t,
            Err(m) => r matches Err(e) && e@ == m,
        },
{
    match v {
        Json::Obj(_) => {},
        _ => return Err(String::from_str("task entry must be an object")),
    }
    let id = match text_member(v, "id") {
        Some(id) => id,
        None => return Err(String::from_str("task object needs `id`")),
    };
    let priority = match v.get("priority") {
        Some(p) => match p.as_number_text() {
            Some(n) => Some(String::from_str(n)),
            None => None,
        },
        None => None,
    };
    let done = match v.get("done") {
        Some(d) => match d.as_bool() {
            Some(b) => b,
            None => false,
        },
        None => false,
    };
    let t = ParsedTask {
        id,
        priority,
        capabilities: strings_of(v.get("capabilities")),
        depends_on: strings_of(v.get("depends_on")),
        done,
        description: text_member(v, "description"),
        origin: text_member(v, "origin"),
    };
    assert(t@ =~= json_task_spec(v.deep())->Ok_0);
    Ok(t)
}

/// The tasks of `items`, or the first entry's error.
fn json_tasks(items: &[Json]) -> (r: Result<Vec<ParsedTask>, String>)
    ensures
        match json_tasks_from(jsons_from(items@, 0), 0) {
            Ok(ts) => r matches Ok(v) && tasks_view(v@) == ts,
            Err(m) => r matches Err(e) && e@ == m,
        },
{
    let ghost iv = jsons_from(items@, 0);
    proof {
        lemma_jsons_from(items@, 0);
    }
    let mut out: Vec<ParsedTask> = Vec::new();
    for k in 0..items.len()
        invariant
            iv == jsons_from(items@, 0),
            iv.len() == items@.len(),
            out@.len() == k,
            forall|i: int| 0 <= i < items@.len() ==> #[trigger] iv[i] == items@[i].deep(),
            json_tasks_from(iv, 0) == match json_tasks_from(iv, k as int) {
                Ok(ts) => Ok(tasks_view(out@) + ts),
                Err(m) => Err(m),
            },
    {
        assert(iv[k as int] == items@[k as int].deep());
        let ghost before = out@;
        match json_task(&items[k]) {
            Ok(t) => {
                out.push(t);
                assert(tasks_view(out@) =~= tasks_view(before).push(out@[k as int]@));
                proof {
                    match json_tasks_from(iv, k + 1) {
                        Ok(ts) => {
                            assert(tasks_view(before) + (seq![out@[k as int]@] + ts) =~= tasks_view(
                                out@,
                            ) + ts);
                        },
                        Err(_) => {},
                    }
                }
            },
            Err(m) => return Err(m),
        }
    }
    assert(tasks_view(out@) + Seq::<TaskV>::empty() =~= tasks_view(out@));
    Ok(out)
}

/// The tasks of a JSON text, as `json_tasks_spec` describes.
pub fn tasks_from_json(text: &str) -> (r: Result<Vec<ParsedTask>, String>)
    ensures
        match json_tasks_spec(text@) {
            Ok(ts) => r matches Ok(v) && tasks_view(v@) == ts,
            Err(m) => r matches Err(e) && e@ == m,
        },
{
    let j = match parse(text) {
        Ok(j) => j,
        Err(m) => return Err(m),
    };
    match &j {
        Json::Arr(items) => json_tasks(items.as_slice()),
        Json::Obj(_) => match j.get("tasks") {
            Some(t) => match t.as_arr() {
                Some(items) => json_tasks(items),
                None => Err(String::from_str("JSON object must contain a `tasks` array")),
            },
            None => Err(String::from_str("JSON object must contain a `tasks` array")),
        },
        _ => Err(String::from_str("top-level JSON must be an array or {tasks:[...]}")),
    }
}

pub open spec fn labels_of(caps: Seq<Seq<char>>) -> Seq<JsonV> {
    caps.map_values(|c: Seq<char>| JsonV::Str(c))
}

/// The GitHub issue shape of a task: its description (or id) as the
/// title, its capabilities as labels, and its state.
pub open spec fn gh_json_spec(t: TaskV) -> JsonV {
    JsonV::Obj(
        seq![
            ("title"@, JsonV::Str(match t.description { Some(d) => d, None => t.id })),
            ("labels"@, JsonV::Arr(labels_of(t.capabilities))),
            ("state"@, JsonV::Str(if t.done { "closed"@ } else { "open"@ })),
        ],
    )
}

/// A label's name: the `name` member of a label object, or the label
/// itself when it is a plain string.
pub open spec fn label_name(l: JsonV) -> Option<Seq<char>> {
    match str_of(member(l, "name"@)) {
        Some(n) => Some(n),
        None => str_of(Some(l)),
    }
}

/// The names of the first `k` labels, in order; labels without one are
/// left out.
pub open spec fn label_names(items: Seq<JsonV>, k: int) -> Seq<Seq<char>>
    decreases k,
{
    if k <= 0 {
        seq![]
    } else {
        match label_name(items[k - 1]) {
            Some(n) => label_names(items, k - 1).push(n),
            None => label_names(items, k - 1),
        }
    }
}

/// The task a GitHub issue object becomes, given its number and the
/// priority text the caller assigns: `<prefix>GH-<number>`, the labels'
/// names as capabilities, done when the state is `closed`, and the title
/// (followed by a blank line and the body, when there is one) as the
/// description.
pub open spec fn gh_task_spec(v: JsonV, number: nat, prefix: Seq<char>, priority: Seq<char>) -> TaskV {
    let title = match str_of(member(v, "title"@)) {
        Some(t) => t,
        None => seq![],
    };
    let body = match str_of(member(v, "body"@)) {
        Some(b) => b,
        None => seq![],
    };
    let state = match str_of(member(v, "state"@)) {
        Some(x) => x,
        None => "open"@,
    };
    TaskV {
        id: prefix + "GH-"@ + dec(number),
        priority: Some(priority),
        capabilities: match member(v, "labels"@) {
            Some(JsonV::Arr(items)) => label_names(items, items.len() as int),
            _ => seq![],
        },
        depends_on: seq![],
        done: state == "closed"@,
        description: Some(
            if body.len() == 0 {
                title
            } else {
                title + "\n\n"@ + body
            },
        ),
        origin: None,
    }
}

/// The capabilities of an issue: the names of its labels.
fn label_names_of(v: Option<&Json>) -> (r: Vec<String>)
    ensures
        texts_of(r@) == match v {
            Some(j) => match j.deep() {
                JsonV::Arr(items) => label_names(items, items.len() as int),
                _ => seq![],
            },
            None => seq![],
        },
{
    let mut out: Vec<String> = Vec::new();
    match v {
        Some(j) => match j.as_arr() {
            Some(items) => {
                let ghost iv = jsons_from(items@, 0);
                proof {
                    lemma_jsons_from(items@, 0);
                }
                for k in 0..items.len()
                    invariant
                        iv == jsons_from(items@, 0),
                        iv.len() == items@.len(),
                        forall|i: int| 0 <= i < items@.len() ==> #[trigger] iv[i] == items@[i].deep(),
                        texts_of(out@) == label_names(iv, k as int),
                {
                    assert(iv[k as int] == items@[k as int].deep());
                    let ghost before = out@;
                    let name = match items[k].get("name") {
                        Some(n) => match n.as_str() {
                            Some(s) => Some(s),
                            None => items[k].as_str(),
                        },
                        None => items[k].as_str(),
                    };
                    match name {
                        Some(s) => {
                            out.push(String::from_str(s));
                            assert(texts_of(out@) =~= texts_of(before).push(s@));
                        },
                        None => {},
                    }
                }
            },
            None => {},
        },
        None => {},
    }
    out
}

/// The task a GitHub issue object becomes (see `gh_task_spec`); an issue
/// without a number is refused.
pub fn task_from_gh_issue(v: &Json, number: Option<u64>, prefix: Option<&str>, priority: &str) -> (r:
    Result<ParsedTask, String>)
    ensures
        match number {
            Some(n) => r matches Ok(t) && t@ == gh_task_spec(
                v.deep(),
                n as nat,
                match prefix {
                    Some(p) => p@,
                    None => seq![],
                },
                priority@,
            ),
            None => r matches Err(m) && m@ == "issue object needs `number`"@,
        },
{
    let n = match number {
        Some(n) => n,
        None => return Err(String::from_str("issue object needs `number`")),
    };
    let title = match text_member(v, "title") {
        Some(t) => t,
        None => String::new(),
    };
    let body = match text_member(v, "body") {
        Some(b) => b,
        None => String::new(),
    };
    let done = match text_member(v, "state") {
        Some(st) => str_eq(st.as_str(), "closed"),
        None => false,
    };
    proof {
        reveal_strlit("open");
        reveal_strlit("closed");
        assert("open"@.len() != "closed"@.len());
    }
    let mut id = match prefix {
        Some(p) => String::from_str(p),
        None => String::new(),
    };
    push_str(&mut id, "GH-");
    push_decimal(&mut id, n);
    let mut description = title;
    if body.as_str().unicode_len() > 0 {
        push_str(&mut description, "\n\n");
        push_str(&mut description, body.as_str());
    }
    let t = ParsedTask {
        id,
        priority: Some(String::from_str(priority)),
        capabilities: label_names_of(v.get("labels")),
        depends_on: Vec::new(),
        done,
        description: Some(description),
        origin: None,
    };
    assert(t@ =~= gh_task_spec(
        v.deep(),
        n as nat,
        match prefix {
            Some(p) => p@,
            None => seq![],
        },
        priority@,
    ));
    Ok(t)
}

/// A task as a GitHub issue object.
pub fn task_to_gh_json(t: &ParsedTask) -> (r: Json)
    ensures
        r.deep() == gh_json_spec(t@),
{
    let mut labels: Vec<Json> = Vec::new();
    for i in 0..t.capabilities.len()
        invariant
            labels@.len() == i,
            forall|k: int| 0 <= k < i ==> #[trigger] labels@[k] == Json::Str(t.capabilities@[k]),
    {
        labels.push(Json::Str(t.capabilities[i].clone()));
    }
    let title = match &t.description {
        Some(d) => d.clone(),
        None => t.id.clone(),
    };
    let state = if t.done {
        String::from_str("closed")
    } else {
        String::from_str("open")
    };
    let ghost lv = labels@;
    let ghost tv = title@;
    let ghost sv = state@;
    proof {
        lemma_jsons_from(lv, 0);
        assert(jsons_from(lv, 0) =~= labels_of(t@.capabilities));
    }
    let mut pairs: Vec<(String, Json)> = Vec::new();
    pairs.push((String::from_str("title"), Json::Str(title)));
    pairs.push((String::from_str("labels"), Json::Arr(labels)));
    pairs.push((String::from_str("state"), Json::Str(state)));
    let r = Json::Obj(pairs);
    proof {
        crate::swarm::minijson::lemma_jpairs_from(pairs@, 0);
        let d = crate::swarm::minijson::jpairs_from(pairs@, 0);
        assert(d =~= seq![
            ("title"@, JsonV::Str(tv)),
            ("labels"@, JsonV::Arr(jsons_from(lv, 0))),
            ("state"@, JsonV::Str(sv)),
        ]);
        let want = seq![
            ("title"@, JsonV::Str(tv)),
            ("labels"@, JsonV::Arr(labels_of(t@.capabilities))),
            ("state"@, JsonV::Str(sv)),
        ];
        assert(gh_json_spec(t@)->Obj_0 =~= want);
        assert(d =~= want);
    }
    r
}

/// `items` joined with `, `.
pub open spec fn join_commas(items: Seq<Seq<char>>) -> Seq<char>
    decreases items.len(),
{
    if items.len() == 0 {
        Seq::empty()
    } else if items.len() == 1 {
        items[0]
    } else {
        join_commas(items.drop_last()) + ", "@ + items.last()
    }
}

/// A priority as written; `1` when none was given.
pub open spec fn priority_text(p: Option<Seq<char>>) -> Seq<char> {
    match p {
        Some(t) => t,
        None => "1"@,
    }
}

/// One task as a Markdown note: frontmatter (id, priority, capabilities
/// and dependencies when there are any, done, origin when known), a
/// heading with its id, and its description as the body.
pub open spec fn note_text(t: TaskV) -> Seq<char> {
    note_head(t) + list_line("capabilities: ["@, t.capabilities) + list_line(
        "depends-on: ["@,
        t.depends_on,
    ) + note_status(t) + note_body(t)
}

/// The first `k` tasks as notes, one after the other.
pub open spec fn notes_text(ts: Seq<TaskV>, k: int) -> Seq<char>
    decreases k,
{
    if k <= 0 {
        Seq::empty()
    } else {
        notes_text(ts, k - 1) + note_text(ts[k - 1])
    }
}

/// Appends `items` joined with `, `.
fn push_joined(out: &mut String, items: &Vec<String>)
    ensures
        final(out)@ == old(out)@ + join_commas(texts_of(items@)),
{
    let ghost start = out@;
    let ghost iv = texts_of(items@);
    for i in 0..items.len()
        invariant
            iv == texts_of(items@),
            out@ == start + join_commas(iv.take(i as int)),
    {
        if i > 0 {
            push_str(out, ", ");
        }
        push_str(out, items[i].as_str());
        assert(iv.take(i + 1).drop_last() =~= iv.take(i as int));
        assert(iv.take(i + 1).last() == iv[i as int]);
        if i == 0 {
            assert(iv.take(1) =~= seq![iv[0]]);
        }
        assert(out@ =~= start + join_commas(iv.take(i + 1)));
    }
    assert(iv.take(iv.len() as int) =~= iv);
}

pub open spec fn list_line(label: Seq<char>, items: Seq<Seq<char>>) -> Seq<char> {
    if items.len() > 0 {
        label + join_commas(items) + "]\n"@
    } else {
        Seq::empty()
    }
}

/// Appends `label`, the items and `]` on a line of their own, when there
/// are items.
fn push_list_line(out: &mut String, label: &str, items: &Vec<String>)
    ensures
        final(out)@ == old(out)@ + list_line(label@, texts_of(items@)),
{
    if items.len() > 0 {
        push_str(out, label);
        push_joined(out, items);
        push_str(out, "]\n");
    }
    assert(final(out)@ =~= old(out)@ + list_line(label@, texts_of(items@)));
}

pub open spec fn note_head(t: TaskV) -> Seq<char> {
    "---\ntask-id: "@ + t.id + "\n"@ + "priority: "@ + priority_text(t.priority) + "\n"@
}

fn push_note_head(out: &mut String, t: &ParsedTask)
    ensures
        final(out)@ == old(out)@ + note_head(t@),
{
    push_str(out, "---\ntask-id: ");
    push_str(out, t.id.as_str());
    push_str(out, "\n");
    push_str(out, "priority: ");
    match &t.priority {
        Some(p) => push_str(out, p.as_str()),
        None => push_str(out, "1"),
    }
    push_str(out, "\n");
    assert(final(out)@ =~= old(out)@ + note_head(t@));
}

pub open spec fn note_status(t: TaskV) -> Seq<char> {
    "done: "@ + (if t.done {
        "true"@
    } else {
        "false"@
    }) + "\n"@ + (match t.origin {
        Some(o) => "origin: "@ + o + "\n"@,
        None => Seq::empty(),
    })
}

fn push_note_status(out: &mut String, t: &ParsedTask)
    ensures
        final(out)@ == old(out)@ + note_status(t@),
{
    push_str(out, "done: ");
    if t.done {
        push_str(out, "true");
    } else {
        push_str(out, "false");
    }
    push_str(out, "\n");
    match &t.origin {
        Some(o) => {
            push_str(out, "origin: ");
            push_str(out, o.as_str());
            push_str(out, "\n");
        },
        None => {},
    }
    assert(final(out)@ =~= old(out)@ + note_status(t@));
}

pub open spec fn note_body(t: TaskV) -> Seq<char> {
    "---\n\n# "@ + t.id + "\n\n"@ + (match t.description {
        Some(d) => d + "\n"@,
        None => Seq::empty(),
    }) + "\n"@
}

fn push_note_body(out: &mut String, t: &ParsedTask)
    ensures
        final(out)@ == old(out)@ + note_body(t@),
{
    push_str(out, "---\n\n# ");
    push_str(out, t.id.as_str());
    push_str(out, "\n\n");
    match &t.description {
        Some(desc) => {
            push_str(out, desc.as_str());
            push_str(out, "\n");
        },
        None => {},
    }
    push_str(out, "\n");
    assert(final(out)@ =~= old(out)@ + note_body(t@));
}

/// Appends one task as a Markdown note.
fn push_note(out: &mut String, t: &ParsedTask)
    ensures
        final(out)@ == old(out)@ + note_text(t@),
{
    push_note_head(out, t);
    push_list_line(out, "capabilities: [", &t.capabilities);
    push_list_line(out, "depends-on: [", &t.depends_on);
    push_note_status(out, t);
    push_note_body(out, t);
    assert(final(out)@ =~= old(out)@ + note_text(t@));
}

/// The tasks as Markdown notes, one after the other.
pub fn tasks_to_md_notes(tasks: &Vec<ParsedTask>) -> (r: String)
    ensures
        r@ == notes_text(tasks_view(tasks@), tasks@.len() as int),
{
    let ghost tv = tasks_view(tasks@);
    let mut out = String::new();
    for i in 0..tasks.len()
        invariant
            tv == tasks_view(tasks@),
            out@ == notes_text(tv, i as int),
    {
        push_note(&mut out, &tasks[i]);
    }
    out
}

} // verus!
