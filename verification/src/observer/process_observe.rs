//! A process as observed directly from the operating system, before any
//! correlation with what it reports about itself.

use vstd::prelude::*;
use crate::observer::git_read::{lines_spec, rfind_before, strs, text_lines};
use crate::observer::time_util::{iso_text, iso8601_from_unix_seconds};
use crate::text::{
    chars_of, is_whitespace_char, is_ws, lead_ws, lemma_lead_ws_bounds, parse_unsigned,
    parse_unsigned_spec, push_char, push_str, sep_items, sep_list, skip_ws, string_of, sub_chars,
    texts_of, trim_chars, trim_spec,
};

verus! {

/// One process as the operating system shows it.
#[derive(Debug, Clone, PartialEq, Eq)]
pub struct OsProcess {
    pub pid: u32,
    pub command: String,
    pub cwd: Option<String>,
    /// Display-only wall-clock start time.
    pub started_at: Option<String>,
    /// The raw start tick count as text: together with the PID it tells
    /// one process apart from a later one that reuses the PID.
    pub start_token: Option<String>,
}

/// The timestamp of a start time given in whole seconds since the epoch;
/// `None` when the time is past what the system clock can represent.
pub fn unix_seconds_to_iso8601(seconds: u64) -> (r: Option<String>)
    ensures
        seconds <= i64::MAX ==> (r matches Some(t) && t@ == iso_text(seconds as int, 0)),
        seconds > i64::MAX ==> r is None,
{
    if seconds > 9223372036854775807u64 {
        None
    } else {
        Some(iso8601_from_unix_seconds(seconds as i64))
    }
}

/// Where the run of non-whitespace starting at `q` ends.
pub open spec fn word_end(s: Seq<char>, q: int) -> int
    decreases s.len() - q,
{
    if 0 <= q < s.len() && !is_ws(s[q]) {
        word_end(s, q + 1)
    } else {
        q
    }
}

pub proof fn lemma_word_end(s: Seq<char>, q: int)
    requires
        0 <= q <= s.len(),
    ensures
        q <= word_end(s, q) <= s.len(),
        q < s.len() && !is_ws(s[q]) ==> word_end(s, q) > q,
    decreases s.len() - q,
{
    if q < s.len() && !is_ws(s[q]) {
        lemma_word_end(s, q + 1);
    }
}

/// Skipping whitespace stops at a character that is not whitespace.
pub proof fn lemma_lead_ws_stops(s: Seq<char>, p: int)
    requires
        0 <= p <= s.len(),
    ensures
        lead_ws(s, p) < s.len() ==> !is_ws(s[lead_ws(s, p)]),
    decreases s.len() - p,
{
    if p < s.len() && is_ws(s[p]) {
        lemma_lead_ws_stops(s, p + 1);
    }
}

/// The whitespace-separated words of `s[p..]`, as `split_whitespace` gives
/// them.
pub open spec fn words_from(s: Seq<char>, p: int) -> Seq<Seq<char>>
    decreases s.len() - p,
{
    if p < 0 || p > s.len() {
        seq![]
    } else {
        let q = lead_ws(s, p);
        if q >= s.len() {
            seq![]
        } else {
            proof {
                lemma_lead_ws_bounds(s, p);
                lemma_lead_ws_stops(s, p);
                lemma_word_end(s, q);
            }
            let e = word_end(s, q);
            seq![s.subrange(q, e)] + words_from(s, e)
        }
    }
}

/// The words of `s[from..]`.
fn words_of(s: &[char], from: usize) -> (r: Vec<String>)
    requires
        from <= s@.len(),
    ensures
        texts_of(r@) == words_from(s@, from as int),
{
    let mut out: Vec<String> = Vec::new();
    let mut p: usize = from;
    loop
        invariant
            p <= s@.len(),
            texts_of(out@) + words_from(s@, p as int) == words_from(s@, from as int),
        decreases s@.len() - p,
    {
        proof {
            lemma_lead_ws_bounds(s@, p as int);
        }
        let q = skip_ws(s, p);
        if q >= s.len() {
            assert(texts_of(out@) =~= words_from(s@, from as int));
            return out;
        }
        proof {
            lemma_lead_ws_stops(s@, p as int);
            lemma_word_end(s@, q as int);
        }
        let mut e = q;
        while e < s.len() && !is_whitespace_char(s[e])
            invariant
                q <= e <= s@.len(),
                word_end(s@, e as int) == word_end(s@, q as int),
            decreases s@.len() - e,
        {
            e = e + 1;
        }
        let ghost before = out@;
        out.push(string_of(sub_chars(s, q, e).as_slice()));
        assert(texts_of(out@) =~= texts_of(before).push(s@.subrange(q as int, e as int)));
        assert(texts_of(before) + words_from(s@, p as int) =~= texts_of(out@) + words_from(s@, e as int));
        p = e;
    }
}

/// The start token in a `/proc/<pid>/stat` line: the twentieth word after
/// the last `)` (the process name, in parentheses, may hold spaces and
/// parentheses itself).
pub open spec fn start_token_spec(stat: Seq<char>) -> Option<Seq<char>> {
    let p = rfind_before(stat, ')', stat.len() as int);
    if p < 0 {
        None
    } else {
        let ws = words_from(stat, p + 1);
        if ws.len() > 19 {
            Some(ws[19])
        } else {
            None
        }
    }
}

proof fn lemma_rfind_before(s: Seq<char>, c: char, e: int)
    requires
        0 <= e <= s.len(),
    ensures
        -1 <= rfind_before(s, c, e) < e,
        rfind_before(s, c, e) >= 0 ==> s[rfind_before(s, c, e)] == c,
    decreases e,
{
    if e > 0 && s[e - 1] != c {
        lemma_rfind_before(s, c, e - 1);
    }
}

/// The start token of a process, from the text of its `stat` file.
pub fn start_token_of(stat: &str) -> (r: Option<String>)
    ensures
        match start_token_spec(stat@) {
            Some(t) => r matches Some(x) && x@ == t,
            None => r is None,
        },
{
    let v = chars_of(stat);
    let mut e: usize = v.len();
    while e > 0 && v[e - 1] != ')'
        invariant
            e <= v@.len(),
            v@ == stat@,
            rfind_before(v@, ')', e as int) == rfind_before(v@, ')', v@.len() as int),
        decreases e,
    {
        e = e - 1;
    }
    if e == 0 {
        return None;
    }
    let words = words_of(v.as_slice(), e);
    if words.len() > 19 {
        Some(words[19].clone())
    } else {
        None
    }
}

/// `items` joined with single spaces.
pub open spec fn spaced(items: Seq<Seq<char>>) -> Seq<char>
    decreases items.len(),
{
    if items.len() == 0 {
        Seq::empty()
    } else if items.len() == 1 {
        items[0]
    } else {
        spaced(items.drop_last()) + seq![' '] + items.last()
    }
}

/// The command line of a process: its `cmdline` arguments (separated by
/// zero characters) joined with spaces; when that is empty or unreadable,
/// its trimmed `comm` name; otherwise nothing.
pub open spec fn command_spec(cmdline: Option<Seq<char>>, comm: Option<Seq<char>>) -> Seq<char> {
    let joined = match cmdline {
        Some(c) => spaced(sep_items(c, '\0', 0)),
        None => Seq::empty(),
    };
    if joined.len() > 0 {
        joined
    } else {
        match comm {
            Some(m) => trim_spec(m),
            None => Seq::empty(),
        }
    }
}

fn join_spaced(items: &Vec<String>) -> (r: String)
    ensures
        r@ == spaced(texts_of(items@)),
{
    let ghost iv = texts_of(items@);
    let mut out = String::new();
    for i in 0..items.len()
        invariant
            iv == texts_of(items@),
            out@ == spaced(iv.take(i as int)),
    {
        if i > 0 {
            push_char(&mut out, ' ');
        }
        push_str(&mut out, items[i].as_str());
        assert(iv.take(i + 1).drop_last() =~= iv.take(i as int));
        if i == 0 {
            assert(iv.take(1) =~= seq![iv[0]]);
        }
        assert(out@ =~= spaced(iv.take(i + 1)));
    }
    assert(iv.take(iv.len() as int) =~= iv);
    out
}

/// The command of a process, from its `cmdline` and `comm` files when
/// they could be read.
pub fn command_of(cmdline: Option<&str>, comm: Option<&str>) -> (r: String)
    ensures
        r@ == command_spec(
            match cmdline {
                Some(c) => Some(c@),
                None => None,
            },
            match comm {
                Some(m) => Some(m@),
                None => None,
            },
        ),
{
    let joined = match cmdline {
        Some(c) => join_spaced(&sep_list(c, '\0')),
        None => String::new(),
    };
    if chars_of(joined.as_str()).len() > 0 {
        joined
    } else {
        match comm {
            Some(m) => string_of(trim_chars(&chars_of(m)).as_slice()),
            None => String::new(),
        }
    }
}

/// The wall-clock start of a process whose start token is `token`, from
/// the clock tick rate and the boot time; absent when any of them is
/// unknown, the token is not a tick count, or the time is beyond what can
/// be represented.
pub open spec fn started_at_spec(token: Seq<char>, clk_tck: Option<u64>, btime: Option<u64>) -> Option<Seq<char>> {
    match (clk_tck, btime) {
        (Some(c), Some(b)) => match parse_unsigned_spec(token, u64::MAX as int) {
            Some(ticks) => {
                let secs = b + ticks / (c as int);
                if secs > i64::MAX {
                    None
                } else {
                    Some(iso_text(secs, 0))
                }
            },
            None => None,
        },
        _ => None,
    }
}

/// The start time of a process, as `started_at_spec` describes.
pub fn started_at_of(token: &str, clk_tck: Option<u64>, btime: Option<u64>) -> (r: Option<String>)
    requires
        clk_tck != Some(0u64),
    ensures
        match started_at_spec(token@, clk_tck, btime) {
            Some(t) => r matches Some(x) && x@ == t,
            None => r is None,
        },
{
    match (clk_tck, btime) {
        (Some(c), Some(b)) => {
            let v = chars_of(token);
            match parse_unsigned(v.as_slice(), u64::MAX) {
                Some(ticks) => {
                    let per = ticks / c;
                    if b > u64::MAX - per {
                        return None;
                    }
                    unix_seconds_to_iso8601(b + per)
                },
                None => None,
            }
        },
        _ => None,
    }
}

/// The first line of `ls` from `i` on that starts with `prefix`, without
/// the prefix.
pub open spec fn after_prefix(ls: Seq<Seq<char>>, prefix: Seq<char>, i: int) -> Option<Seq<char>>
    decreases ls.len() - i,
{
    if i < 0 || i >= ls.len() {
        None
    } else if ls[i].len() >= prefix.len() && ls[i].take(prefix.len() as int) == prefix {
        Some(ls[i].skip(prefix.len() as int))
    } else {
        after_prefix(ls, prefix, i + 1)
    }
}

/// The first line of `lines` that starts with `prefix`, without it.
fn find_after_prefix(lines: &Vec<String>, prefix: &str) -> (r: Option<Vec<char>>)
    ensures
        match after_prefix(strs(lines@), prefix@, 0) {
            Some(t) => r matches Some(x) && x@ == t,
            None => r is None,
        },
{
    let pv = chars_of(prefix);
    let ghost ls = strs(lines@);
    for i in 0..lines.len()
        invariant
            ls == strs(lines@),
            pv@ == prefix@,
            after_prefix(ls, prefix@, i as int) == after_prefix(ls, prefix@, 0),
    {
        let lv = chars_of(lines[i].as_str());
        if lv.len() >= pv.len() {
            let mut k: usize = 0;
            while k < pv.len() && lv[k] == pv[k]
                invariant
                    k <= pv@.len() <= lv@.len(),
                    forall|j: int| 0 <= j < k ==> lv@[j] == pv@[j],
                decreases pv@.len() - k,
            {
                k = k + 1;
            }
            if k == pv.len() {
                assert(lv@.take(pv@.len() as int) =~= pv@);
                return Some(sub_chars(lv.as_slice(), pv.len(), lv.len()));
            }
            assert(lv@.take(pv@.len() as int)[k as int] != pv@[k as int]);
        }
    }
    None
}

/// The boot time in `/proc/stat`: the number on its first `btime ` line.
pub open spec fn boot_time_spec(stat: Seq<char>) -> Option<int> {
    match after_prefix(lines_spec(stat), "btime "@, 0) {
        Some(rest) => parse_unsigned_spec(trim_spec(rest), u64::MAX as int),
        None => None,
    }
}

/// The boot time, in seconds since the epoch, from the text of `/proc/stat`.
pub fn boot_time_of(stat: &str) -> (r: Option<u64>)
    ensures
        match boot_time_spec(stat@) {
            Some(t) => r == Some(t as u64),
            None => r is None,
        },
{
    let lines = text_lines(&chars_of(stat));
    match find_after_prefix(&lines, "btime ") {
        Some(rest) => parse_unsigned(trim_chars(&rest).as_slice(), u64::MAX),
        None => None,
    }
}

/// The user id in `/proc/self/status`: the second word of its first line
/// starting with `Uid:`.
pub open spec fn uid_spec(status: Seq<char>) -> Option<int> {
    match after_prefix(lines_spec(status), "Uid:"@, 0) {
        Some(rest) => {
            let ws = words_from("Uid:"@ + rest, 0);
            if ws.len() > 1 {
                parse_unsigned_spec(ws[1], u32::MAX as int)
            } else {
                None
            }
        },
        None => None,
    }
}

/// The user id, from the text of `/proc/self/status`.
pub fn uid_of(status: &str) -> (r: Option<u32>)
    ensures
        match uid_spec(status@) {
            Some(u) => r == Some(u as u32),
            None => r is None,
        },
{
    let lines = text_lines(&chars_of(status));
    match find_after_prefix(&lines, "Uid:") {
        Some(rest) => {
            let mut line = chars_of("Uid:");
            let mut k: usize = 0;
            let ghost head = line@;
            while k < rest.len()
                invariant
                    k <= rest@.len(),
                    line@ == head + rest@.take(k as int),
                decreases rest@.len() - k,
            {
                line.push(rest[k]);
                k = k + 1;
                assert(line@ =~= head + rest@.take(k as int));
            }
            assert(rest@.take(rest@.len() as int) =~= rest@);
            let ws = words_of(line.as_slice(), 0);
            if ws.len() > 1 {
                match parse_unsigned(chars_of(ws[1].as_str()).as_slice(), 4294967295u64) {
                    Some(u) => Some(u as u32),
                    None => None,
                }
            } else {
                None
            }
        },
        None => None,
    }
}

/// The clock tick rate from what `getconf CLK_TCK` printed when it ran
/// successfully; 100, the near-universal value, when it did not or printed
/// no number.
pub open spec fn clk_tck_spec(getconf: Option<Seq<char>>) -> int {
    match getconf {
        Some(out) => match parse_unsigned_spec(trim_spec(out), u64::MAX as int) {
            Some(v) => v,
            None => 100,
        },
        None => 100,
    }
}

/// The clock tick rate, as `clk_tck_spec` describes.
pub fn clk_tck_of(getconf: Option<&str>) -> (r: u64)
    ensures
        r == clk_tck_spec(
            match getconf {
                Some(o) => Some(o@),
                None => None,
            },
        ),
{
    match getconf {
        Some(o) => match parse_unsigned(trim_chars(&chars_of(o)).as_slice(), u64::MAX) {
            Some(v) => v,
            None => 100,
        },
        None => 100,
    }
}

} // verus!
