//! OpenCode event normalization from OpenCode's own structured log lines
//! (`key=value` fields), never from an HTTP call.
//!
//! Deliberately incomplete: only two log messages have an observed meaning
//! in the core vocabulary. `message=evaluated` is a tool starting, and
//! `message="stream error"` is an error. Every other line (runtime
//! selection, path resolution, loop bookkeeping, message arrival, session
//! cancel) is dropped rather than forced onto an event it is not.
//! `RuntimeStarted`/`RuntimeStopped` come from the adapter's own launch and
//! stop, never from the log.

use vstd::prelude::*;
use crate::runtime::events::{Event, EventV};
use crate::runtime::types::RuntimeHandle;
use crate::text::{
    chars_of, find_char_from, find_from, lead_ws, lemma_find_from_bounds, lemma_lead_ws_bounds,
    skip_ws, str_eq, string_of, sub_chars, trim_chars, trim_end_from, trim_end_spec, trim_spec,
};

verus! {

/// The `key=value` fields of `s` read from position `pos` on. A quoted
/// value runs to the next `"` and may hold spaces; an unquoted one runs to
/// the next space, or to the end of the line without trailing whitespace.
/// Reading stops at an unterminated quote or an empty key.
pub open spec fn fields_from(s: Seq<char>, pos: int) -> Seq<(Seq<char>, Seq<char>)>
    decreases s.len() - pos,
{
    if pos < 0 || pos >= s.len() {
        seq![]
    } else {
        let eq = find_from(s, '=', pos);
        if eq >= s.len() {
            seq![]
        } else {
            let key = trim_spec(s.subrange(pos, eq));
            let a = eq + 1;
            if a < s.len() && s[a] == '"' {
                let close = find_from(s, '"', a + 1);
                if close >= s.len() || key.len() == 0 {
                    seq![]
                } else {
                    proof {
                        lemma_find_from_bounds(s, '=', pos);
                        lemma_find_from_bounds(s, '"', a + 1);
                        lemma_lead_ws_bounds(s, close + 1);
                    }
                    seq![(key, s.subrange(a + 1, close))] + fields_from(s, lead_ws(s, close + 1))
                }
            } else {
                let sp = find_from(s, ' ', a);
                if key.len() == 0 {
                    seq![]
                } else if sp < s.len() {
                    proof {
                        lemma_find_from_bounds(s, '=', pos);
                        lemma_find_from_bounds(s, ' ', a);
                        lemma_lead_ws_bounds(s, sp + 1);
                    }
                    seq![(key, s.subrange(a, sp))] + fields_from(s, lead_ws(s, sp + 1))
                } else {
                    seq![(key, trim_end_spec(s.skip(a)))]
                }
            }
        }
    }
}

/// The value of the last field named `key`: a later field overrides an
/// earlier one of the same name.
pub open spec fn field_value(fs: Seq<(Seq<char>, Seq<char>)>, key: Seq<char>) -> Option<Seq<char>>
    decreases fs.len(),
{
    if fs.len() == 0 {
        None
    } else if fs.last().0 == key {
        Some(fs.last().1)
    } else {
        field_value(fs.drop_last(), key)
    }
}

/// The event a log line stands for, as the handle's text and the line's
/// characters determine it.
pub open spec fn normalize_spec(line: Seq<char>, handle: Seq<char>) -> Option<EventV> {
    let fs = fields_from(line, 0);
    match field_value(fs, "message"@) {
        None => None,
        Some(m) => if m == "evaluated"@ {
            match field_value(fs, "permission"@) {
                Some(tool) => Some(EventV::ToolStarted { handle, task_id: None, tool_name: tool }),
                None => None,
            }
        } else if m == "stream error"@ {
            let message = match field_value(fs, "error.error"@) {
                Some(e) => e,
                None => "stream error (no error.error field present)"@,
            };
            Some(EventV::Error { handle, message, retryable: None })
        } else {
            None
        },
    }
}

pub open spec fn pairs_view(v: Seq<(String, String)>) -> Seq<(Seq<char>, Seq<char>)> {
    v.map_values(|p: (String, String)| (p.0@, p.1@))
}

/// Splits a log line into its fields, in order.
fn tokenize(line: &str) -> (r: Vec<(String, String)>)
    ensures
        pairs_view(r@) == fields_from(line@, 0),
{
    let chars = chars_of(line);
    let s = chars.as_slice();
    let ghost sv = line@;
    let mut fields: Vec<(String, String)> = Vec::new();
    let mut pos: usize = 0;
    while pos < s.len()
        invariant
            s@ == sv,
            sv == line@,
            pos <= sv.len(),
            pairs_view(fields@) + fields_from(sv, pos as int) == fields_from(sv, 0),
        decreases sv.len() - pos,
    {
        let ghost before = fields@;
        let eq = find_char_from(s, '=', pos);
        proof {
            lemma_find_from_bounds(sv, '=', pos as int);
        }
        if eq >= s.len() {
            assert(fields_from(sv, pos as int) =~= seq![]);
            assert(pairs_view(fields@) =~= fields_from(sv, 0));
            return fields;
        }
        let key_chars = trim_chars(&sub_chars(s, pos, eq));
        let key = string_of(key_chars.as_slice());
        let a = eq + 1;
        let next: usize;
        let value: String;
        if a < s.len() && s[a] == '"' {
            let close = find_char_from(s, '"', a + 1);
            proof {
                lemma_find_from_bounds(sv, '"', (a + 1) as int);
            }
            if close >= s.len() || key_chars.len() == 0 {
                assert(fields_from(sv, pos as int) =~= seq![]);
                assert(pairs_view(fields@) =~= fields_from(sv, 0));
                return fields;
            }
            value = string_of(sub_chars(s, a + 1, close).as_slice());
            proof {
                lemma_lead_ws_bounds(sv, close + 1);
            }
            next = skip_ws(s, close + 1);
        } else {
            let sp = find_char_from(s, ' ', a);
            proof {
                lemma_find_from_bounds(sv, ' ', a as int);
            }
            if key_chars.len() == 0 {
                assert(pairs_view(fields@) =~= fields_from(sv, 0));
                return fields;
            }
            if sp < s.len() {
                value = string_of(sub_chars(s, a, sp).as_slice());
                proof {
                    lemma_lead_ws_bounds(sv, sp + 1);
                }
                next = skip_ws(s, sp + 1);
            } else {
                value = string_of(trim_end_from(s, a).as_slice());
                next = s.len();
            }
        }
        let ghost kv = key@;
        let ghost vv = value@;
        fields.push((key, value));
        proof {
            assert(pairs_view(fields@) =~= pairs_view(before).push((kv, vv)));
            assert(fields_from(sv, pos as int) == seq![(kv, vv)] + fields_from(sv, next as int));
            assert(pairs_view(before) + fields_from(sv, pos as int) =~= pairs_view(fields@)
                + fields_from(sv, next as int));
        }
        pos = next;
    }
    assert(pairs_view(fields@) =~= fields_from(sv, 0));
    fields
}

/// The value of the last field named `key`.
fn get_field(fields: &Vec<(String, String)>, key: &str) -> (r: Option<String>)
    ensures
        match r {
            Some(v) => field_value(pairs_view(fields@), key@) == Some(v@),
            None => field_value(pairs_view(fields@), key@) is None,
        },
{
    let ghost pv = pairs_view(fields@);
    let mut i: usize = fields.len();
    assert(pv.take(i as int) =~= pv);
    while i > 0
        invariant
            i <= fields@.len(),
            pv == pairs_view(fields@),
            field_value(pv.take(i as int), key@) == field_value(pv, key@),
        decreases i,
    {
        assert(pv.take(i as int).last() == pv[i - 1]);
        assert(pv.take(i as int).drop_last() =~= pv.take(i - 1));
        if str_eq(fields[i - 1].0.as_str(), key) {
            return Some(fields[i - 1].1.clone());
        }
        i = i - 1;
    }
    None
}

/// The core event a log line stands for, if this line's meaning has been
/// observed; `None` for every other line, never a guessed event.
pub fn normalize_opencode_log_line(line: &str, handle: &RuntimeHandle) -> (r: Option<Event>)
    ensures
        match r {
            Some(e) => normalize_spec(line@, handle@) == Some(e@),
            None => normalize_spec(line@, handle@) is None,
        },
{
    let fields = tokenize(line);
    let message = match get_field(&fields, "message") {
        Some(m) => m,
        None => return None,
    };
    if str_eq(message.as_str(), "evaluated") {
        match get_field(&fields, "permission") {
            Some(tool_name) => Some(
                Event::ToolStarted { handle: handle.duplicate(), task_id: None, tool_name },
            ),
            None => None,
        }
    } else if str_eq(message.as_str(), "stream error") {
        let message = match get_field(&fields, "error.error") {
            Some(e) => e,
            None => String::from_str("stream error (no error.error field present)"),
        };
        Some(Event::Error { handle: handle.duplicate(), message, retryable: None })
    } else {
        None
    }
}

/// Nothing is invented: a line yields an event only when its `message`
/// is `evaluated` (a tool starting, named by its `permission`) or
/// `stream error` (an error), and the event is about the given handle.
pub proof fn law_only_observed_messages_become_events(line: Seq<char>, handle: Seq<char>)
    ensures
        normalize_spec(line, handle) matches Some(e) ==> {
            let fs = fields_from(line, 0);
            ||| field_value(fs, "message"@) == Some("evaluated"@) && e == EventV::ToolStarted {
                handle,
                task_id: None,
                tool_name: field_value(fs, "permission"@)->Some_0,
            }
            ||| field_value(fs, "message"@) == Some("stream error"@) && (e matches EventV::Error {
                handle: h,
                retryable: None,
                ..
            } && h == handle)
        },
{
}

} // verus!
