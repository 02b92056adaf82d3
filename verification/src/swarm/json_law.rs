//! A string written as JSON reads back as itself.

use vstd::prelude::*;
use crate::scheduler::out::{hex_char, json_esc_char, json_escape_spec};
use crate::swarm::minijson::{
    hex4, hex_val, parse_spec, skip_spec, string_body, unicode_char, value_spec, JsonV,
};

verus! {

proof fn lemma_hex_digit(d: int)
    requires
        0 <= d < 16,
    ensures
        hex_val(hex_char(d)) == d,
{
    if d < 10 {
        assert((('0' as int) + d) as char as int == ('0' as int) + d);
    } else {
        assert((('a' as int) + d - 10) as char as int == ('a' as int) + d - 10);
    }
}

/// One character's escape, read at `q`, gives back the character.
proof fn lemma_read_one(b: Seq<char>, q: int, x: char, acc: Seq<char>)
    requires
        0 <= q,
        q + json_esc_char(x).len() <= b.len(),
        b.subrange(q, q + json_esc_char(x).len()) == json_esc_char(x),
    ensures
        string_body(b, q, acc) == string_body(b, q + json_esc_char(x).len(), acc.push(x)),
{
    let e = json_esc_char(x);
    assert forall|i: int| 0 <= i < e.len() implies b[q + i] == #[trigger] e[i] by {
        assert(b.subrange(q, q + e.len())[i] == b[q + i]);
    }
    if x == '"' || x == '\\' || x == '\n' || x == '\r' || x == '\t' {
        assert(b[q] == '\\');
        assert(b[q + 1] == e[1]);
    } else if (x as int) < 0x20 {
        let c = x as int;
        assert(b[q] == '\\');
        assert(b[q + 1] == 'u');
        let h = b.subrange(q + 2, q + 6);
        assert(h[0] == '0' && h[1] == '0');
        assert(h[2] == hex_char(c / 16));
        assert(h[3] == hex_char(c % 16));
        lemma_hex_digit(c / 16);
        lemma_hex_digit(c % 16);
        assert(hex_val('0') == 0);
        assert(c == (c / 16) * 16 + c % 16);
        assert(hex4(h) == Some(c));
        assert(0 <= c < 0x20);
        assert((x as int) as char == x);
        assert(unicode_char(c) == x);
    } else {
        assert(e == seq![x]);
        assert(e[0] == x);
        assert(b[q + 0] == e[0]);
        assert(b[q] == x);
    }
}

/// The escape of `s`, read at `p`, gives back `s`.
proof fn lemma_read_escaped(b: Seq<char>, p: int, s: Seq<char>, acc: Seq<char>)
    requires
        0 <= p,
        p + json_escape_spec(s).len() <= b.len(),
        b.subrange(p, p + json_escape_spec(s).len()) == json_escape_spec(s),
    ensures
        string_body(b, p, acc) == string_body(b, p + json_escape_spec(s).len(), acc + s),
    decreases s.len(),
{
    if s.len() == 0 {
        assert(acc + s =~= acc);
    } else {
        let d = s.drop_last();
        let x = s.last();
        let ed = json_escape_spec(d);
        let ex = json_esc_char(x);
        assert(json_escape_spec(s) == ed + ex);
        assert(b.subrange(p, p + ed.len()) =~= ed) by {
            assert forall|i: int| 0 <= i < ed.len() implies b.subrange(p, p + ed.len())[i] == ed[i] by {
                assert(b.subrange(p, p + json_escape_spec(s).len())[i] == b[p + i]);
                assert(json_escape_spec(s)[i] == ed[i]);
            }
        }
        lemma_read_escaped(b, p, d, acc);
        let q = p + ed.len();
        assert(b.subrange(q, q + ex.len()) =~= ex) by {
            assert forall|i: int| 0 <= i < ex.len() implies b.subrange(q, q + ex.len())[i] == ex[i] by {
                assert(b.subrange(p, p + json_escape_spec(s).len())[ed.len() + i] == b[q + i]);
                assert(json_escape_spec(s)[ed.len() + i] == ex[i]);
            }
        }
        lemma_read_one(b, q, x, acc + d);
        assert((acc + d).push(x) =~= acc + s);
    }
}

/// Any text written as a JSON string (quoted, with quote, backslash,
/// newline, carriage return and tab written as `\"`, `\\`, `\n`, `\r`,
/// `\t` and other control characters as `\u00XX`) reads back as that same
/// text.
pub proof fn law_json_string_round_trip(s: Seq<char>)
    ensures
        parse_spec(seq!['"'] + json_escape_spec(s) + seq!['"']) == Ok::<JsonV, Seq<char>>(JsonV::Str(s)),
{
    let e = json_escape_spec(s);
    let n: int = e.len() as int;
    let w = seq!['"'] + e + seq!['"'];
    assert(w.subrange(1, 1 + n) =~= e);
    lemma_read_escaped(w, 1, s, Seq::empty());
    assert(Seq::<char>::empty() + s =~= s);
    assert(w[n + 1] == '"');
    assert(string_body(w, 1 + n, s) == Ok::<(Seq<char>, int), Seq<char>>((s, n + 2)));
    assert(skip_spec(w, 0) == 0);
    assert(value_spec(w, 0) == Ok::<(JsonV, int), Seq<char>>((JsonV::Str(s), n + 2)));
    assert(skip_spec(w, n + 2) == w.len());
}

} // verus!
