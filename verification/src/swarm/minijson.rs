//! A small, strict JSON reader for adapter inputs: objects, arrays,
//! strings with the standard escapes, numbers, `true`, `false`, `null`.
//! Anything else is an error, never silently accepted. A number is kept
//! as the text it was written as, once it has been checked to read as a
//! floating-point number.

use vstd::prelude::*;
use crate::text::{chars_of, dec, push_char, push_decimal, push_str, str_eq, string_of};

verus! {

#[derive(Debug, PartialEq)]
pub enum Json {
    Null,
    Bool(bool),
    /// A number, as written.
    Num(String),
    Str(String),
    Arr(Vec<Json>),
    Obj(Vec<(String, Json)>),
}

/// The value of a JSON document.
#[verifier::ext_equal]
pub enum JsonV {
    Null,
    Bool(bool),
    Num(Seq<char>),
    Str(Seq<char>),
    Arr(Seq<JsonV>),
    Obj(Seq<(Seq<char>, JsonV)>),
}

impl Json {
    pub open spec fn deep(&self) -> JsonV
        decreases self, 0nat,
    {
        match self {
            Json::Null => JsonV::Null,
            Json::Bool(b) => JsonV::Bool(*b),
            Json::Num(n) => JsonV::Num(n@),
            Json::Str(s) => JsonV::Str(s@),
            Json::Arr(items) => JsonV::Arr(jsons_from(items@, 0)),
            Json::Obj(pairs) => JsonV::Obj(jpairs_from(pairs@, 0)),
        }
    }
}

pub open spec fn jsons_from(s: Seq<Json>, k: nat) -> Seq<JsonV>
    decreases s, s.len() - k,
{
    if k < s.len() {
        seq![s[k as int].deep()] + jsons_from(s, k + 1)
    } else {
        Seq::empty()
    }
}

pub open spec fn jpairs_from(s: Seq<(String, Json)>, k: nat) -> Seq<(Seq<char>, JsonV)>
    decreases s, s.len() - k,
{
    if k < s.len() {
        seq![(s[k as int].0@, s[k as int].1.deep())] + jpairs_from(s, k + 1)
    } else {
        Seq::empty()
    }
}

pub proof fn lemma_jsons_from(s: Seq<Json>, k: nat)
    requires
        k <= s.len(),
    ensures
        jsons_from(s, k).len() == s.len() - k,
        forall|i: int| 0 <= i < s.len() - k ==> #[trigger] jsons_from(s, k)[i] == s[k + i].deep(),
    decreases s.len() - k,
{
    if k < s.len() {
        lemma_jsons_from(s, k + 1);
    }
}

pub proof fn lemma_jpairs_from(s: Seq<(String, Json)>, k: nat)
    requires
        k <= s.len(),
    ensures
        jpairs_from(s, k).len() == s.len() - k,
        forall|i: int| 0 <= i < s.len() - k ==> #[trigger] jpairs_from(s, k)[i] == (s[k + i].0@, s[k + i].1.deep()),
    decreases s.len() - k,
{
    if k < s.len() {
        lemma_jpairs_from(s, k + 1);
    }
}

pub open spec fn is_dig(c: char) -> bool {
    '0' <= c <= '9'
}

/// Position after the digits from `p`.
pub open spec fn digits_end(s: Seq<char>, p: int) -> int
    decreases s.len() - p,
{
    if 0 <= p < s.len() && is_dig(s[p]) {
        digits_end(s, p + 1)
    } else {
        p
    }
}

/// Whether `s` is a decimal number as Rust's floating-point reader
/// accepts it (made only of digits, `.`, `e`, `E` and signs): an optional
/// sign, digits with at most one `.` and at least one digit, then an
/// optional exponent, `e` or `E`, an optional sign and one or more digits.
pub open spec fn decimal_syntax(s: Seq<char>) -> bool {
    let a = if s.len() > 0 && (s[0] == '+' || s[0] == '-') {
        1int
    } else {
        0int
    };
    let b = digits_end(s, a);
    let (c, frac) = if b < s.len() && s[b] == '.' {
        (digits_end(s, b + 1), digits_end(s, b + 1) - (b + 1))
    } else {
        (b, 0)
    };
    let mantissa_ok = (b - a) + frac > 0;
    if !mantissa_ok {
        false
    } else if c == s.len() {
        true
    } else if s[c] == 'e' || s[c] == 'E' {
        let d = if c + 1 < s.len() && (s[c + 1] == '+' || s[c + 1] == '-') {
            c + 2
        } else {
            c + 1
        };
        let e = digits_end(s, d);
        e > d && e == s.len()
    } else {
        false
    }
}

fn digits_from(v: &Vec<char>, p: usize) -> (r: usize)
    requires
        p <= v@.len(),
    ensures
        r == digits_end(v@, p as int),
        p <= r <= v@.len(),
{
    let mut i = p;
    while i < v.len() && '0' <= v[i] && v[i] <= '9'
        invariant
            p <= i <= v@.len(),
            digits_end(v@, i as int) == digits_end(v@, p as int),
        decreases v@.len() - i,
    {
        i = i + 1;
    }
    i
}

/// Whether the text is a decimal number in Rust's floating-point syntax.
fn is_decimal(v: &Vec<char>) -> (r: bool)
    ensures
        r == decimal_syntax(v@),
{
    let n = v.len();
    let a: usize = if n > 0 && (v[0] == '+' || v[0] == '-') {
        1
    } else {
        0
    };
    let b = digits_from(v, a);
    let (c, frac) = if b < n && v[b] == '.' {
        let c = digits_from(v, b + 1);
        (c, c - (b + 1))
    } else {
        (b, 0)
    };
    if (b - a) + frac == 0 {
        return false;
    }
    if c == n {
        return true;
    }
    if v[c] == 'e' || v[c] == 'E' {
        let d = if c + 1 < n && (v[c + 1] == '+' || v[c + 1] == '-') {
            c + 2
        } else {
            c + 1
        };
        let e = digits_from(v, d);
        e > d && e == n
    } else {
        false
    }
}

/// Whether `cp` is a Unicode scalar value: not a surrogate, at most
/// `0x10FFFF`.
pub open spec fn scalar_value(cp: int) -> bool {
    (0 <= cp < 0xD800) || (0xE000 <= cp <= 0x10FFFF)
}

/// The character `char::from_u32(cp)` gives, or U+FFFD when it gives
/// none.
#[verifier::external_body]
fn char_or_replacement(cp: u32) -> (c: char)
    ensures
        scalar_value(cp as int) ==> c as int == cp,
        !scalar_value(cp as int) ==> c == '\u{fffd}',
{
    char::from_u32(cp).unwrap_or('\u{fffd}')
}

pub open spec fn jws(c: char) -> bool {
    c == ' ' || c == '\t' || c == '\r' || c == '\n'
}

pub open spec fn skip_spec(s: Seq<char>, p: int) -> int
    decreases s.len() - p,
{
    if 0 <= p < s.len() && jws(s[p]) {
        skip_spec(s, p + 1)
    } else {
        p
    }
}

/// The value of a hexadecimal digit, or -1.
pub open spec fn hex_val(c: char) -> int {
    if '0' <= c <= '9' {
        c as int - '0' as int
    } else if 'a' <= c <= 'f' {
        c as int - 'a' as int + 10
    } else if 'A' <= c <= 'F' {
        c as int - 'A' as int + 10
    } else {
        -1
    }
}

/// `u32::from_str_radix(h, 16)` for a four-character `h`: four hex
/// digits, or a `+` and three.
pub open spec fn hex4(h: Seq<char>) -> Option<int> {
    if h[0] == '+' {
        if hex_val(h[1]) >= 0 && hex_val(h[2]) >= 0 && hex_val(h[3]) >= 0 {
            Some(hex_val(h[1]) * 256 + hex_val(h[2]) * 16 + hex_val(h[3]))
        } else {
            None
        }
    } else if hex_val(h[0]) >= 0 && hex_val(h[1]) >= 0 && hex_val(h[2]) >= 0 && hex_val(h[3]) >= 0 {
        Some(hex_val(h[0]) * 4096 + hex_val(h[1]) * 256 + hex_val(h[2]) * 16 + hex_val(h[3]))
    } else {
        None
    }
}

pub open spec fn unicode_char(cp: int) -> char {
    if scalar_value(cp) {
        cp as char
    } else {
        '\u{fffd}'
    }
}

/// The character a one-letter escape stands for.
pub open spec fn short_escape(c: char) -> Option<char> {
    if c == '"' {
        Some('"')
    } else if c == '\\' {
        Some('\\')
    } else if c == '/' {
        Some('/')
    } else if c == 'n' {
        Some('\n')
    } else if c == 't' {
        Some('\t')
    } else if c == 'r' {
        Some('\r')
    } else if c == 'b' {
        Some('\u{8}')
    } else if c == 'f' {
        Some('\u{c}')
    } else {
        None
    }
}

/// Reading a string's body from `p` (just after its opening quote) with
/// `acc` read so far: its text and the position after the closing
/// quote, or the error.
pub open spec fn string_body(s: Seq<char>, p: int, acc: Seq<char>) -> Result<(Seq<char>, int), Seq<char>>
    decreases s.len() - p,
{
    if p < 0 || p >= s.len() {
        Err("unexpected end of JSON"@)
    } else if s[p] == '"' {
        Ok((acc, p + 1))
    } else if s[p] == '\\' {
        let q = p + 1;
        if q >= s.len() {
            Err("bad escape"@)
        } else if s[q] == 'u' {
            if q + 5 > s.len() {
                Err("bad \\u escape"@)
            } else {
                match hex4(s.subrange(q + 1, q + 5)) {
                    None => Err("bad \\u escape"@),
                    Some(cp) => string_body(s, q + 5, acc.push(unicode_char(cp))),
                }
            }
        } else {
            match short_escape(s[q]) {
                Some(c) => string_body(s, q + 1, acc.push(c)),
                None => Err("bad escape"@),
            }
        }
    } else {
        string_body(s, p + 1, acc.push(s[p]))
    }
}

pub open spec fn num_char(c: char) -> bool {
    ('0' <= c <= '9') || c == '.' || c == 'e' || c == 'E' || c == '+' || c == '-'
}

pub open spec fn num_end(s: Seq<char>, p: int) -> int
    decreases s.len() - p,
{
    if 0 <= p < s.len() && num_char(s[p]) {
        num_end(s, p + 1)
    } else {
        p
    }
}

/// Reading a number at `q`: a sign, then number characters; the text
/// must read as a floating-point number.
pub open spec fn number_spec(s: Seq<char>, q: int) -> Result<(JsonV, int), Seq<char>> {
    let p1 = if 0 <= q < s.len() && (s[q] == '-' || s[q] == '+') {
        q + 1
    } else {
        q
    };
    let e = num_end(s, p1);
    if e == q {
        Err("unexpected character at "@ + dec(q as nat))
    } else {
        let lex = s.subrange(q, e);
        if decimal_syntax(lex) {
            Ok((JsonV::Num(lex), e))
        } else {
            Err("bad number `"@ + lex + "`"@)
        }
    }
}

/// Reading the literal `word` at `q`.
pub open spec fn lit_spec(s: Seq<char>, q: int, word: Seq<char>, v: JsonV) -> Result<(JsonV, int), Seq<char>> {
    if q + word.len() <= s.len() && s.subrange(q, q + word.len()) == word {
        Ok((v, q + word.len()))
    } else {
        Err("expected `"@ + word + "`"@)
    }
}

/// Reading one value from `p`: the value and the position after it.
pub open spec fn value_spec(s: Seq<char>, p: int) -> Result<(JsonV, int), Seq<char>>
    decreases s.len() - p, 2int,
{
    let q = skip_spec(s, p);
    if q < p || q < 0 || q >= s.len() {
        Err("unexpected end of JSON"@)
    } else if s[q] == '{' {
        let r = skip_spec(s, q + 1);
        if r < s.len() && s[r] == '}' {
            Ok((JsonV::Obj(Seq::empty()), r + 1))
        } else {
            pairs_spec(s, q + 1, Seq::empty())
        }
    } else if s[q] == '[' {
        let r = skip_spec(s, q + 1);
        if r < s.len() && s[r] == ']' {
            Ok((JsonV::Arr(Seq::empty()), r + 1))
        } else if r <= p || r > s.len() {
            Err("unexpected end of JSON"@)
        } else {
            items_spec(s, r, Seq::empty())
        }
    } else if s[q] == '"' {
        match string_body(s, q + 1, Seq::empty()) {
            Ok((t, e)) => Ok((JsonV::Str(t), e)),
            Err(m) => Err(m),
        }
    } else if s[q] == 't' {
        lit_spec(s, q, "true"@, JsonV::Bool(true))
    } else if s[q] == 'f' {
        lit_spec(s, q, "false"@, JsonV::Bool(false))
    } else if s[q] == 'n' {
        lit_spec(s, q, "null"@, JsonV::Null)
    } else {
        number_spec(s, q)
    }
}

/// Reading the rest of an object from `p`, `acc` read so far.
pub open spec fn pairs_spec(s: Seq<char>, p: int, acc: Seq<(Seq<char>, JsonV)>) -> Result<(JsonV, int), Seq<char>>
    decreases s.len() - p, 1int,
{
    let q = skip_spec(s, p);
    if q < p || q < 0 || q >= s.len() || s[q] != '"' {
        Err("expected string"@)
    } else {
        match string_body(s, q + 1, Seq::empty()) {
            Err(m) => Err(m),
            Ok((k, r)) => {
                let r2 = skip_spec(s, r);
                if r2 < 0 || r2 >= s.len() || s[r2] != ':' {
                    Err("expected ':'"@)
                } else if r2 + 1 <= p {
                    Err("expected ':'"@)
                } else {
                    match value_spec(s, r2 + 1) {
                        Err(m) => Err(m),
                        Ok((v, t)) => {
                            let t2 = skip_spec(s, t);
                            if 0 <= t2 < s.len() && s[t2] == ',' {
                                if t2 + 1 > p {
                                    pairs_spec(s, t2 + 1, acc.push((k, v)))
                                } else {
                                    Err("expected ',' or '}'"@)
                                }
                            } else if 0 <= t2 < s.len() && s[t2] == '}' {
                                Ok((JsonV::Obj(acc.push((k, v))), t2 + 1))
                            } else {
                                Err("expected ',' or '}'"@)
                            }
                        },
                    }
                }
            },
        }
    }
}

/// Reading the rest of an array from `p`, `acc` read so far.
pub open spec fn items_spec(s: Seq<char>, p: int, acc: Seq<JsonV>) -> Result<(JsonV, int), Seq<char>>
    decreases s.len() - p, 3int,
{
    match value_spec(s, p) {
        Err(m) => Err(m),
        Ok((v, q)) => {
            let q2 = skip_spec(s, q);
            if 0 <= q2 < s.len() && s[q2] == ',' {
                if q2 + 1 > p {
                    items_spec(s, q2 + 1, acc.push(v))
                } else {
                    Err("expected ',' or ']'"@)
                }
            } else if 0 <= q2 < s.len() && s[q2] == ']' {
                Ok((JsonV::Arr(acc.push(v)), q2 + 1))
            } else {
                Err("expected ',' or ']'"@)
            }
        },
    }
}

/// What a JSON text reads as: one value with only whitespace around it.
pub open spec fn parse_spec(input: Seq<char>) -> Result<JsonV, Seq<char>> {
    match value_spec(input, skip_spec(input, 0)) {
        Err(m) => Err(m),
        Ok((v, j)) => {
            let k = skip_spec(input, j);
            if k != input.len() {
                Err("trailing content at char "@ + dec(k as nat))
            } else {
                Ok(v)
            }
        },
    }
}


fn msg(m: &str) -> (r: String)
    ensures
        r@ == m@,
{
    String::from_str(m)
}

fn skip_ws(b: &Vec<char>, i: &mut usize)
    requires
        *old(i) <= b.len(),
    ensures
        *final(i) == skip_spec(b@, *old(i) as int),
        *old(i) <= *final(i) <= b@.len(),
{
    while *i < b.len() && (b[*i] == ' ' || b[*i] == '\t' || b[*i] == '\r' || b[*i] == '\n')
        invariant
            *old(i) <= *i <= b@.len(),
            skip_spec(b@, *i as int) == skip_spec(b@, *old(i) as int),
        decreases b@.len() - *i,
    {
        *i = *i + 1;
    }
}

fn hex_digit_value(c: char) -> (r: i32)
    ensures
        r == hex_val(c),
{
    if '0' <= c && c <= '9' {
        (c as u32 - '0' as u32) as i32
    } else if 'a' <= c && c <= 'f' {
        (c as u32 - 'a' as u32 + 10) as i32
    } else if 'A' <= c && c <= 'F' {
        (c as u32 - 'A' as u32 + 10) as i32
    } else {
        -1
    }
}

/// `u32::from_str_radix` on the four characters `b[p..p + 4]`.
fn hex4_at(b: &Vec<char>, p: usize) -> (r: Option<u32>)
    requires
        p + 4 <= b.len(),
    ensures
        match hex4(b@.subrange(p as int, p + 4)) {
            Some(v) => r == Some(v as u32) && v < 0x10000,
            None => r is None,
        },
{
    let ghost h = b@.subrange(p as int, p + 4);
    assert(h[0] == b@[p as int] && h[1] == b@[p + 1] && h[2] == b@[p + 2] && h[3] == b@[p + 3]);
    let d1 = hex_digit_value(b[p + 1]);
    let d2 = hex_digit_value(b[p + 2]);
    let d3 = hex_digit_value(b[p + 3]);
    if b[p] == '+' {
        if d1 >= 0 && d2 >= 0 && d3 >= 0 {
            Some((d1 * 256 + d2 * 16 + d3) as u32)
        } else {
            None
        }
    } else {
        let d0 = hex_digit_value(b[p]);
        if d0 >= 0 && d1 >= 0 && d2 >= 0 && d3 >= 0 {
            Some((d0 * 4096 + d1 * 256 + d2 * 16 + d3) as u32)
        } else {
            None
        }
    }
}

/// Reads a string's body from `*i`, just after its opening quote.
fn string_body_at(b: &Vec<char>, i: &mut usize) -> (r: Result<String, String>)
    requires
        *old(i) <= b.len(),
    ensures
        match string_body(b@, *old(i) as int, Seq::empty()) {
            Ok((t, e)) => r matches Ok(x) && x@ == t && *final(i) == e && *old(i) < *final(i) <= b@.len(),
            Err(m) => r matches Err(x) && x@ == m,
        },
{
    let ghost s = b@;
    let ghost p0 = *i as int;
    let mut out = String::new();
    loop
        invariant
            s == b@,
            p0 <= *i <= s.len(),
            p0 == *old(i),
            string_body(s, *i as int, out@) == string_body(s, p0, Seq::empty()),
        decreases s.len() - *i,
    {
        if *i >= b.len() {
            return Err(msg("unexpected end of JSON"));
        }
        let c = b[*i];
        if c == '"' {
            *i = *i + 1;
            return Ok(out);
        }
        if c == '\\' {
            let q = *i + 1;
            if q >= b.len() {
                return Err(msg("bad escape"));
            }
            let e = b[q];
            if e == 'u' {
                if b.len() - q < 5 {
                    return Err(msg("bad \\u escape"));
                }
                match hex4_at(b, q + 1) {
                    None => {
                        return Err(msg("bad \\u escape"));
                    },
                    Some(cp) => {
                        let ch = char_or_replacement(cp);
                        assert(ch == unicode_char(cp as int));
                        push_char(&mut out, ch);
                        *i = q + 5;
                    },
                }
            } else {
                let mapped = if e == '"' {
                    Some('"')
                } else if e == '\\' {
                    Some('\\')
                } else if e == '/' {
                    Some('/')
                } else if e == 'n' {
                    Some('\n')
                } else if e == 't' {
                    Some('\t')
                } else if e == 'r' {
                    Some('\r')
                } else if e == 'b' {
                    Some('\u{8}')
                } else if e == 'f' {
                    Some('\u{c}')
                } else {
                    None
                };
                assert(mapped == short_escape(e));
                match mapped {
                    Some(m) => {
                        push_char(&mut out, m);
                        *i = q + 1;
                    },
                    None => {
                        return Err(msg("bad escape"));
                    },
                }
            }
        } else {
            push_char(&mut out, c);
            *i = *i + 1;
        }
    }
}

fn decimal_text(prefix: &str, n: usize) -> (r: String)
    ensures
        r@ == prefix@ + dec(n as nat),
{
    let mut m = String::from_str(prefix);
    push_decimal(&mut m, n as u64);
    m
}

/// Reads a number at `*i`.
fn number_at(b: &Vec<char>, i: &mut usize) -> (r: Result<Json, String>)
    requires
        *old(i) < b.len(),
    ensures
        match number_spec(b@, *old(i) as int) {
            Ok((v, e)) => r matches Ok(j) && j.deep() == v && *final(i) == e && *old(i) < *final(i) <= b@.len(),
            Err(m) => r matches Err(x) && x@ == m,
        },
{
    let ghost s = b@;
    let start = *i;
    let mut k = start;
    if b[k] == '-' || b[k] == '+' {
        k = k + 1;
    }
    let p1 = k;
    while k < b.len() && (('0' <= b[k] && b[k] <= '9') || b[k] == '.' || b[k] == 'e' || b[k] == 'E'
        || b[k] == '+' || b[k] == '-')
        invariant
            s == b@,
            p1 <= k <= s.len(),
            num_end(s, k as int) == num_end(s, p1 as int),
        decreases s.len() - k,
    {
        k = k + 1;
    }
    if k == start {
        return Err(decimal_text("unexpected character at ", start));
    }
    let lex = string_of(vstd::slice::slice_subrange(b.as_slice(), start, k));
    let lv = chars_of(lex.as_str());
    if is_decimal(&lv) {
        *i = k;
        Ok(Json::Num(lex))
    } else {
        let mut m = msg("bad number `");
        push_str(&mut m, lex.as_str());
        push_str(&mut m, "`");
        Err(m)
    }
}

/// Reads the literal `word` at `*i`.
fn lit_at(b: &Vec<char>, i: &mut usize, word: &str, v: Json) -> (r: Result<Json, String>)
    requires
        *old(i) <= b.len(),
    ensures
        match lit_spec(b@, *old(i) as int, word@, v.deep()) {
            Ok((x, e)) => r matches Ok(j) && j.deep() == x && *final(i) == e && *old(i) <= *final(i) <= b@.len(),
            Err(m) => r matches Err(y) && y@ == m,
        },
{
    let w = chars_of(word);
    let start = *i;
    if w.len() > b.len() - start {
        let mut m = msg("expected `");
        push_str(&mut m, word);
        push_str(&mut m, "`");
        return Err(m);
    }
    let mut k: usize = 0;
    while k < w.len()
        invariant
            start + w@.len() <= b.len(),
            start == *old(i),
            *i == start,
            w@ == word@,
            k <= w@.len(),
            forall|j: int| 0 <= j < k ==> b@[start + j] == w@[j],
        decreases w@.len() - k,
    {
        if b[start + k] != w[k] {
            proof {
                let sub = b@.subrange(start as int, start + w@.len());
                assert(sub[k as int] == b@[start + k]);
                assert(sub != word@);
            }
            let mut m = msg("expected `");
            push_str(&mut m, word);
            push_str(&mut m, "`");
            return Err(m);
        }
        k = k + 1;
    }
    assert(b@.subrange(start as int, start + w@.len()) =~= word@);
    *i = start + w.len();
    Ok(v)
}


/// Reads one value from `*i`.
fn value_at(b: &Vec<char>, i: &mut usize) -> (r: Result<Json, String>)
    requires
        *old(i) <= b.len(),
    ensures
        match value_spec(b@, *old(i) as int) {
            Ok((v, e)) => r matches Ok(j) && j.deep() == v && *final(i) == e && *old(i) < *final(i) <= b@.len(),
            Err(m) => r matches Err(x) && x@ == m,
        },
    decreases b@.len() - *old(i),
{
    let ghost s = b@;
    let ghost p0 = *i as int;
    skip_ws(b, i);
    if *i >= b.len() {
        return Err(msg("unexpected end of JSON"));
    }
    let q = *i;
    let c = b[q];
    if c == '{' {
        let mut r = q + 1;
        skip_ws(b, &mut r);
        if r < b.len() && b[r] == '}' {
            *i = r + 1;
            let e: Vec<(String, Json)> = Vec::new();
            proof {
                lemma_jpairs_from(e@, 0);
            }
            return Ok(Json::Obj(e));
        }
        *i = q + 1;
        let mut pairs: Vec<(String, Json)> = Vec::new();
        proof {
            lemma_jpairs_from(pairs@, 0);
            assert(jpairs_from(pairs@, 0) =~= Seq::<(Seq<char>, JsonV)>::empty());
        }
        loop
            invariant
                s == b@,
                p0 < *i <= s.len(),
                p0 == *old(i),
                pairs_spec(s, *i as int, jpairs_from(pairs@, 0)) == value_spec(s, p0),
            decreases s.len() - *i,
        {
            let ghost cur = *i as int;
            skip_ws(b, i);
            if *i >= b.len() || b[*i] != '"' {
                return Err(msg("expected string"));
            }
            *i = *i + 1;
            let key = match string_body_at(b, i) {
                Ok(k) => k,
                Err(m) => {
                    return Err(m);
                },
            };
            skip_ws(b, i);
            if *i >= b.len() || b[*i] != ':' {
                return Err(msg("expected ':'"));
            }
            *i = *i + 1;
            let v = match value_at(b, i) {
                Ok(v) => v,
                Err(m) => {
                    return Err(m);
                },
            };
            skip_ws(b, i);
            let ghost before = jpairs_from(pairs@, 0);
            let ghost kv = (key@, v.deep());
            let ghost old_pairs = pairs@;
            proof {
                lemma_jpairs_from(old_pairs, 0);
            }
            if *i < b.len() && b[*i] == ',' {
                *i = *i + 1;
                pairs.push((key, v));
                proof {
                    lemma_jpairs_from(pairs@, 0);
                    assert(jpairs_from(pairs@, 0) =~= before.push(kv));
                }
            } else if *i < b.len() && b[*i] == '}' {
                *i = *i + 1;
                pairs.push((key, v));
                proof {
                    lemma_jpairs_from(pairs@, 0);
                    assert(jpairs_from(pairs@, 0) =~= before.push(kv));
                }
                return Ok(Json::Obj(pairs));
            } else {
                return Err(msg("expected ',' or '}'"));
            }
        }
    } else if c == '[' {
        let mut r = q + 1;
        skip_ws(b, &mut r);
        if r < b.len() && b[r] == ']' {
            *i = r + 1;
            let e: Vec<Json> = Vec::new();
            proof {
                lemma_jsons_from(e@, 0);
            }
            return Ok(Json::Arr(e));
        }
        *i = r;
        let mut items: Vec<Json> = Vec::new();
        proof {
            lemma_jsons_from(items@, 0);
            assert(jsons_from(items@, 0) =~= Seq::<JsonV>::empty());
        }
        loop
            invariant
                s == b@,
                p0 < *i <= s.len(),
                p0 == *old(i),
                items_spec(s, *i as int, jsons_from(items@, 0)) == value_spec(s, p0),
            decreases s.len() - *i,
        {
            let v = match value_at(b, i) {
                Ok(v) => v,
                Err(m) => {
                    return Err(m);
                },
            };
            skip_ws(b, i);
            let ghost before = jsons_from(items@, 0);
            let ghost old_items = items@;
            proof {
                lemma_jsons_from(old_items, 0);
            }
            if *i < b.len() && b[*i] == ',' {
                *i = *i + 1;
                items.push(v);
                proof {
                    lemma_jsons_from(items@, 0);
                    assert(jsons_from(items@, 0) =~= before.push(v.deep()));
                }
            } else if *i < b.len() && b[*i] == ']' {
                *i = *i + 1;
                items.push(v);
                proof {
                    lemma_jsons_from(items@, 0);
                    assert(jsons_from(items@, 0) =~= before.push(v.deep()));
                }
                return Ok(Json::Arr(items));
            } else {
                return Err(msg("expected ',' or ']'"));
            }
        }
    } else if c == '"' {
        *i = q + 1;
        match string_body_at(b, i) {
            Ok(t) => Ok(Json::Str(t)),
            Err(m) => Err(m),
        }
    } else if c == 't' {
        proof {
            reveal_strlit("true");
            reveal_strlit("false");
            reveal_strlit("null");
        }
        lit_at(b, i, "true", Json::Bool(true))
    } else if c == 'f' {
        proof {
            reveal_strlit("false");
        }
        lit_at(b, i, "false", Json::Bool(false))
    } else if c == 'n' {
        proof {
            reveal_strlit("null");
        }
        lit_at(b, i, "null", Json::Null)
    } else {
        number_at(b, i)
    }
}

/// Reads a JSON text: one value, with only whitespace around it.
pub fn parse(input: &str) -> (r: Result<Json, String>)
    ensures
        match parse_spec(input@) {
            Ok(v) => r matches Ok(j) && j.deep() == v,
            Err(m) => r matches Err(x) && x@ == m,
        },
{
    let b = chars_of(input);
    let mut i: usize = 0;
    skip_ws(&b, &mut i);
    let v = match value_at(&b, &mut i) {
        Ok(v) => v,
        Err(m) => {
            return Err(m);
        },
    };
    skip_ws(&b, &mut i);
    if i != b.len() {
        return Err(decimal_text("trailing content at char ", i));
    }
    Ok(v)
}

/// The value of the first pair with key `key` among `pairs[k..]`.
pub open spec fn get_from(pairs: Seq<(Seq<char>, JsonV)>, key: Seq<char>, k: int) -> Option<JsonV>
    decreases pairs.len() - k,
{
    if k < 0 || k >= pairs.len() {
        None
    } else if pairs[k].0 == key {
        Some(pairs[k].1)
    } else {
        get_from(pairs, key, k + 1)
    }
}

impl Json {
    /// The value of an object's first member named `key`.
    pub fn get(&self, key: &str) -> (r: Option<&Json>)
        ensures
            match self.deep() {
                JsonV::Obj(pairs) => match get_from(pairs, key@, 0) {
                    Some(v) => r matches Some(j) && j.deep() == v,
                    None => r is None,
                },
                _ => r is None,
            },
    {
        match self {
            Json::Obj(pairs) => {
                proof {
                    lemma_jpairs_from(pairs@, 0);
                }
                let ghost d = jpairs_from(pairs@, 0);
                let mut k: usize = 0;
                while k < pairs.len()
                    invariant
                        k <= pairs@.len(),
                        d == jpairs_from(pairs@, 0),
                        d.len() == pairs@.len(),
                        forall|j: int| 0 <= j < pairs@.len() ==> #[trigger] d[j] == (pairs@[j].0@, pairs@[j].1.deep()),
                        get_from(d, key@, 0) == get_from(d, key@, k as int),
                        self.deep() == JsonV::Obj(d),
                    decreases pairs@.len() - k,
                {
                    if str_eq(pairs[k].0.as_str(), key) {
                        assert(d[k as int] == (pairs@[k as int].0@, pairs@[k as int].1.deep()));
                        return Some(&pairs[k].1);
                    }
                    k = k + 1;
                }
                None
            },
            _ => None,
        }
    }

    /// The text of a string.
    pub fn as_str(&self) -> (r: Option<&str>)
        ensures
            match self.deep() {
                JsonV::Str(s) => r matches Some(t) && t@ == s,
                _ => r is None,
            },
    {
        match self {
            Json::Str(s) => Some(s.as_str()),
            _ => None,
        }
    }

    /// The text of a number, as written.
    pub fn as_number_text(&self) -> (r: Option<&str>)
        ensures
            match self.deep() {
                JsonV::Num(s) => r matches Some(t) && t@ == s,
                _ => r is None,
            },
    {
        match self {
            Json::Num(s) => Some(s.as_str()),
            _ => None,
        }
    }

    pub fn as_bool(&self) -> (r: Option<bool>)
        ensures
            match self.deep() {
                JsonV::Bool(b) => r == Some(b),
                _ => r is None,
            },
    {
        match self {
            Json::Bool(b) => Some(*b),
            _ => None,
        }
    }

    /// The items of an array.
    pub fn as_arr(&self) -> (r: Option<&[Json]>)
        ensures
            match self.deep() {
                JsonV::Arr(items) => r matches Some(a) && jsons_from(a@, 0) == items,
                _ => r is None,
            },
    {
        match self {
            Json::Arr(a) => Some(a.as_slice()),
            _ => None,
        }
    }
}

} // verus!
