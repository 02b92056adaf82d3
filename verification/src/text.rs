//! Character-level helpers shared by the readers and renderers.

use vstd::prelude::*;

verus! {

/// Whether a character is Unicode `White_Space`, the property that
/// `char::is_whitespace` and the `trim` family go by.
pub open spec fn is_ws(c: char) -> bool {
    ||| ('\u{9}' <= c && c <= '\u{d}')
    ||| c == ' '
    ||| c == '\u{85}'
    ||| c == '\u{a0}'
    ||| c == '\u{1680}'
    ||| ('\u{2000}' <= c && c <= '\u{200a}')
    ||| c == '\u{2028}'
    ||| c == '\u{2029}'
    ||| c == '\u{202f}'
    ||| c == '\u{205f}'
    ||| c == '\u{3000}'
}

pub fn is_whitespace_char(c: char) -> (r: bool)
    ensures
        r == is_ws(c),
{
    ('\u{9}' <= c && c <= '\u{d}') || c == ' ' || c == '\u{85}' || c == '\u{a0}' || c == '\u{1680}'
        || ('\u{2000}' <= c && c <= '\u{200a}') || c == '\u{2028}' || c == '\u{2029}'
        || c == '\u{202f}' || c == '\u{205f}' || c == '\u{3000}'
}

/// Appends one character, as `String::push` does.
#[verifier::external_body]
pub(crate) fn push_char(s: &mut String, c: char)
    ensures
        final(s)@ == old(s)@.push(c),
{
    s.push(c);
}

/// The characters of `s`, in order.
pub fn chars_of(s: &str) -> (v: Vec<char>)
    ensures
        v@ == s@,
{
    let mut v: Vec<char> = Vec::new();
    for c in it: s.chars()
        invariant
            it.seq() == s@,
            v@ == s@.take(it.index() as int),
    {
        v.push(c);
    }
    assert(s@.take(s@.len() as int) =~= s@);
    v
}

/// A string holding exactly the given characters.
pub fn string_of(v: &[char]) -> (s: String)
    ensures
        s@ == v@,
{
    let mut s = String::new();
    for i in 0..v.len()
        invariant
            s@ == v@.take(i as int),
    {
        push_char(&mut s, v[i]);
        assert(s@ =~= v@.take(i + 1));
    }
    assert(v@.take(v@.len() as int) =~= v@);
    s
}

/// Appends a string slice.
pub fn push_str(s: &mut String, t: &str)
    ensures
        final(s)@ == old(s)@ + t@,
{
    s.append(t);
}

/// Character-wise equality of two character slices.
pub fn chars_eq(a: &[char], b: &[char]) -> (r: bool)
    ensures
        r == (a@ == b@),
{
    if a.len() != b.len() {
        return false;
    }
    let mut i: usize = 0;
    while i < a.len()
        invariant
            a@.len() == b@.len(),
            i <= a@.len(),
            forall|j: int| 0 <= j < i ==> a@[j] == b@[j],
        decreases a@.len() - i,
    {
        if a[i] != b[i] {
            return false;
        }
        i = i + 1;
    }
    assert(a@ =~= b@);
    true
}

/// Whether two string slices hold the same characters.
pub fn str_eq(a: &str, b: &str) -> (r: bool)
    ensures
        r == (a@ == b@),
{
    let va = chars_of(a);
    let vb = chars_of(b);
    chars_eq(va.as_slice(), vb.as_slice())
}

pub open spec fn is_digit(c: char) -> bool {
    '0' <= c && c <= '9'
}

pub open spec fn digit_value(c: char) -> int {
    c as int - '0' as int
}

/// The decimal digit character for `d < 10`.
pub open spec fn digit_char(d: int) -> char {
    if d == 0 {
        '0'
    } else if d == 1 {
        '1'
    } else if d == 2 {
        '2'
    } else if d == 3 {
        '3'
    } else if d == 4 {
        '4'
    } else if d == 5 {
        '5'
    } else if d == 6 {
        '6'
    } else if d == 7 {
        '7'
    } else if d == 8 {
        '8'
    } else {
        '9'
    }
}

/// Decimal rendering of a natural number, without leading zeros.
pub open spec fn dec(n: nat) -> Seq<char>
    decreases n,
{
    if n < 10 {
        seq![digit_char(n as int)]
    } else {
        dec(n / 10).push(digit_char((n % 10) as int))
    }
}

/// Decimal rendering of an integer, with a leading `-` when negative.
pub open spec fn dec_int(n: int) -> Seq<char> {
    if n < 0 {
        seq!['-'] + dec((-n) as nat)
    } else {
        dec(n as nat)
    }
}

fn digit(d: u64) -> (c: char)
    requires
        d < 10,
    ensures
        c == digit_char(d as int),
{
    if d == 0 {
        '0'
    } else if d == 1 {
        '1'
    } else if d == 2 {
        '2'
    } else if d == 3 {
        '3'
    } else if d == 4 {
        '4'
    } else if d == 5 {
        '5'
    } else if d == 6 {
        '6'
    } else if d == 7 {
        '7'
    } else if d == 8 {
        '8'
    } else {
        '9'
    }
}

/// Appends the decimal rendering of `n`.
pub fn push_decimal(s: &mut String, n: u64)
    ensures
        final(s)@ == old(s)@ + dec(n as nat),
    decreases n,
{
    if n >= 10 {
        push_decimal(s, n / 10);
    }
    push_char(s, digit(n % 10));
    proof {
        if n >= 10 {
            assert(dec(n as nat) == dec((n / 10) as nat).push(digit_char((n % 10) as int)));
        }
    }
    assert(final(s)@ =~= old(s)@ + dec(n as nat)) by {
        if n >= 10 {
            assert(dec(n as nat) == dec((n / 10) as nat).push(digit_char((n % 10) as int)));
        }
    }
}

/// Appends the decimal rendering of a 128-bit `n`.
pub fn push_decimal_wide(s: &mut String, n: u128)
    ensures
        final(s)@ == old(s)@ + dec(n as nat),
    decreases n,
{
    if n >= 10 {
        push_decimal_wide(s, n / 10);
    }
    let d = (n % 10) as u64;
    push_char(s, digit(d));
    assert(final(s)@ =~= old(s)@ + dec(n as nat)) by {
        if n >= 10 {
            assert(dec(n as nat) == dec((n / 10) as nat).push(digit_char((n % 10) as int)));
        }
    }
}

/// Decimal rendering of an unsigned integer.
pub fn u64_text(n: u64) -> (s: String)
    ensures
        s@ == dec(n as nat),
{
    let mut s = String::new();
    push_decimal(&mut s, n);
    assert(s@ =~= dec(n as nat));
    s
}

/// Decimal rendering of a signed integer.
pub fn i64_text(n: i64) -> (s: String)
    ensures
        s@ == dec_int(n as int),
{
    let mut s = String::new();
    if n < 0 {
        push_char(&mut s, '-');
        let m: u64 = if n == i64::MIN {
            9223372036854775808u64
        } else {
            (-n) as u64
        };
        push_decimal(&mut s, m);
    } else {
        push_decimal(&mut s, n as u64);
    }
    assert(s@ =~= dec_int(n as int));
    s
}

/// Value of a sequence of decimal digits.
pub open spec fn digits_value(s: Seq<char>) -> int
    decreases s.len(),
{
    if s.len() == 0 {
        0
    } else {
        digits_value(s.drop_last()) * 10 + digit_value(s.last())
    }
}

/// Reading back a decimal rendering gives the number.
pub proof fn lemma_dec_value(n: nat)
    ensures
        digits_value(dec(n)) == n,
        dec(n).len() >= 1,
    decreases n,
{
    if n >= 10 {
        let q = n / 10;
        let r = n % 10;
        lemma_dec_value(q);
        let d = dec(q).push(digit_char(r as int));
        assert(dec(n) == d);
        assert(d.drop_last() =~= dec(q));
        assert(d.last() == digit_char(r as int));
        assert(r < 10);
        assert(digit_value(digit_char(r as int)) == r);
        assert(digits_value(d) == digits_value(dec(q)) * 10 + digit_value(d.last()));
        assert(q * 10 + r == n) by (nonlinear_arith)
            requires
                q == n / 10,
                r == n % 10,
        ;
    } else {
        assert(digit_value(digit_char(n as int)) == n);
        let d = seq![digit_char(n as int)];
        assert(d.drop_last() =~= Seq::<char>::empty());
        assert(digits_value(d) == digits_value(d.drop_last()) * 10 + digit_value(d.last()));
    }
}

/// Distinct numbers have distinct decimal renderings.
pub proof fn lemma_dec_injective(a: nat, b: nat)
    ensures
        dec(a) == dec(b) ==> a == b,
{
    lemma_dec_value(a);
    lemma_dec_value(b);
}

pub open spec fn all_digits(s: Seq<char>) -> bool {
    forall|i: int| 0 <= i < s.len() ==> is_digit(#[trigger] s[i])
}

/// What `str::parse::<i64>` gives: an optional `+` or `-`, then one or more
/// ASCII digits, and a value in range; anything else is refused.
pub open spec fn parse_i64_spec(s: Seq<char>) -> Option<int> {
    if s.len() == 0 {
        None
    } else {
        let neg = s[0] == '-';
        let body = if s[0] == '+' || s[0] == '-' {
            s.skip(1)
        } else {
            s
        };
        if body.len() == 0 || !all_digits(body) {
            None
        } else {
            let v = digits_value(body);
            let r = if neg {
                -v
            } else {
                v
            };
            if i64::MIN <= r && r <= i64::MAX {
                Some(r)
            } else {
                None
            }
        }
    }
}

proof fn lemma_digits_value_nonneg(s: Seq<char>)
    requires
        all_digits(s),
    ensures
        digits_value(s) >= 0,
    decreases s.len(),
{
    if s.len() > 0 {
        assert(all_digits(s.drop_last()));
        lemma_digits_value_nonneg(s.drop_last());
        assert(is_digit(s[s.len() - 1]));
    }
}

proof fn lemma_digits_value_grows(s: Seq<char>, t: Seq<char>)
    requires
        all_digits(s + t),
    ensures
        digits_value(s + t) >= digits_value(s),
    decreases t.len(),
{
    if t.len() > 0 {
        let u = s + t.drop_last();
        assert((s + t).drop_last() =~= u);
        assert(all_digits(u)) by {
            assert forall|i: int| 0 <= i < u.len() implies is_digit(#[trigger] u[i]) by {
                assert(u[i] == (s + t)[i]);
            }
        }
        lemma_digits_value_grows(s, t.drop_last());
        lemma_digits_value_nonneg(u);
        assert(is_digit((s + t)[(s + t).len() - 1]));
    }
}

/// Parses a signed decimal integer the way `str::parse::<i64>` does.
pub fn parse_i64(s: &[char]) -> (r: Option<i64>)
    ensures
        r matches Some(v) ==> parse_i64_spec(s@) == Some(v as int),
        r is None ==> parse_i64_spec(s@) is None,
{
    let n = s.len();
    if n == 0 {
        return None;
    }
    let neg = s[0] == '-';
    let start: usize = if s[0] == '+' || s[0] == '-' {
        1
    } else {
        0
    };
    if start == n {
        return None;
    }
    let limit: u64 = if neg {
        9223372036854775808u64
    } else {
        9223372036854775807u64
    };
    let ghost body = if s@[0] == '+' || s@[0] == '-' {
        s@.skip(1)
    } else {
        s@
    };
    assert(body =~= s@.subrange(start as int, n as int));
    let mut acc: u64 = 0;
    let mut i: usize = start;
    while i < n
        invariant
            start <= i <= n,
            n == s@.len(),
            n > 0,
            neg == (s@[0] == '-'),
            start == (if s@[0] == '+' || s@[0] == '-' { 1int } else { 0int }),
            body == (if s@[0] == '+' || s@[0] == '-' { s@.skip(1) } else { s@ }),
            limit == (if neg { 9223372036854775808u64 } else { 9223372036854775807u64 }),
            body =~= s@.subrange(start as int, n as int),
            all_digits(s@.subrange(start as int, i as int)),
            acc as int == digits_value(s@.subrange(start as int, i as int)),
            acc <= limit,
        decreases n - i,
    {
        let c = s[i];
        if !('0' <= c && c <= '9') {
            proof {
                assert(body[i - start] == s@[i as int]);
                assert(!is_digit(body[i - start]));
                assert(!all_digits(body));
            }
            return None;
        }
        assert(48 <= (c as u32) && (c as u32) <= 57);
        let d = (c as u32 - '0' as u32) as u64;
        assert(d == digit_value(c));
        let ghost prefix = s@.subrange(start as int, i as int);
        let ghost next = s@.subrange(start as int, i + 1);
        assert(next.drop_last() =~= prefix);
        assert(all_digits(next)) by {
            assert forall|j: int| 0 <= j < next.len() implies is_digit(#[trigger] next[j]) by {
                if j < prefix.len() {
                    assert(next[j] == prefix[j]);
                }
            }
        }
        if acc > (limit - d) / 10 {
            proof {
                assert(digits_value(next) == acc * 10 + d);
                assert(digits_value(next) > limit);
                assert(body =~= next + s@.subrange(i + 1, n as int));
                if all_digits(body) {
                    lemma_digits_value_grows(next, s@.subrange(i + 1, n as int));
                }
            }
            return None;
        }
        acc = acc * 10 + d;
        i = i + 1;
    }
    let r: i64 = if neg {
        if acc == 9223372036854775808u64 {
            i64::MIN
        } else {
            -(acc as i64)
        }
    } else {
        acc as i64
    };
    Some(r)
}


/// `k` zero characters, none when `k` is not positive.
pub open spec fn zeros(k: int) -> Seq<char> {
    Seq::new(if k > 0 { k as nat } else { 0nat }, |_i: int| '0')
}

/// `n` as `format!("{:0w$}", n)` renders it: a `-` first when negative,
/// then zeros up to a total width of `w`, then the digits.
pub open spec fn padded(n: int, w: int) -> Seq<char> {
    if n < 0 {
        seq!['-'] + zeros(w - 1 - dec((-n) as nat).len()) + dec((-n) as nat)
    } else {
        zeros(w - dec(n as nat).len()) + dec(n as nat)
    }
}

/// Appends `n` zero-padded to width `w`, as `{:0w$}` formats it.
pub fn push_padded(s: &mut String, n: i64, w: usize)
    ensures
        final(s)@ == old(s)@ + padded(n as int, w as int),
{
    let neg = n < 0;
    let mag: u64 = if n == i64::MIN {
        9223372036854775808u64
    } else if neg {
        (-n) as u64
    } else {
        n as u64
    };
    let t = u64_text(mag);
    let len = t.as_str().unicode_len();
    let lead: usize = if neg { 1 } else { 0 };
    let pad: usize = if len < w && w - len > lead { w - len - lead } else { 0 };
    let ghost s0 = s@;
    if neg {
        push_char(s, '-');
    }
    let ghost s1 = s@;
    let mut i: usize = 0;
    while i < pad
        invariant
            i <= pad,
            s@ == s1 + zeros(i as int),
        decreases pad - i,
    {
        push_char(s, '0');
        i = i + 1;
        assert(s@ =~= s1 + zeros(i as int));
    }
    push_str(s, t.as_str());
    assert(zeros(pad as int) =~= zeros(w - lead - len));
    if neg {
        assert(s@ =~= s0 + padded(n as int, w as int));
    } else {
        assert(s@ =~= s0 + padded(n as int, w as int));
    }
}

/// A copy of an optional string, character for character.
pub fn copy_opt_string(s: &Option<String>) -> (r: Option<String>)
    ensures
        r == *s,
{
    match s {
        Some(v) => Some(v.clone()),
        None => None,
    }
}

/// A copy of a list of strings, element for element.
pub fn copy_strings(v: &Vec<String>) -> (r: Vec<String>)
    ensures
        r@ == v@,
{
    let mut r: Vec<String> = Vec::new();
    for i in 0..v.len()
        invariant
            r@ == v@.take(i as int),
    {
        r.push(v[i].clone());
        assert(r@ =~= v@.take(i + 1));
    }
    assert(v@.take(v.len() as int) =~= v@);
    r
}


/// Lexicographic order of character sequences, the order `str`'s `Ord`
/// gives (comparing code points is comparing their UTF-8 bytes).
pub open spec fn seq_lt(a: Seq<char>, b: Seq<char>) -> bool
    decreases a.len(),
{
    if a.len() == 0 {
        b.len() > 0
    } else if b.len() == 0 {
        false
    } else if a[0] != b[0] {
        a[0] < b[0]
    } else {
        seq_lt(a.drop_first(), b.drop_first())
    }
}

pub proof fn lemma_seq_lt_irreflexive(a: Seq<char>)
    ensures
        !seq_lt(a, a),
    decreases a.len(),
{
    if a.len() > 0 {
        lemma_seq_lt_irreflexive(a.drop_first());
    }
}

pub proof fn lemma_seq_lt_asymmetric(a: Seq<char>, b: Seq<char>)
    requires
        seq_lt(a, b),
    ensures
        !seq_lt(b, a),
    decreases a.len(),
{
    if a.len() > 0 && b.len() > 0 && a[0] == b[0] {
        lemma_seq_lt_asymmetric(a.drop_first(), b.drop_first());
    }
}

pub proof fn lemma_seq_lt_transitive(a: Seq<char>, b: Seq<char>, c: Seq<char>)
    requires
        seq_lt(a, b),
        seq_lt(b, c),
    ensures
        seq_lt(a, c),
    decreases a.len(),
{
    if a.len() > 0 && b.len() > 0 && c.len() > 0 && a[0] == b[0] && b[0] == c[0] {
        lemma_seq_lt_transitive(a.drop_first(), b.drop_first(), c.drop_first());
    }
}

pub proof fn lemma_seq_lt_total(a: Seq<char>, b: Seq<char>)
    requires
        a != b,
    ensures
        seq_lt(a, b) || seq_lt(b, a),
    decreases a.len(),
{
    if a.len() > 0 && b.len() > 0 && a[0] == b[0] {
        if a.drop_first() == b.drop_first() {
            assert(a =~= seq![a[0]] + a.drop_first());
            assert(b =~= seq![b[0]] + b.drop_first());
        }
        lemma_seq_lt_total(a.drop_first(), b.drop_first());
    } else if a.len() == 0 && b.len() == 0 {
        assert(a =~= b);
    }
}

/// Whether `a` sorts strictly before `b`.
pub fn chars_lt(a: &[char], b: &[char]) -> (r: bool)
    ensures
        r == seq_lt(a@, b@),
{
    let mut i: usize = 0;
    assert(a@.skip(0) =~= a@);
    assert(b@.skip(0) =~= b@);
    while i < a.len() && i < b.len() && a[i] == b[i]
        invariant
            i <= a@.len(),
            i <= b@.len(),
            seq_lt(a@, b@) == seq_lt(a@.skip(i as int), b@.skip(i as int)),
        decreases a@.len() - i,
    {
        assert(a@.skip(i as int).drop_first() =~= a@.skip(i + 1));
        assert(b@.skip(i as int).drop_first() =~= b@.skip(i + 1));
        i = i + 1;
    }
    if i == a.len() {
        i < b.len()
    } else if i == b.len() {
        false
    } else {
        a[i] < b[i]
    }
}

/// Whether the text of `a` sorts strictly before that of `b`.
pub fn str_lt(a: &str, b: &str) -> (r: bool)
    ensures
        r == seq_lt(a@, b@),
{
    let va = chars_of(a);
    let vb = chars_of(b);
    chars_lt(va.as_slice(), vb.as_slice())
}

/// Index of the first `c` in `s` at or after `i`, or `s.len()` when none.
pub open spec fn find_from(s: Seq<char>, c: char, i: int) -> int
    decreases s.len() - i,
{
    if i >= s.len() {
        s.len() as int
    } else if s[i] == c {
        i
    } else {
        find_from(s, c, i + 1)
    }
}

/// `find_from` answers at or after where it starts looking, and only at a
/// `c` unless it reached the end.
pub proof fn lemma_find_from_bounds(s: Seq<char>, c: char, i: int)
    requires
        0 <= i <= s.len(),
    ensures
        i <= find_from(s, c, i) <= s.len(),
        find_from(s, c, i) < s.len() ==> s[find_from(s, c, i)] == c,
        forall|j: int| i <= j < find_from(s, c, i) ==> s[j] != c,
    decreases s.len() - i,
{
    if i < s.len() && s[i] != c {
        lemma_find_from_bounds(s, c, i + 1);
    }
}

/// Skipping whitespace from `p` stays within `p ..= s.len()`.
pub proof fn lemma_lead_ws_bounds(s: Seq<char>, p: int)
    requires
        0 <= p <= s.len(),
    ensures
        p <= lead_ws(s, p) <= s.len(),
    decreases s.len() - p,
{
    if p < s.len() && is_ws(s[p]) {
        lemma_lead_ws_bounds(s, p + 1);
    }
}

/// Position of the first non-whitespace character at or after `p`.
pub fn skip_ws(s: &[char], p: usize) -> (r: usize)
    requires
        p <= s@.len(),
    ensures
        r == lead_ws(s@, p as int),
{
    let mut a: usize = p;
    while a < s.len() && is_whitespace_char(s[a])
        invariant
            p <= a <= s@.len(),
            lead_ws(s@, a as int) == lead_ws(s@, p as int),
        decreases s@.len() - a,
    {
        a = a + 1;
    }
    a
}

/// End of `s.take(e)` once trailing whitespace is dropped.
pub open spec fn trail_ws(s: Seq<char>, e: int) -> int
    decreases e,
{
    if 0 < e <= s.len() && is_ws(s[e - 1]) {
        trail_ws(s, e - 1)
    } else {
        e
    }
}

/// `s` without trailing whitespace, as `str::trim_end` gives it.
pub open spec fn trim_end_spec(s: Seq<char>) -> Seq<char> {
    s.take(trail_ws(s, s.len() as int))
}

/// `s[from..]` without trailing whitespace.
pub fn trim_end_from(s: &[char], from: usize) -> (r: Vec<char>)
    requires
        from <= s@.len(),
    ensures
        r@ == trim_end_spec(s@.skip(from as int)),
{
    let ghost t = s@.skip(from as int);
    let mut e: usize = s.len();
    while e > from && is_whitespace_char(s[e - 1])
        invariant
            from <= e <= s@.len(),
            t == s@.skip(from as int),
            trail_ws(t, e - from) == trail_ws(t, t.len() as int),
        decreases e,
    {
        assert(t[e - from - 1] == s@[e - 1]);
        e = e - 1;
    }
    assert(e > from ==> t[e - from - 1] == s@[e - 1]);
    let r = sub_chars(s, from, e);
    assert(r@ =~= trim_end_spec(t));
    r
}

/// The characters `s[a..b]`.
pub fn sub_chars(s: &[char], a: usize, b: usize) -> (r: Vec<char>)
    requires
        a <= b <= s@.len(),
    ensures
        r@ == s@.subrange(a as int, b as int),
{
    let mut r: Vec<char> = Vec::new();
    let mut k = a;
    while k < b
        invariant
            a <= k <= b <= s@.len(),
            r@ == s@.subrange(a as int, k as int),
        decreases b - k,
    {
        r.push(s[k]);
        k = k + 1;
        assert(r@ =~= s@.subrange(a as int, k as int));
    }
    r
}

/// Index of the first `c` in `s` at or after `from`, or `s.len()`.
pub fn find_char_from(s: &[char], c: char, from: usize) -> (r: usize)
    ensures
        r == find_from(s@, c, from as int),
{
    let mut i: usize = from;
    if i >= s.len() {
        return s.len();
    }
    while i < s.len() && s[i] != c
        invariant
            from <= i <= s@.len(),
            find_from(s@, c, i as int) == find_from(s@, c, from as int),
        decreases s@.len() - i,
    {
        i = i + 1;
    }
    i
}

/// The non-empty pieces of `s[p..]` between the characters `c`, in order:
/// what `split(c)` followed by dropping empty pieces gives.
pub open spec fn sep_items(s: Seq<char>, c: char, p: int) -> Seq<Seq<char>>
    decreases s.len() - p,
{
    if p < 0 || p > s.len() {
        seq![]
    } else {
        let j = find_from(s, c, p);
        let head = s.subrange(p, j);
        let rest = if j < s.len() {
            proof {
                lemma_find_from_bounds(s, c, p);
            }
            sep_items(s, c, j + 1)
        } else {
            seq![]
        };
        if head.len() > 0 {
            seq![head] + rest
        } else {
            rest
        }
    }
}

pub open spec fn texts_of(v: Seq<String>) -> Seq<Seq<char>> {
    v.map_values(|s: String| s@)
}

/// The non-empty pieces of `s` between the characters `c`.
pub fn sep_list(s: &str, c: char) -> (r: Vec<String>)
    ensures
        texts_of(r@) == sep_items(s@, c, 0),
{
    let chars = chars_of(s);
    let v = chars.as_slice();
    let ghost sv = s@;
    let mut out: Vec<String> = Vec::new();
    let mut p: usize = 0;
    loop
        invariant
            v@ == sv,
            sv == s@,
            p <= sv.len(),
            texts_of(out@) + sep_items(sv, c, p as int) == sep_items(sv, c, 0),
        decreases sv.len() - p,
    {
        let j = find_char_from(v, c, p);
        proof {
            lemma_find_from_bounds(sv, c, p as int);
        }
        let ghost before = out@;
        if j > p {
            out.push(string_of(sub_chars(v, p, j).as_slice()));
            assert(texts_of(out@) =~= texts_of(before).push(sv.subrange(p as int, j as int)));
        }
        if j >= v.len() {
            assert(texts_of(out@) =~= sep_items(sv, c, 0));
            return out;
        }
        assert(texts_of(before) + sep_items(sv, c, p as int) =~= texts_of(out@) + sep_items(
            sv,
            c,
            j + 1,
        ));
        p = j + 1;
    }
}

/// `s` without leading and trailing whitespace, as `str::trim` gives it.
pub open spec fn trim_spec(s: Seq<char>) -> Seq<char> {
    s.subrange(lead_ws(s, 0), trail_end(s, s.len() as int))
}

pub open spec fn lead_ws(s: Seq<char>, p: int) -> int
    decreases s.len() - p,
{
    if 0 <= p < s.len() && is_ws(s[p]) {
        lead_ws(s, p + 1)
    } else {
        p
    }
}

pub open spec fn trail_end(s: Seq<char>, e: int) -> int
    decreases e,
{
    if 0 < e <= s.len() && is_ws(s[e - 1]) && e > lead_ws(s, 0) {
        trail_end(s, e - 1)
    } else {
        e
    }
}

/// `s` with leading and trailing whitespace removed.
pub fn trim_chars(s: &Vec<char>) -> (r: Vec<char>)
    ensures
        r@ == trim_spec(s@),
{
    let ghost v = s@;
    let mut a: usize = 0;
    while a < s.len() && is_whitespace_char(s[a])
        invariant
            a <= v.len(),
            v == s@,
            lead_ws(v, a as int) == lead_ws(v, 0),
        decreases v.len() - a,
    {
        a = a + 1;
    }
    let mut e: usize = s.len();
    while e > a && is_whitespace_char(s[e - 1])
        invariant
            a <= e <= v.len(),
            v == s@,
            a == lead_ws(v, 0),
            trail_end(v, e as int) == trail_end(v, v.len() as int),
        decreases e,
    {
        e = e - 1;
    }
    let mut r: Vec<char> = Vec::new();
    let mut k = a;
    while k < e
        invariant
            a <= k <= e <= v.len(),
            v == s@,
            r@ == v.subrange(a as int, k as int),
        decreases e - k,
    {
        r.push(s[k]);
        k = k + 1;
        assert(r@ =~= v.subrange(a as int, k as int));
    }
    r
}


/// What `str::parse::<usize>` gives: an optional `+`, then one or more
/// ASCII digits, and a value in range; anything else is refused.
pub open spec fn parse_usize_spec(s: Seq<char>) -> Option<int> {
    let body = if s.len() > 0 && s[0] == '+' {
        s.skip(1)
    } else {
        s
    };
    if body.len() == 0 || !all_digits(body) || digits_value(body) > usize::MAX {
        None
    } else {
        Some(digits_value(body))
    }
}

/// Parses an unsigned decimal integer the way `str::parse::<usize>` does.
pub fn parse_usize(s: &[char]) -> (r: Option<usize>)
    ensures
        r matches Some(v) ==> parse_usize_spec(s@) == Some(v as int),
        r is None ==> parse_usize_spec(s@) is None,
{
    let n = s.len();
    let start: usize = if n > 0 && s[0] == '+' {
        1
    } else {
        0
    };
    let ghost body = if s@.len() > 0 && s@[0] == '+' {
        s@.skip(1)
    } else {
        s@
    };
    assert(body =~= s@.subrange(start as int, n as int));
    if start == n {
        return None;
    }
    let mut acc: usize = 0;
    let mut i: usize = start;
    while i < n
        invariant
            start <= i <= n,
            n == s@.len(),
            body == (if s@.len() > 0 && s@[0] == '+' { s@.skip(1) } else { s@ }),
            start == (if s@.len() > 0 && s@[0] == '+' { 1int } else { 0int }),
            body =~= s@.subrange(start as int, n as int),
            all_digits(s@.subrange(start as int, i as int)),
            acc as int == digits_value(s@.subrange(start as int, i as int)),
        decreases n - i,
    {
        let c = s[i];
        if !('0' <= c && c <= '9') {
            proof {
                assert(body[i - start] == s@[i as int]);
                assert(!is_digit(body[i - start]));
            }
            return None;
        }
        let d = (c as u32 - '0' as u32) as usize;
        assert(d == digit_value(c));
        let ghost prefix = s@.subrange(start as int, i as int);
        let ghost next = s@.subrange(start as int, i + 1);
        assert(next.drop_last() =~= prefix);
        assert(all_digits(next)) by {
            assert forall|j: int| 0 <= j < next.len() implies is_digit(#[trigger] next[j]) by {
                if j < prefix.len() {
                    assert(next[j] == prefix[j]);
                }
            }
        }
        if acc > (usize::MAX - d) / 10 {
            proof {
                assert(digits_value(next) == acc * 10 + d);
                assert(digits_value(next) > usize::MAX);
                assert(body =~= next + s@.subrange(i + 1, n as int));
                if all_digits(body) {
                    lemma_digits_value_grows(next, s@.subrange(i + 1, n as int));
                }
            }
            return None;
        }
        acc = acc * 10 + d;
        i = i + 1;
    }
    Some(acc)
}

/// What `str::parse` gives for an unsigned type whose largest value is
/// `max`: an optional `+`, then one or more ASCII digits, and a value in
/// range; anything else is refused.
pub open spec fn parse_unsigned_spec(s: Seq<char>, max: int) -> Option<int> {
    let body = if s.len() > 0 && s[0] == '+' {
        s.skip(1)
    } else {
        s
    };
    if body.len() == 0 || !all_digits(body) || digits_value(body) > max {
        None
    } else {
        Some(digits_value(body))
    }
}

/// Parses an unsigned decimal integer no larger than `max`, the way
/// `str::parse` does for the unsigned type whose largest value is `max`.
pub fn parse_unsigned(s: &[char], max: u64) -> (r: Option<u64>)
    ensures
        r matches Some(v) ==> parse_unsigned_spec(s@, max as int) == Some(v as int),
        r is None ==> parse_unsigned_spec(s@, max as int) is None,
{
    let n = s.len();
    let start: usize = if n > 0 && s[0] == '+' {
        1
    } else {
        0
    };
    let ghost body = if s@.len() > 0 && s@[0] == '+' {
        s@.skip(1)
    } else {
        s@
    };
    assert(body =~= s@.subrange(start as int, n as int));
    if start == n {
        return None;
    }
    let mut acc: u64 = 0;
    let mut i: usize = start;
    while i < n
        invariant
            start <= i <= n,
            n == s@.len(),
            body == (if s@.len() > 0 && s@[0] == '+' { s@.skip(1) } else { s@ }),
            start == (if s@.len() > 0 && s@[0] == '+' { 1int } else { 0int }),
            body =~= s@.subrange(start as int, n as int),
            all_digits(s@.subrange(start as int, i as int)),
            acc as int == digits_value(s@.subrange(start as int, i as int)),
            acc <= max,
        decreases n - i,
    {
        let c = s[i];
        if !('0' <= c && c <= '9') {
            proof {
                assert(body[i - start] == s@[i as int]);
                assert(!is_digit(body[i - start]));
            }
            return None;
        }
        let d = (c as u32 - '0' as u32) as u64;
        assert(d == digit_value(c));
        let ghost prefix = s@.subrange(start as int, i as int);
        let ghost next = s@.subrange(start as int, i + 1);
        assert(next.drop_last() =~= prefix);
        assert(all_digits(next)) by {
            assert forall|j: int| 0 <= j < next.len() implies is_digit(#[trigger] next[j]) by {
                if j < prefix.len() {
                    assert(next[j] == prefix[j]);
                }
            }
        }
        if (acc as u128) * 10 + (d as u128) > (max as u128) {
            proof {
                assert(digits_value(next) == acc * 10 + d);
                assert(digits_value(next) > max);
                assert(body =~= next + s@.subrange(i + 1, n as int));
                if all_digits(body) {
                    lemma_digits_value_grows(next, s@.subrange(i + 1, n as int));
                }
            }
            return None;
        }
        acc = acc * 10 + d;
        i = i + 1;
    }
    Some(acc)
}

/// The text `format!("{:?}", s)` gives for a string slice.
pub uninterp spec fn debug_text(s: Seq<char>) -> Seq<char>;

/// Printable ASCII without double quotes or backslashes: text that Rust's
/// debug form leaves as it is between its quotes.
pub open spec fn quiet_text(s: Seq<char>) -> bool {
    forall|i: int|
        0 <= i < s.len() ==> ' ' <= #[trigger] s[i] <= '~' && s[i] != '"' && s[i] != '\\'
}

/// A string slice in Rust's debug form, quoted and escaped. Printable
/// ASCII other than `"` and `\` is not escaped (as `char::escape_debug`
/// documents), so quiet text comes back just between quotes.
#[verifier::external_body]
pub(crate) fn debug_str(s: &str) -> (r: String)
    ensures
        r@ == debug_text(s@),
        quiet_text(s@) ==> r@ == seq!['"'] + s@ + seq!['"'],
{
    format!("{:?}", s)
}

/// The non-empty trimmed pieces of `s[p..]` between commas, in order.
pub open spec fn trimmed_items(s: Seq<char>, p: int) -> Seq<Seq<char>>
    decreases s.len() - p,
{
    if p < 0 || p > s.len() {
        seq![]
    } else {
        let j = find_from(s, ',', p);
        let head = trim_spec(s.subrange(p, j));
        let rest = if j < s.len() {
            proof {
                lemma_find_from_bounds(s, ',', p);
            }
            trimmed_items(s, j + 1)
        } else {
            seq![]
        };
        if head.len() > 0 {
            seq![head] + rest
        } else {
            rest
        }
    }
}

/// The non-empty trimmed comma-separated items of `v`.
pub fn split_trimmed(v: &[char]) -> (r: Vec<String>)
    ensures
        texts_of(r@) == trimmed_items(v@, 0),
{
    let mut out: Vec<String> = Vec::new();
    let mut p: usize = 0;
    loop
        invariant
            p <= v@.len(),
            texts_of(out@) + trimmed_items(v@, p as int) == trimmed_items(v@, 0),
        decreases v@.len() - p,
    {
        let j = find_char_from(v, ',', p);
        proof {
            lemma_find_from_bounds(v@, ',', p as int);
        }
        let ghost before = out@;
        let head = trim_chars(&sub_chars(v, p, j));
        if head.len() > 0 {
            out.push(string_of(head.as_slice()));
            assert(texts_of(out@) =~= texts_of(before).push(head@));
        }
        if j >= v.len() {
            assert(texts_of(out@) =~= trimmed_items(v@, 0));
            return out;
        }
        assert(texts_of(before) + trimmed_items(v@, p as int) =~= texts_of(out@) + trimmed_items(
            v@,
            j + 1,
        ));
        p = j + 1;
    }
}

} // verus!
