//! Minimal s-expression reader for the ecosystem's `.my` data dialect:
//! atoms, strings and nested lists, with `;` line comments. No numbers as
//! values, no macros, no evaluation.

use vstd::prelude::*;
use crate::text::{is_ws, is_whitespace_char, chars_of, push_char, push_str, str_eq, trim_spec, lead_ws, trail_end, trim_chars};

verus! {

#[derive(Debug, PartialEq)]
pub enum Sexp {
    Atom(String),
    Str(String),
    List(Vec<Sexp>),
}

/// The mathematical value of an [`Sexp`].
#[verifier::ext_equal]
pub enum SexpV {
    Atom(Seq<char>),
    Str(Seq<char>),
    List(Seq<SexpV>),
}

impl Sexp {
    pub open spec fn deep(&self) -> SexpV
        decreases self, 0nat,
    {
        match self {
            Sexp::Atom(s) => SexpV::Atom(s@),
            Sexp::Str(s) => SexpV::Str(s@),
            Sexp::List(items) => SexpV::List(deeps_from(items@, 0)),
        }
    }
}

/// Values of `s[k..]`.
pub open spec fn deeps_from(s: Seq<Sexp>, k: nat) -> Seq<SexpV>
    decreases s, s.len() - k,
{
    if k < s.len() {
        seq![s[k as int].deep()] + deeps_from(s, k + 1)
    } else {
        Seq::empty()
    }
}

/// Values of a sequence of expressions.
pub open spec fn deeps(s: Seq<Sexp>) -> Seq<SexpV> {
    deeps_from(s, 0)
}

proof fn lemma_deeps_from(s: Seq<Sexp>, k: nat)
    requires
        k <= s.len(),
    ensures
        deeps_from(s, k).len() == s.len() - k,
        forall|i: int| 0 <= i < s.len() - k ==> #[trigger] deeps_from(s, k)[i] == s[k + i].deep(),
    decreases s.len() - k,
{
    if k < s.len() {
        lemma_deeps_from(s, k + 1);
    }
}

/// `deeps` maps each element to its value.
pub proof fn lemma_deeps(s: Seq<Sexp>)
    ensures
        deeps(s).len() == s.len(),
        forall|i: int| 0 <= i < s.len() ==> #[trigger] deeps(s)[i] == s[i].deep(),
{
    lemma_deeps_from(s, 0);
}

proof fn lemma_deeps_push(s: Seq<Sexp>, e: Sexp)
    ensures
        deeps(s.push(e)) == deeps(s).push(e.deep()),
{
    lemma_deeps(s);
    lemma_deeps(s.push(e));
    assert(deeps(s.push(e)) =~= deeps(s).push(e.deep()));
}

// ---------------------------------------------------------------------------
// Reading

/// Position after whitespace and `;`-to-end-of-line comments from `p`.
pub open spec fn skip_ws_spec(s: Seq<char>, p: int) -> int
    decreases s.len() - p, 0int,
{
    if 0 <= p < s.len() && is_ws(s[p]) {
        skip_ws_spec(s, p + 1)
    } else if 0 <= p < s.len() && s[p] == ';' {
        skip_comment_spec(s, p + 1)
    } else {
        p
    }
}

pub open spec fn skip_comment_spec(s: Seq<char>, p: int) -> int
    decreases s.len() - p, 1int,
{
    if 0 <= p < s.len() && s[p] != '\n' {
        skip_comment_spec(s, p + 1)
    } else {
        skip_ws_spec(s, p)
    }
}

/// Whether `c` ends an atom.
pub open spec fn atom_stop(c: char) -> bool {
    is_ws(c) || c == '(' || c == ')'
}

/// Position where the atom starting at `p` ends.
pub open spec fn atom_end_spec(s: Seq<char>, p: int) -> int
    decreases s.len() - p,
{
    if 0 <= p < s.len() && !atom_stop(s[p]) {
        atom_end_spec(s, p + 1)
    } else {
        p
    }
}

/// Reading the body of a string whose opening quote is just before `p`,
/// with `acc` read so far.
pub open spec fn string_spec(s: Seq<char>, p: int, acc: Seq<char>) -> Result<(SexpV, int), Seq<char>>
    decreases s.len() - p,
{
    if p < 0 || p >= s.len() {
        Err("unclosed string"@)
    } else if s[p] == '"' {
        Ok((SexpV::Str(acc), p + 1))
    } else if s[p] == '\\' && p + 1 < s.len() {
        string_spec(s, p + 2, acc.push(s[p + 1]))
    } else {
        string_spec(s, p + 1, acc.push(s[p]))
    }
}

/// Reading one expression from position `p`: its value and the position
/// just after it, or the reader's message.
pub open spec fn one_spec(s: Seq<char>, p: int) -> Result<(SexpV, int), Seq<char>>
    decreases s.len() - p, 0int,
{
    let q = skip_ws_spec(s, p);
    if q < 0 || q >= s.len() || q < p {
        Err("unexpected end of input"@)
    } else if s[q] == '(' {
        items_spec(s, q + 1, Seq::empty())
    } else if s[q] == '"' {
        string_spec(s, q + 1, Seq::empty())
    } else if s[q] == ')' {
        Err("unexpected `)`"@)
    } else {
        let e = atom_end_spec(s, q);
        Ok((SexpV::Atom(s.subrange(q, e)), e))
    }
}

/// Reading the rest of a list whose items `acc` have been read, from `p`.
pub open spec fn items_spec(s: Seq<char>, p: int, acc: Seq<SexpV>) -> Result<(SexpV, int), Seq<char>>
    decreases s.len() - p, 1int,
{
    let q = skip_ws_spec(s, p);
    if q < 0 || q >= s.len() || q < p {
        Err("unclosed list"@)
    } else if s[q] == ')' {
        Ok((SexpV::List(acc), q + 1))
    } else {
        match one_spec(s, q) {
            Err(m) => Err(m),
            Ok((v, r)) => if q < r <= s.len() {
                items_spec(s, r, acc.push(v))
            } else {
                Err("unclosed list"@)
            },
        }
    }
}

/// What [`parse`] gives for `input`: the first expression of the trimmed
/// text (anything after it is ignored), or the reader's message.
pub open spec fn parse_spec(input: Seq<char>) -> Result<SexpV, Seq<char>> {
    match one_spec(trim_spec(input), 0) {
        Ok((v, _)) => Ok(v),
        Err(m) => Err(m),
    }
}

fn skip_ws(chars: &Vec<char>, pos: &mut usize)
    requires
        *old(pos) <= chars@.len(),
    ensures
        *final(pos) == skip_ws_spec(chars@, *old(pos) as int),
        *old(pos) <= *final(pos) <= chars@.len(),
        *final(pos) < chars@.len() ==> !is_ws(chars@[*final(pos) as int]) && chars@[*final(pos) as int] != ';',
{
    let ghost s = chars@;
    while *pos < chars.len() && (is_whitespace_char(chars[*pos]) || chars[*pos] == ';')
        invariant
            *pos <= s.len(),
            s == chars@,
            *old(pos) <= *pos,
            skip_ws_spec(s, *pos as int) == skip_ws_spec(s, *old(pos) as int),
        decreases s.len() - *pos,
    {
        let ghost before = *pos;
        if chars[*pos] == ';' {
            *pos = *pos + 1;
            while *pos < chars.len() && chars[*pos] != '\n'
                invariant
                    before < *pos <= s.len(),
                    s == chars@,
                    *old(pos) <= *pos,
                    skip_comment_spec(s, *pos as int) == skip_ws_spec(s, *old(pos) as int),
                decreases s.len() - *pos,
            {
                *pos = *pos + 1;
            }
        } else {
            *pos = *pos + 1;
        }
    }
}

fn msg(text: &str) -> (m: String)
    ensures
        m@ == text@,
{
    String::from_str(text)
}

fn parse_string(chars: &Vec<char>, pos: &mut usize) -> (r: Result<Sexp, String>)
    requires
        *old(pos) <= chars@.len(),
    ensures
        match r {
            Ok(e) => string_spec(chars@, *old(pos) as int, Seq::empty()) == Ok::<(SexpV, int), Seq<char>>((e.deep(), *final(pos) as int))
                && *old(pos) < *final(pos) <= chars@.len(),
            Err(m) => string_spec(chars@, *old(pos) as int, Seq::empty()) == Err::<(SexpV, int), Seq<char>>(m@),
        },
{
    let ghost s = chars@;
    let ghost p0 = *pos as int;
    let mut out = String::new();
    while *pos < chars.len() && chars[*pos] != '"'
        invariant
            *pos <= s.len(),
            s == chars@,
            p0 <= *pos,
            string_spec(s, *pos as int, out@) == string_spec(s, p0, Seq::empty()),
        decreases s.len() - *pos,
    {
        if chars[*pos] == '\\' && *pos + 1 < chars.len() {
            *pos = *pos + 1;
        }
        push_char(&mut out, chars[*pos]);
        *pos = *pos + 1;
    }
    if *pos >= chars.len() {
        return Err(msg("unclosed string"));
    }
    *pos = *pos + 1;
    Ok(Sexp::Str(out))
}

fn parse_one(chars: &Vec<char>, pos: &mut usize) -> (r: Result<Sexp, String>)
    requires
        *old(pos) <= chars@.len(),
    ensures
        match r {
            Ok(e) => one_spec(chars@, *old(pos) as int) == Ok::<(SexpV, int), Seq<char>>((e.deep(), *final(pos) as int))
                && *old(pos) < *final(pos) <= chars@.len(),
            Err(m) => one_spec(chars@, *old(pos) as int) == Err::<(SexpV, int), Seq<char>>(m@),
        },
    decreases chars@.len() - *pos,
{
    let ghost s = chars@;
    let ghost p0 = *pos as int;
    skip_ws(chars, pos);
    if *pos >= chars.len() {
        return Err(msg("unexpected end of input"));
    }
    let c = chars[*pos];
    if c == '(' {
        *pos = *pos + 1;
        let mut items: Vec<Sexp> = Vec::new();
        assert(deeps(items@) =~= Seq::<SexpV>::empty()) by {
            lemma_deeps(items@);
        }
        loop
            invariant
                *pos <= s.len(),
                s == chars@,
                *old(pos) < *pos,
                items_spec(s, *pos as int, deeps(items@)) == one_spec(s, *old(pos) as int),
            decreases s.len() - *pos,
        {
            let ghost p = *pos as int;
            skip_ws(chars, pos);
            if *pos >= chars.len() {
                assert(items_spec(s, p, deeps(items@)) == Err::<(SexpV, int), Seq<char>>("unclosed list"@));
                return Err(msg("unclosed list"));
            }
            if chars[*pos] == ')' {
                *pos = *pos + 1;
                let r = Sexp::List(items);
                assert(r.deep() == SexpV::List(deeps(items@)));
                return Ok(r);
            }
            let ghost q = *pos as int;
            match parse_one(chars, pos) {
                Err(m) => {
                    return Err(m);
                },
                Ok(e) => {
                    proof {
                        lemma_deeps_push(items@, e);
                    }
                    items.push(e);
                },
            }
        }
    } else if c == '"' {
        *pos = *pos + 1;
        parse_string(chars, pos)
    } else if c == ')' {
        Err(msg("unexpected `)`"))
    } else {
        let start = *pos;
        while *pos < chars.len() && !(is_whitespace_char(chars[*pos]) || chars[*pos] == '(' || chars[*pos] == ')')
            invariant
                start <= *pos <= s.len(),
                s == chars@,
                atom_end_spec(s, *pos as int) == atom_end_spec(s, start as int),
            decreases s.len() - *pos,
        {
            *pos = *pos + 1;
        }
        let mut a = String::new();
        let mut k = start;
        while k < *pos
            invariant
                start <= k <= *pos <= s.len(),
                s == chars@,
                a@ == s.subrange(start as int, k as int),
            decreases *pos - k,
        {
            push_char(&mut a, chars[k]);
            k = k + 1;
            assert(a@ =~= s.subrange(start as int, k as int));
        }
        Ok(Sexp::Atom(a))
    }
}

/// Reads the first expression of `input`; text after it is ignored.
pub fn parse(input: &str) -> (r: Result<Sexp, String>)
    ensures
        match r {
            Ok(e) => parse_spec(input@) == Ok::<SexpV, Seq<char>>(e.deep()),
            Err(m) => parse_spec(input@) == Err::<SexpV, Seq<char>>(m@),
        },
{
    let raw = chars_of(input);
    let chars = trim_chars(&raw);
    let mut pos: usize = 0;
    parse_one(&chars, &mut pos)
}

// ---------------------------------------------------------------------------
// Writing

/// One character of string content as written between quotes.
pub open spec fn esc_char(c: char) -> Seq<char> {
    if c == '\\' {
        seq!['\\', '\\']
    } else if c == '"' {
        seq!['\\', '"']
    } else {
        seq![c]
    }
}

/// String content with `\` and `"` escaped by a backslash.
pub open spec fn escape(s: Seq<char>) -> Seq<char>
    decreases s.len(),
{
    if s.len() == 0 {
        Seq::empty()
    } else {
        esc_char(s[0]) + escape(s.drop_first())
    }
}

/// Canonical text of a value: atoms as they are, strings quoted and
/// escaped, lists in parentheses with single spaces between items.
pub open spec fn text_of(v: SexpV) -> Seq<char>
    decreases v, 0nat,
{
    match v {
        SexpV::Atom(a) => a,
        SexpV::Str(t) => seq!['"'] + escape(t) + seq!['"'],
        SexpV::List(items) => seq!['('] + join_from(items, 0) + seq![')'],
    }
}

/// Text of `items[k..]`, each item after the first preceded by a space.
pub open spec fn join_from(items: Seq<SexpV>, k: nat) -> Seq<char>
    decreases items, items.len() - k,
{
    if k < items.len() {
        (if k > 0 {
            seq![' ']
        } else {
            Seq::empty()
        }) + text_of(items[k as int]) + join_from(items, k + 1)
    } else {
        Seq::empty()
    }
}

proof fn lemma_escape_push(s: Seq<char>, c: char)
    ensures
        escape(s.push(c)) == escape(s) + esc_char(c),
    decreases s.len(),
{
    if s.len() == 0 {
        assert(s.push(c).drop_first() =~= Seq::<char>::empty());
        assert(escape(s.push(c).drop_first()) == Seq::<char>::empty());
        assert(escape(s.push(c)) =~= escape(s) + esc_char(c));
    } else {
        assert(s.push(c).drop_first() =~= s.drop_first().push(c));
        lemma_escape_push(s.drop_first(), c);
        assert(escape(s.push(c)) =~= escape(s) + esc_char(c));
    }
}

fn push_escaped(out: &mut String, s: &String)
    ensures
        final(out)@ == old(out)@ + escape(s@),
{
    let v = chars_of(s.as_str());
    let ghost start = out@;
    let mut i: usize = 0;
    while i < v.len()
        invariant
            i <= v@.len(),
            v@ == s@,
            out@ == start + escape(v@.take(i as int)),
        decreases v@.len() - i,
    {
        let c = v[i];
        proof {
            assert(v@.take(i + 1) =~= v@.take(i as int).push(c));
            lemma_escape_push(v@.take(i as int), c);
        }
        if c == '\\' {
            push_char(out, '\\');
            push_char(out, '\\');
        } else if c == '"' {
            push_char(out, '\\');
            push_char(out, '"');
        } else {
            push_char(out, c);
        }
        i = i + 1;
        assert(out@ =~= start + escape(v@.take(i as int)));
    }
    assert(v@.take(v@.len() as int) =~= v@);
}

impl Sexp {
    fn push_text(&self, out: &mut String)
        ensures
            final(out)@ == old(out)@ + text_of(self.deep()),
        decreases self,
    {
        match self {
            Sexp::Atom(a) => {
                push_str(out, a.as_str());
            },
            Sexp::Str(t) => {
                push_char(out, '"');
                push_escaped(out, t);
                push_char(out, '"');
                assert(final(out)@ =~= old(out)@ + text_of(self.deep()));
            },
            Sexp::List(items) => {
                let ghost d = deeps(items@);
                proof {
                    lemma_deeps(items@);
                }
                push_char(out, '(');
                let ghost start = out@;
                let mut k: usize = 0;
                while k < items.len()
                    invariant
                        k <= items@.len(),
                        d == deeps(items@),
                        d.len() == items@.len(),
                        forall|i: int| 0 <= i < items@.len() ==> #[trigger] d[i] == items@[i].deep(),
                        out@ + join_from(d, k as nat) == start + join_from(d, 0),
                        *self == Sexp::List(*items),
                    decreases items@.len() - k,
                {
                    let ghost before = out@;
                    if k > 0 {
                        push_char(out, ' ');
                    }
                    proof {
                        let ghost me = *self;
                        let ghost its = *items;
                        assert(me == Sexp::List(its));
                        assert(decreases_to!(me => me->List_0));
                        assert(decreases_to!(its => its@));
                        assert(decreases_to!(its@ => its@[k as int]));
                        assert(decreases_to!(me => its@[k as int]));
                    }
                    items[k].push_text(out);
                    proof {
                        assert(join_from(d, k as nat) == (if k > 0 { seq![' '] } else { Seq::<char>::empty() }) + text_of(d[k as int]) + join_from(d, (k + 1) as nat));
                        assert(out@ == before + (if k > 0 { seq![' '] } else { Seq::<char>::empty() }) + text_of(d[k as int]));
                        assert(out@ + join_from(d, (k + 1) as nat) =~= before + join_from(d, k as nat));
                    }
                    k = k + 1;
                }
                push_char(out, ')');
                assert(final(out)@ =~= old(out)@ + text_of(self.deep()));
            },
        }
    }

    /// The canonical text of this expression.
    pub fn to_text(&self) -> (r: String)
        ensures
            r@ == text_of(self.deep()),
    {
        let mut out = String::new();
        self.push_text(&mut out);
        assert(out@ =~= text_of(self.deep()));
        out
    }

    /// The first item of a list, when it is an atom.
    pub fn head(&self) -> (r: Option<&str>)
        ensures
            r matches Some(h) ==> head_spec(self.deep()) == Some(h@),
            r is None ==> head_spec(self.deep()) is None,
    {
        match self {
            Sexp::List(items) => {
                proof {
                    lemma_deeps(items@);
                }
                if items.len() > 0 {
                    match &items[0] {
                        Sexp::Atom(s) => Some(s.as_str()),
                        _ => None,
                    }
                } else {
                    None
                }
            },
            _ => None,
        }
    }

    /// Treats this expression as a list of `(key ...rest)` forms and gives
    /// the rest of the first one whose head atom is `key`.
    pub fn field(&self, key: &str) -> (r: Option<&[Sexp]>)
        ensures
            r matches Some(rest) ==> field_spec(self.deep(), key@) == Some(deeps(rest@)),
            r is None ==> field_spec(self.deep(), key@) is None,
    {
        match self {
            Sexp::List(items) => {
                proof {
                    lemma_deeps(items@);
                }
                let ghost d = deeps(items@);
                assert(self.deep() == SexpV::List(d));
                let mut i: usize = 0;
                while i < items.len()
                    invariant
                        i <= items@.len(),
                        d == deeps(items@),
                        d.len() == items@.len(),
                        forall|j: int| 0 <= j < items@.len() ==> #[trigger] d[j] == items@[j].deep(),
                        field_from(d, key@, 0) == field_from(d, key@, i as nat),
                        self.deep() == SexpV::List(d),
                    decreases items@.len() - i,
                {
                    if let Sexp::List(inner) = &items[i] {
                        proof {
                            lemma_deeps(inner@);
                        }
                        if inner.len() > 0 {
                            if let Sexp::Atom(h) = &inner[0] {
                                if str_eq(h.as_str(), key) {
                                    let rest = vstd::slice::slice_subrange(inner.as_slice(), 1, inner.len());
                                    proof {
                                        assert(d[i as int] == SexpV::List(deeps(inner@)));
                                        assert(deeps(inner@)[0] == SexpV::Atom(key@));
                                        assert(is_form(d[i as int], key@));
                                        assert(self.deep() == SexpV::List(d));
                                        assert(field_from(d, key@, i as nat) == Some(deeps(inner@).skip(1)));
                                        lemma_deeps(rest@);
                                        assert(deeps(rest@) =~= deeps(inner@).skip(1));
                                    }
                                    return Some(rest);
                                }
                            }
                        }
                    }
                    i = i + 1;
                }
                None
            },
            _ => None,
        }
    }

    /// The first item after `key` in the `(key ...)` form, when it is an
    /// atom or a string.
    pub fn field_atom(&self, key: &str) -> (r: Option<&str>)
        ensures
            r matches Some(a) ==> field_atom_spec(self.deep(), key@) == Some(a@),
            r is None ==> field_atom_spec(self.deep(), key@) is None,
    {
        match self.field(key) {
            None => None,
            Some(rest) => {
                proof {
                    lemma_deeps(rest@);
                }
                if rest.len() == 0 {
                    None
                } else {
                    match &rest[0] {
                        Sexp::Atom(s) => Some(s.as_str()),
                        Sexp::Str(s) => Some(s.as_str()),
                        _ => None,
                    }
                }
            },
        }
    }
}

/// The head atom of a list value.
pub open spec fn head_spec(v: SexpV) -> Option<Seq<char>> {
    match v {
        SexpV::List(items) => if items.len() > 0 {
            match items[0] {
                SexpV::Atom(a) => Some(a),
                _ => None,
            }
        } else {
            None
        },
        _ => None,
    }
}

/// Whether `v` is a `(key ...)` form.
pub open spec fn is_form(v: SexpV, key: Seq<char>) -> bool {
    match v {
        SexpV::List(inner) => inner.len() > 0 && inner[0] == SexpV::Atom(key),
        _ => false,
    }
}

/// The rest of the first `(key ...)` form among `items[k..]`.
pub open spec fn field_from(items: Seq<SexpV>, key: Seq<char>, k: nat) -> Option<Seq<SexpV>>
    decreases items.len() - k,
{
    if k < items.len() {
        if is_form(items[k as int], key) {
            match items[k as int] {
                SexpV::List(inner) => Some(inner.skip(1)),
                _ => None,
            }
        } else {
            field_from(items, key, k + 1)
        }
    } else {
        None
    }
}

pub open spec fn field_spec(v: SexpV, key: Seq<char>) -> Option<Seq<SexpV>> {
    match v {
        SexpV::List(items) => field_from(items, key, 0),
        _ => None,
    }
}

pub open spec fn field_atom_spec(v: SexpV, key: Seq<char>) -> Option<Seq<char>> {
    match field_spec(v, key) {
        Some(rest) => if rest.len() > 0 {
            match rest[0] {
                SexpV::Atom(a) => Some(a),
                SexpV::Str(a) => Some(a),
                _ => None,
            }
        } else {
            None
        },
        None => None,
    }
}

// ---------------------------------------------------------------------------
// Reading back what was written

/// An atom that reads back as itself: non-empty, no whitespace or
/// parentheses, and not starting like a string or a comment.
pub open spec fn plain_atom(a: Seq<char>) -> bool {
    &&& a.len() > 0
    &&& a[0] != '"'
    &&& a[0] != ';'
    &&& forall|i: int| 0 <= i < a.len() ==> !atom_stop(#[trigger] a[i])
}

/// Every atom inside `v` is plain.
pub open spec fn plain(v: SexpV) -> bool
    decreases v, 0nat,
{
    match v {
        SexpV::Atom(a) => plain_atom(a),
        SexpV::Str(_) => true,
        SexpV::List(items) => plain_from(items, 0),
    }
}

pub open spec fn plain_from(items: Seq<SexpV>, k: nat) -> bool
    decreases items, items.len() - k,
{
    if k < items.len() {
        plain(items[k as int]) && plain_from(items, k + 1)
    } else {
        true
    }
}

proof fn lemma_text_shape(v: SexpV)
    requires
        plain(v),
    ensures
        text_of(v).len() > 0,
        !is_ws(text_of(v)[0]),
        text_of(v)[0] != ';',
        !is_ws(text_of(v)[text_of(v).len() - 1]),
{
    match v {
        SexpV::Atom(a) => {
            assert(!atom_stop(a[0]));
            assert(!atom_stop(a[a.len() - 1]));
        },
        SexpV::Str(t) => {},
        SexpV::List(items) => {},
    }
}

proof fn lemma_atom_end(s: Seq<char>, q: int, e: int)
    requires
        0 <= q <= e <= s.len(),
        forall|j: int| q <= j < e ==> !atom_stop(#[trigger] s[j]),
        e == s.len() || atom_stop(s[e]),
    ensures
        atom_end_spec(s, q) == e,
    decreases e - q,
{
    if q < e {
        lemma_atom_end(s, q + 1, e);
    }
}

proof fn lemma_string(s: Seq<char>, q: int, acc: Seq<char>, u: Seq<char>)
    requires
        0 <= q,
        q + escape(u).len() < s.len(),
        s.subrange(q, q + escape(u).len()) == escape(u),
        s[q + escape(u).len()] == '"',
    ensures
        string_spec(s, q, acc) == Ok::<(SexpV, int), Seq<char>>((SexpV::Str(acc + u), q + escape(u).len() + 1)),
    decreases u.len(),
{
    if u.len() == 0 {
        assert(acc + u =~= acc);
    } else {
        let c = u[0];
        let rest = u.drop_first();
        let e = esc_char(c);
        assert(escape(u) == e + escape(rest));
        assert(s[q] == escape(u)[0]);
        assert(s.subrange(q + e.len(), q + e.len() + escape(rest).len()) =~= escape(rest)) by {
            assert forall|j: int| 0 <= j < escape(rest).len() implies s.subrange(q + e.len(), q + e.len() + escape(rest).len())[j] == escape(rest)[j] by {
                assert(s[q + e.len() + j] == escape(u)[e.len() + j]);
            }
        }
        assert(acc.push(c) + rest =~= acc + u);
        if c == '\\' || c == '"' {
            assert(s[q + 1] == escape(u)[1]);
            lemma_string(s, q + 2, acc.push(c), rest);
        } else {
            lemma_string(s, q + 1, acc.push(c), rest);
        }
    }
}

proof fn lemma_skip_here(s: Seq<char>, q: int)
    requires
        0 <= q,
        q >= s.len() || (!is_ws(s[q]) && s[q] != ';'),
    ensures
        skip_ws_spec(s, q) == q,
{
}

proof fn lemma_one(s: Seq<char>, p: int, v: SexpV)
    requires
        plain(v),
        0 <= p,
        p + text_of(v).len() <= s.len(),
        s.subrange(p, p + text_of(v).len()) == text_of(v),
        p + text_of(v).len() == s.len() || atom_stop(s[p + text_of(v).len()]),
    ensures
        one_spec(s, p) == Ok::<(SexpV, int), Seq<char>>((v, p + text_of(v).len())),
    decreases v, 0nat,
{
    let t = text_of(v);
    lemma_text_shape(v);
    assert(s[p] == t[0]);
    lemma_skip_here(s, p);
    match v {
        SexpV::Atom(a) => {
            assert forall|j: int| p <= j < p + a.len() implies !atom_stop(#[trigger] s[j]) by {
                assert(s[j] == a[j - p]);
            }
            lemma_atom_end(s, p, p + a.len());
            assert(s.subrange(p, p + a.len()) == a);
        },
        SexpV::Str(u) => {
            let e = escape(u);
            assert(t == seq!['"'] + e + seq!['"']);
            assert(s.subrange(p + 1, p + 1 + e.len()) =~= e) by {
                assert forall|j: int| 0 <= j < e.len() implies s.subrange(p + 1, p + 1 + e.len())[j] == e[j] by {
                    assert(s[p + 1 + j] == t[1 + j]);
                }
            }
            assert(s[p + 1 + e.len()] == t[(1 + e.len()) as int]);
            lemma_string(s, p + 1, Seq::empty(), u);
            assert(Seq::<char>::empty() + u =~= u);
        },
        SexpV::List(items) => {
            let j = join_from(items, 0);
            assert(t == seq!['('] + j + seq![')']);
            assert(s.subrange(p + 1, p + 1 + j.len() + 1) =~= j + seq![')']) by {
                assert forall|i: int| 0 <= i < j.len() + 1 implies s.subrange(p + 1, p + 1 + j.len() + 1)[i] == (j + seq![')'])[i] by {
                    assert(s[p + 1 + i] == t[1 + i]);
                }
            }
            assert(items.take(0) =~= Seq::<SexpV>::empty());
            lemma_items(s, p + 1, items, 0, Seq::empty());
        },
    }
}

proof fn lemma_items(s: Seq<char>, q: int, items: Seq<SexpV>, k: nat, acc: Seq<SexpV>)
    requires
        plain_from(items, k),
        k <= items.len(),
        acc == items.take(k as int),
        0 <= q,
        q + join_from(items, k).len() + 1 <= s.len(),
        s.subrange(q, q + join_from(items, k).len() + 1) == join_from(items, k) + seq![')'],
    ensures
        items_spec(s, q, acc) == Ok::<(SexpV, int), Seq<char>>((SexpV::List(items), q + join_from(items, k).len() + 1)),
    decreases items, items.len() - k,
{
    let j = join_from(items, k);
    let w = j + seq![')'];
    if k < items.len() {
        let item = items[k as int];
        let sep: Seq<char> = if k > 0 { seq![' '] } else { Seq::empty() };
        let t = text_of(item);
        let jn = join_from(items, k + 1);
        assert(j == sep + t + jn);
        lemma_text_shape(item);
        let q2 = q + sep.len();
        // skipping to the item
        if k > 0 {
            assert(s[q] == w[0]);
            assert(s[q + 1] == w[1]);
            lemma_skip_here(s, q + 1);
        } else {
            assert(s[q] == w[0]);
            lemma_skip_here(s, q);
        }
        assert(skip_ws_spec(s, q) == q2);
        assert(s[q2] == w[sep.len() as int]);
        assert(s.subrange(q2, q2 + t.len()) =~= t) by {
            assert forall|i: int| 0 <= i < t.len() implies s.subrange(q2, q2 + t.len())[i] == t[i] by {
                assert(s[q2 + i] == w[sep.len() + i]);
            }
        }
        let r = q2 + t.len();
        let wn = jn + seq![')'];
        assert(s.subrange(r, r + jn.len() + 1) =~= wn) by {
            assert forall|i: int| 0 <= i < jn.len() + 1 implies s.subrange(r, r + jn.len() + 1)[i] == wn[i] by {
                assert(s[r + i] == w[sep.len() + t.len() + i]);
            }
        }
        // what follows the item ends an atom
        if k + 1 < items.len() {
            assert(jn[0] == ' ');
        }
        assert(s[r] == wn[0]);
        assert(atom_stop(s[r]));
        lemma_one(s, q2, item);
        assert(items.take((k + 1) as int) =~= acc.push(item));
        lemma_items(s, r, items, k + 1, acc.push(item));
    } else {
        assert(j == Seq::<char>::empty());
        assert(s[q] == w[0]);
        lemma_skip_here(s, q);
        assert(acc =~= items);
    }
}

/// Writing a plain expression and reading the text back gives the same
/// expression: the reader and the writer agree on the format.
pub proof fn law_text_round_trip(v: SexpV)
    requires
        plain(v),
    ensures
        parse_spec(text_of(v)) == Ok::<SexpV, Seq<char>>(v),
{
    let t = text_of(v);
    lemma_text_shape(v);
    assert(lead_ws(t, 0) == 0);
    assert(trail_end(t, t.len() as int) == t.len());
    assert(trim_spec(t) =~= t);
    assert(t.subrange(0, t.len() as int) =~= t);
    lemma_one(t, 0, v);
}

// ---------------------------------------------------------------------------
// Reading back laid-out text

/// An expression written with any whitespace between list items: each
/// list item has the whitespace written before it, and the list the
/// whitespace written before its closing parenthesis.
pub enum Layout {
    Atom(Seq<char>),
    Str(Seq<char>),
    List(Seq<Seq<char>>, Seq<Layout>, Seq<char>),
}

/// The text a layout writes.
pub open spec fn lay_text(l: Layout) -> Seq<char>
    decreases l, 0nat,
{
    match l {
        Layout::Atom(a) => a,
        Layout::Str(t) => seq!['"'] + escape(t) + seq!['"'],
        Layout::List(ws, items, close) => seq!['('] + lay_join(ws, items, 0) + close + seq![')'],
    }
}

/// The text of `items[k..]`, each after its whitespace.
pub open spec fn lay_join(ws: Seq<Seq<char>>, items: Seq<Layout>, k: nat) -> Seq<char>
    decreases items, items.len() - k,
{
    if k < items.len() {
        (if k < ws.len() {
            ws[k as int]
        } else {
            Seq::empty()
        }) + lay_text(items[k as int]) + lay_join(ws, items, k + 1)
    } else {
        Seq::empty()
    }
}

/// The value a layout writes.
pub open spec fn lay_value(l: Layout) -> SexpV
    decreases l, 0nat,
{
    match l {
        Layout::Atom(a) => SexpV::Atom(a),
        Layout::Str(t) => SexpV::Str(t),
        Layout::List(_, items, _) => SexpV::List(lay_values(items, 0)),
    }
}

pub open spec fn lay_values(items: Seq<Layout>, k: nat) -> Seq<SexpV>
    decreases items, items.len() - k,
{
    if k < items.len() {
        seq![lay_value(items[k as int])] + lay_values(items, k + 1)
    } else {
        Seq::empty()
    }
}

/// Only whitespace.
pub open spec fn ws_only(w: Seq<char>) -> bool {
    forall|i: int| 0 <= i < w.len() ==> is_ws(#[trigger] w[i])
}

/// A layout that reads back as its value: plain atoms, whitespace only
/// between items, and some whitespace before every item but the first.
pub open spec fn lay_ok(l: Layout) -> bool
    decreases l, 0nat,
{
    match l {
        Layout::Atom(a) => plain_atom(a),
        Layout::Str(_) => true,
        Layout::List(ws, items, close) => {
            &&& ws.len() == items.len()
            &&& ws_only(close)
            &&& lay_ok_from(ws, items, 0)
        },
    }
}

pub open spec fn lay_ok_from(ws: Seq<Seq<char>>, items: Seq<Layout>, k: nat) -> bool
    decreases items, items.len() - k,
{
    if k < items.len() {
        &&& k < ws.len()
        &&& ws_only(ws[k as int])
        &&& (k > 0 ==> ws[k as int].len() > 0)
        &&& lay_ok(items[k as int])
        &&& lay_ok_from(ws, items, k + 1)
    } else {
        true
    }
}

proof fn lemma_lay_shape(l: Layout)
    requires
        lay_ok(l),
    ensures
        lay_text(l).len() > 0,
        !is_ws(lay_text(l)[0]),
        lay_text(l)[0] != ';',
        lay_text(l)[0] != ')',
{
    match l {
        Layout::Atom(a) => {
            assert(!atom_stop(a[0]));
        },
        _ => {},
    }
}

proof fn lemma_skip_run(s: Seq<char>, q: int, w: Seq<char>)
    requires
        0 <= q,
        q + w.len() <= s.len(),
        s.subrange(q, q + w.len()) == w,
        ws_only(w),
        q + w.len() == s.len() || (!is_ws(s[q + w.len()]) && s[q + w.len()] != ';'),
    ensures
        skip_ws_spec(s, q) == q + w.len(),
    decreases w.len(),
{
    if w.len() > 0 {
        assert(s[q] == w[0]);
        assert(is_ws(w[0]));
        let w2 = w.drop_first();
        assert(s.subrange(q + 1, q + 1 + w2.len()) =~= w2) by {
            assert forall|i: int| 0 <= i < w2.len() implies s.subrange(q + 1, q + 1 + w2.len())[i]
                == w2[i] by {
                assert(s[q + 1 + i] == w[1 + i]);
            }
        }
        assert forall|i: int| 0 <= i < w2.len() implies is_ws(#[trigger] w2[i]) by {
            assert(w2[i] == w[i + 1]);
        }
        lemma_skip_run(s, q + 1, w2);
    }
}

proof fn lemma_lay_one(s: Seq<char>, p: int, l: Layout)
    requires
        lay_ok(l),
        0 <= p,
        p + lay_text(l).len() <= s.len(),
        s.subrange(p, p + lay_text(l).len()) == lay_text(l),
        p + lay_text(l).len() == s.len() || atom_stop(s[p + lay_text(l).len()]),
    ensures
        one_spec(s, p) == Ok::<(SexpV, int), Seq<char>>((lay_value(l), p + lay_text(l).len())),
    decreases l, 0nat,
{
    let t = lay_text(l);
    lemma_lay_shape(l);
    assert(s[p] == t[0]);
    lemma_skip_here(s, p);
    match l {
        Layout::Atom(a) => {
            assert forall|j: int| p <= j < p + a.len() implies !atom_stop(#[trigger] s[j]) by {
                assert(s[j] == a[j - p]);
            }
            lemma_atom_end(s, p, p + a.len());
            assert(s.subrange(p, p + a.len()) == a);
        },
        Layout::Str(u) => {
            let e = escape(u);
            assert(t == seq!['"'] + e + seq!['"']);
            assert(s.subrange(p + 1, p + 1 + e.len()) =~= e) by {
                assert forall|j: int| 0 <= j < e.len() implies s.subrange(p + 1, p + 1 + e.len())[j]
                    == e[j] by {
                    assert(s[p + 1 + j] == t[1 + j]);
                }
            }
            assert(s[p + 1 + e.len()] == t[(1 + e.len()) as int]);
            lemma_string(s, p + 1, Seq::empty(), u);
            assert(Seq::<char>::empty() + u =~= u);
        },
        Layout::List(ws, items, close) => {
            let j = lay_join(ws, items, 0);
            let w = j + close + seq![')'];
            assert(t == seq!['('] + j + close + seq![')']);
            assert(s.subrange(p + 1, p + 1 + w.len()) =~= w) by {
                assert forall|i: int| 0 <= i < w.len() implies s.subrange(p + 1, p + 1 + w.len())[i]
                    == w[i] by {
                    assert(s[p + 1 + i] == t[1 + i]);
                }
            }
            assert(lay_values(items, 0).take(0) =~= Seq::<SexpV>::empty());
            lemma_lay_items(s, p + 1, ws, items, close, 0, Seq::empty());
        },
    }
}

pub proof fn lemma_lay_values(items: Seq<Layout>, k: nat)
    requires
        k <= items.len(),
    ensures
        lay_values(items, k).len() == items.len() - k,
        forall|i: int| 0 <= i < items.len() - k ==> #[trigger] lay_values(items, k)[i] == lay_value(
            items[k + i],
        ),
    decreases items.len() - k,
{
    if k < items.len() {
        lemma_lay_values(items, k + 1);
    }
}

proof fn lemma_lay_items(
    s: Seq<char>,
    q: int,
    ws: Seq<Seq<char>>,
    items: Seq<Layout>,
    close: Seq<char>,
    k: nat,
    acc: Seq<SexpV>,
)
    requires
        lay_ok_from(ws, items, k),
        ws.len() == items.len(),
        ws_only(close),
        k <= items.len(),
        acc == lay_values(items, 0).take(k as int),
        0 <= q,
        q + lay_join(ws, items, k).len() + close.len() + 1 <= s.len(),
        s.subrange(q, q + lay_join(ws, items, k).len() + close.len() + 1) == lay_join(ws, items, k)
            + close + seq![')'],
    ensures
        items_spec(s, q, acc) == Ok::<(SexpV, int), Seq<char>>(
            (
                SexpV::List(lay_values(items, 0)),
                q + lay_join(ws, items, k).len() + close.len() + 1,
            ),
        ),
    decreases items, items.len() - k,
{
    let j = lay_join(ws, items, k);
    let w = j + close + seq![')'];
    lemma_lay_values(items, 0);
    if k < items.len() {
        let item = items[k as int];
        let sep = ws[k as int];
        let t = lay_text(item);
        let jn = lay_join(ws, items, k + 1);
        assert(j == sep + t + jn);
        lemma_lay_shape(item);
        let q2 = q + sep.len();
        assert(s.subrange(q, q + sep.len()) =~= sep) by {
            assert forall|i: int| 0 <= i < sep.len() implies s.subrange(q, q + sep.len())[i]
                == sep[i] by {
                assert(s[q + i] == w[i]);
            }
        }
        assert(s[q2] == w[sep.len() as int]);
        lemma_skip_run(s, q, sep);
        assert(skip_ws_spec(s, q) == q2);
        assert(s.subrange(q2, q2 + t.len()) =~= t) by {
            assert forall|i: int| 0 <= i < t.len() implies s.subrange(q2, q2 + t.len())[i] == t[i] by {
                assert(s[q2 + i] == w[sep.len() + i]);
            }
        }
        let r = q2 + t.len();
        let wn = jn + close + seq![')'];
        assert(s.subrange(r, r + wn.len()) =~= wn) by {
            assert forall|i: int| 0 <= i < wn.len() implies s.subrange(r, r + wn.len())[i] == wn[i] by {
                assert(s[r + i] == w[sep.len() + t.len() + i]);
            }
        }
        // what follows the item ends an atom
        if k + 1 < items.len() {
            let sep2 = ws[(k + 1) as int];
            assert(lay_ok_from(ws, items, (k + 1) as nat));
            assert(sep2.len() > 0 && ws_only(sep2));
            assert(jn == sep2 + lay_text(items[(k + 1) as int]) + lay_join(ws, items, (k + 2) as nat));
            assert(jn[0] == sep2[0]);
            assert(is_ws(sep2[0]));
        } else {
            assert(jn == Seq::<char>::empty());
            if close.len() > 0 {
                assert(wn[0] == close[0]);
                assert(is_ws(close[0]));
            }
        }
        assert(s[r] == wn[0]);
        assert(atom_stop(s[r]));
        lemma_lay_one(s, q2, item);
        assert(lay_values(items, 0).take((k + 1) as int) =~= acc.push(lay_value(item)));
        lemma_lay_items(s, r, ws, items, close, k + 1, acc.push(lay_value(item)));
    } else {
        assert(j == Seq::<char>::empty());
        assert(s.subrange(q, q + close.len()) =~= close) by {
            assert forall|i: int| 0 <= i < close.len() implies s.subrange(q, q + close.len())[i]
                == close[i] by {
                assert(s[q + i] == w[i]);
            }
        }
        assert(s[q + close.len()] == w[close.len() as int]);
        lemma_skip_run(s, q, close);
        assert(acc =~= lay_values(items, 0));
    }
}

/// Laid-out text of a list reads back as the list's value, whatever
/// whitespace separates its items.
pub proof fn lemma_lay_round_trip(l: Layout)
    requires
        lay_ok(l),
        l is List,
    ensures
        parse_spec(lay_text(l)) == Ok::<SexpV, Seq<char>>(lay_value(l)),
{
    let t = lay_text(l);
    lemma_lay_shape(l);
    assert(t[t.len() - 1] == ')');
    assert(lead_ws(t, 0) == 0);
    assert(trail_end(t, t.len() as int) == t.len());
    assert(trim_spec(t) =~= t);
    assert(t.subrange(0, t.len() as int) =~= t);
    lemma_lay_one(t, 0, l);
}

} // verus!
