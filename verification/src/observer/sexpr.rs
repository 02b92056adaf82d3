//! Minimal S-expression reader for ecosystem data files: symbols, strings,
//! integers, lists, dotted pairs, `t`/`()`-truthiness and `;` comments. No
//! evaluation and no macro expansion.

use vstd::prelude::*;
use crate::text::{is_ws, is_whitespace_char, chars_of, string_of, chars_eq, str_eq, parse_i64, parse_i64_spec};

verus! {

#[derive(Debug, PartialEq)]
pub enum Expr {
    Symbol(String),
    String(String),
    Integer(i64),
    List(Vec<Expr>),
    DottedList(Vec<Expr>, Box<Expr>),
}

#[derive(Debug, PartialEq)]
pub enum ParseError {
    UnexpectedEof,
    UnexpectedToken(String),
}

/// The mathematical value of an [`Expr`].
pub enum ExprV {
    Symbol(Seq<char>),
    Str(Seq<char>),
    Integer(int),
    List(Seq<ExprV>),
    DottedList(Seq<ExprV>, Box<ExprV>),
}

/// The mathematical value of a [`ParseError`].
pub enum ParseErrorV {
    UnexpectedEof,
    UnexpectedToken(Seq<char>),
}

impl Expr {
    pub open spec fn deep(&self) -> ExprV
        decreases self, 0nat,
    {
        match self {
            Expr::Symbol(s) => ExprV::Symbol(s@),
            Expr::String(s) => ExprV::Str(s@),
            Expr::Integer(n) => ExprV::Integer(*n as int),
            Expr::List(items) => ExprV::List(deeps_from(items@, 0)),
            Expr::DottedList(items, last) => ExprV::DottedList(deeps_from(items@, 0), Box::new(last.deep())),
        }
    }
}

impl ParseError {
    pub open spec fn deep(&self) -> ParseErrorV {
        match self {
            ParseError::UnexpectedEof => ParseErrorV::UnexpectedEof,
            ParseError::UnexpectedToken(t) => ParseErrorV::UnexpectedToken(t@),
        }
    }
}

/// Values of `s[k..]`.
pub open spec fn deeps_from(s: Seq<Expr>, k: nat) -> Seq<ExprV>
    decreases s, s.len() - k,
{
    if k < s.len() {
        seq![s[k as int].deep()] + deeps_from(s, k + 1)
    } else {
        Seq::empty()
    }
}

pub open spec fn deeps(s: Seq<Expr>) -> Seq<ExprV> {
    deeps_from(s, 0)
}

proof fn lemma_deeps_from(s: Seq<Expr>, k: nat)
    requires
        k <= s.len(),
    ensures
        deeps_from(s, k).len() == s.len() - k,
        forall|i: int| 0 <= i < s.len() - k ==> #[trigger] deeps_from(s, k)[i] == s[k + i].deep(),
    decreases s.len() - k,
{
    if k < s.len() {
        lemma_deeps_from(s, k + 1);
    }
}

/// `deeps` maps each element to its value.
pub proof fn lemma_deeps(s: Seq<Expr>)
    ensures
        deeps(s).len() == s.len(),
        forall|i: int| 0 <= i < s.len() ==> #[trigger] deeps(s)[i] == s[i].deep(),
{
    lemma_deeps_from(s, 0);
}

proof fn lemma_deeps_push(s: Seq<Expr>, e: Expr)
    ensures
        deeps(s.push(e)) == deeps(s).push(e.deep()),
{
    lemma_deeps(s);
    lemma_deeps(s.push(e));
    assert(deeps(s.push(e)) =~= deeps(s).push(e.deep()));
}

// ---------------------------------------------------------------------------
// Tokens

/// State of the tokenizer: tokens so far, the token being built, and
/// whether it is inside a string or a comment.
pub struct TokState {
    pub tokens: Seq<Seq<char>>,
    pub current: Seq<char>,
    pub in_string: bool,
    pub in_comment: bool,
}

/// `tokens` with `current` closed, when it is not empty.
pub open spec fn flush(tokens: Seq<Seq<char>>, current: Seq<char>) -> Seq<Seq<char>> {
    if current.len() > 0 {
        tokens.push(current)
    } else {
        tokens
    }
}

/// One character through the tokenizer.
pub open spec fn tok_step(st: TokState, c: char) -> TokState {
    if st.in_comment {
        TokState { in_comment: c != '\n', ..st }
    } else if st.in_string {
        if c == '"' {
            TokState { tokens: st.tokens.push(st.current.push(c)), current: Seq::empty(), in_string: false, ..st }
        } else {
            TokState { current: st.current.push(c), ..st }
        }
    } else if c == ';' {
        TokState { in_comment: true, ..st }
    } else if c == '(' || c == ')' {
        TokState { tokens: flush(st.tokens, st.current).push(seq![c]), current: Seq::empty(), ..st }
    } else if c == '"' {
        TokState { current: st.current.push(c), in_string: true, ..st }
    } else if is_ws(c) {
        TokState { tokens: flush(st.tokens, st.current), current: Seq::empty(), ..st }
    } else {
        TokState { current: st.current.push(c), ..st }
    }
}

/// The tokenizer after the first `n` characters of `s`.
pub open spec fn tok_after(s: Seq<char>, n: nat) -> TokState
    decreases n,
{
    if n == 0 || n > s.len() {
        TokState { tokens: Seq::empty(), current: Seq::empty(), in_string: false, in_comment: false }
    } else {
        tok_step(tok_after(s, (n - 1) as nat), s[n - 1])
    }
}

/// The tokens of `s`: parentheses alone, strings from quote to quote,
/// everything else split at whitespace; comments dropped.
pub open spec fn tokens_spec(s: Seq<char>) -> Seq<Seq<char>> {
    let st = tok_after(s, s.len());
    flush(st.tokens, st.current)
}

fn tokenize(input: &str) -> (r: Vec<Vec<char>>)
    ensures
        r@.len() == tokens_spec(input@).len(),
        forall|i: int| 0 <= i < r@.len() ==> #[trigger] r@[i]@ == tokens_spec(input@)[i],
{
    let s = chars_of(input);
    let mut tokens: Vec<Vec<char>> = Vec::new();
    let mut current: Vec<char> = Vec::new();
    let mut in_string = false;
    let mut in_comment = false;
    let mut i: usize = 0;
    while i < s.len()
        invariant
            i <= s@.len(),
            s@ == input@,
            ({
                let st = tok_after(s@, i as nat);
                &&& st.tokens.len() == tokens@.len()
                &&& forall|j: int| 0 <= j < tokens@.len() ==> #[trigger] tokens@[j]@ == st.tokens[j]
                &&& st.current == current@
                &&& st.in_string == in_string
                &&& st.in_comment == in_comment
            }),
        decreases s@.len() - i,
    {
        let c = s[i];
        let ghost st = tok_after(s@, i as nat);
        proof {
            assert(tok_after(s@, (i + 1) as nat) == tok_step(st, c));
        }
        if in_comment {
            if c == '\n' {
                in_comment = false;
            }
        } else if in_string {
            current.push(c);
            if c == '"' {
                let done = current;
                current = Vec::new();
                tokens.push(done);
                in_string = false;
            }
        } else if c == ';' {
            in_comment = true;
        } else if c == '(' || c == ')' {
            if current.len() > 0 {
                let done = current;
                current = Vec::new();
                tokens.push(done);
            }
            let mut p: Vec<char> = Vec::new();
            p.push(c);
            tokens.push(p);
        } else if c == '"' {
            in_string = true;
            current.push(c);
        } else if is_whitespace_char(c) {
            if current.len() > 0 {
                let done = current;
                current = Vec::new();
                tokens.push(done);
            }
        } else {
            current.push(c);
        }
        i = i + 1;
        proof {
            let nst = tok_after(s@, i as nat);
            assert(nst.current =~= current@);
            assert forall|j: int| 0 <= j < tokens@.len() implies #[trigger] tokens@[j]@ == nst.tokens[j] by {
                if j < st.tokens.len() {
                } else {
                    assert(tokens@[j]@ =~= nst.tokens[j]);
                }
            }
        }
    }
    if current.len() > 0 {
        tokens.push(current);
    }
    proof {
        assert forall|j: int| 0 <= j < tokens@.len() implies #[trigger] tokens@[j]@ == tokens_spec(input@)[j] by {
        }
    }
    tokens
}

// ---------------------------------------------------------------------------
// Expressions from tokens

/// The value a non-parenthesis token stands for: a string between quotes,
/// an integer when it reads as one, else a symbol.
pub open spec fn atom_spec(tok: Seq<char>) -> ExprV {
    if tok.len() >= 2 && tok[0] == '"' && tok[tok.len() - 1] == '"' {
        ExprV::Str(tok.subrange(1, tok.len() - 1))
    } else {
        match parse_i64_spec(tok) {
            Some(n) => ExprV::Integer(n),
            None => ExprV::Symbol(tok),
        }
    }
}

/// Reading one expression from token `i`: its value and the next token,
/// or the error.
pub open spec fn expr_spec(t: Seq<Seq<char>>, i: int) -> Result<(ExprV, int), ParseErrorV>
    decreases t.len() - i, 0int,
{
    if i < 0 || i >= t.len() {
        Err(ParseErrorV::UnexpectedEof)
    } else if t[i] == seq!['('] {
        list_spec(t, i + 1, Seq::empty())
    } else if t[i] == seq![')'] {
        Err(ParseErrorV::UnexpectedToken(seq![')']))
    } else {
        Ok((atom_spec(t[i]), i + 1))
    }
}

/// Reading the rest of a list whose items `acc` have been read, from token
/// `i`.
pub open spec fn list_spec(t: Seq<Seq<char>>, i: int, acc: Seq<ExprV>) -> Result<(ExprV, int), ParseErrorV>
    decreases t.len() - i, 1int,
{
    if i < 0 || i >= t.len() {
        Err(ParseErrorV::UnexpectedEof)
    } else if t[i] == seq![')'] {
        Ok((ExprV::List(acc), i + 1))
    } else if t[i] == seq!['.'] {
        match expr_spec(t, i + 1) {
            Err(e) => Err(e),
            Ok((d, j)) => if j < 0 || j >= t.len() {
                Err(ParseErrorV::UnexpectedEof)
            } else if t[j] != seq![')'] {
                Err(ParseErrorV::UnexpectedToken(t[j]))
            } else {
                Ok((ExprV::DottedList(acc, Box::new(d)), j + 1))
            },
        }
    } else {
        match expr_spec(t, i) {
            Err(e) => Err(e),
            Ok((e, j)) => if i < j <= t.len() {
                list_spec(t, j, acc.push(e))
            } else {
                Err(ParseErrorV::UnexpectedEof)
            },
        }
    }
}

/// Reading every expression from token `i` on, after `acc`.
pub open spec fn all_spec(t: Seq<Seq<char>>, i: int, acc: Seq<ExprV>) -> Result<Seq<ExprV>, ParseErrorV>
    decreases t.len() - i,
{
    if i < 0 || i >= t.len() {
        Ok(acc)
    } else {
        match expr_spec(t, i) {
            Err(e) => Err(e),
            Ok((e, j)) => if i < j <= t.len() {
                all_spec(t, j, acc.push(e))
            } else {
                Err(ParseErrorV::UnexpectedEof)
            },
        }
    }
}

/// What [`parse`] gives for `input`.
pub open spec fn parse_spec(input: Seq<char>) -> Result<Seq<ExprV>, ParseErrorV> {
    all_spec(tokens_spec(input), 0, Seq::empty())
}

fn is_single(tok: &Vec<char>, c: char) -> (r: bool)
    ensures
        r == (tok@ == seq![c]),
{
    if tok.len() == 1 && tok[0] == c {
        assert(tok@ =~= seq![c]);
        true
    } else {
        false
    }
}

fn atom(tok: &Vec<char>) -> (e: Expr)
    ensures
        e.deep() == atom_spec(tok@),
{
    let n = tok.len();
    if n >= 2 && tok[0] == '"' && tok[n - 1] == '"' {
        let inner = vstd::slice::slice_subrange(tok.as_slice(), 1, n - 1);
        let s = string_of(inner);
        Expr::String(s)
    } else {
        match parse_i64(tok.as_slice()) {
            Some(v) => Expr::Integer(v),
            None => Expr::Symbol(string_of(tok.as_slice())),
        }
    }
}

fn parse_expr(t: &Vec<Vec<char>>, ghost_t: Ghost<Seq<Seq<char>>>, pos: &mut usize) -> (r: Result<Expr, ParseError>)
    requires
        ghost_t@.len() == t@.len(),
        forall|j: int| 0 <= j < t@.len() ==> #[trigger] t@[j]@ == ghost_t@[j],
        *old(pos) <= t@.len(),
    ensures
        match r {
            Ok(e) => expr_spec(ghost_t@, *old(pos) as int) == Ok::<(ExprV, int), ParseErrorV>((e.deep(), *final(pos) as int))
                && *old(pos) < *final(pos) <= t@.len(),
            Err(e) => expr_spec(ghost_t@, *old(pos) as int) == Err::<(ExprV, int), ParseErrorV>(e.deep()),
        },
    decreases t@.len() - *pos, 0int,
{
    let ghost g = ghost_t@;
    if *pos >= t.len() {
        return Err(ParseError::UnexpectedEof);
    }
    let i = *pos;
    *pos = *pos + 1;
    assert(t@[i as int]@ == g[i as int]);
    if is_single(&t[i], '(') {
        parse_list(t, ghost_t, pos)
    } else if is_single(&t[i], ')') {
        Err(ParseError::UnexpectedToken(string_of(t[i].as_slice())))
    } else {
        Ok(atom(&t[i]))
    }
}

fn parse_list(t: &Vec<Vec<char>>, ghost_t: Ghost<Seq<Seq<char>>>, pos: &mut usize) -> (r: Result<Expr, ParseError>)
    requires
        ghost_t@.len() == t@.len(),
        forall|j: int| 0 <= j < t@.len() ==> #[trigger] t@[j]@ == ghost_t@[j],
        0 < *old(pos) <= t@.len(),
    ensures
        match r {
            Ok(e) => list_spec(ghost_t@, *old(pos) as int, Seq::empty()) == Ok::<(ExprV, int), ParseErrorV>((e.deep(), *final(pos) as int))
                && *old(pos) < *final(pos) <= t@.len(),
            Err(e) => list_spec(ghost_t@, *old(pos) as int, Seq::empty()) == Err::<(ExprV, int), ParseErrorV>(e.deep()),
        },
    decreases t@.len() - *pos, 1int,
{
    let ghost g = ghost_t@;
    let mut list: Vec<Expr> = Vec::new();
    assert(deeps(list@) =~= Seq::<ExprV>::empty()) by {
        lemma_deeps(list@);
    }
    while *pos < t.len()
        invariant
            *pos <= t@.len(),
            g == ghost_t@,
            g.len() == t@.len(),
            forall|j: int| 0 <= j < t@.len() ==> #[trigger] t@[j]@ == g[j],
            *old(pos) <= *pos,
            list_spec(g, *pos as int, deeps(list@)) == list_spec(g, *old(pos) as int, Seq::empty()),
        decreases t@.len() - *pos,
    {
        let i = *pos;
        assert(t@[i as int]@ == g[i as int]);
        if is_single(&t[i], ')') {
            *pos = *pos + 1;
            let e = Expr::List(list);
            assert(e.deep() == ExprV::List(deeps(list@)));
            return Ok(e);
        } else if is_single(&t[i], '.') {
            *pos = *pos + 1;
            let dotted = match parse_expr(t, ghost_t, pos) {
                Ok(d) => d,
                Err(e) => {
                    return Err(e);
                },
            };
            if *pos >= t.len() {
                return Err(ParseError::UnexpectedEof);
            }
            let j = *pos;
            assert(t@[j as int]@ == g[j as int]);
            *pos = *pos + 1;
            if !is_single(&t[j], ')') {
                return Err(ParseError::UnexpectedToken(string_of(t[j].as_slice())));
            }
            let e = Expr::DottedList(list, Box::new(dotted));
            assert(e.deep() == ExprV::DottedList(deeps(list@), Box::new(dotted.deep())));
            return Ok(e);
        }
        match parse_expr(t, ghost_t, pos) {
            Ok(e) => {
                proof {
                    lemma_deeps_push(list@, e);
                }
                list.push(e);
            },
            Err(e) => {
                return Err(e);
            },
        }
    }
    Err(ParseError::UnexpectedEof)
}

/// Reads every expression of `input`.
pub fn parse(input: &str) -> (r: Result<Vec<Expr>, ParseError>)
    ensures
        match r {
            Ok(v) => parse_spec(input@) == Ok::<Seq<ExprV>, ParseErrorV>(deeps(v@)),
            Err(e) => parse_spec(input@) == Err::<Seq<ExprV>, ParseErrorV>(e.deep()),
        },
{
    let tokens = tokenize(input);
    let ghost g = tokens_spec(input@);
    let mut pos: usize = 0;
    let mut exprs: Vec<Expr> = Vec::new();
    assert(deeps(exprs@) =~= Seq::<ExprV>::empty()) by {
        lemma_deeps(exprs@);
    }
    while pos < tokens.len()
        invariant
            pos <= tokens@.len(),
            g.len() == tokens@.len(),
            g == tokens_spec(input@),
            forall|j: int| 0 <= j < tokens@.len() ==> #[trigger] tokens@[j]@ == g[j],
            all_spec(g, pos as int, deeps(exprs@)) == all_spec(g, 0, Seq::empty()),
        decreases tokens@.len() - pos,
    {
        match parse_expr(&tokens, Ghost(g), &mut pos) {
            Ok(e) => {
                proof {
                    lemma_deeps_push(exprs@, e);
                }
                exprs.push(e);
            },
            Err(e) => {
                return Err(e);
            },
        }
    }
    Ok(exprs)
}

// ---------------------------------------------------------------------------
// Reading values

/// Every value is truthy except the empty list.
pub open spec fn truthy(v: ExprV) -> bool {
    !(v matches ExprV::List(items) && items.len() == 0)
}

/// The rest of a list whose first item is the symbol `tag`.
pub open spec fn tagged_spec(v: ExprV, tag: Seq<char>) -> Option<Seq<ExprV>> {
    match v {
        ExprV::List(items) => if items.len() > 0 && items[0] == ExprV::Symbol(tag) {
            Some(items.skip(1))
        } else {
            None
        },
        _ => None,
    }
}

/// The first `(key ...)` entry among `items[k..]`, by its rest.
pub open spec fn assoc_from(items: Seq<ExprV>, key: Seq<char>, k: nat) -> Option<Seq<ExprV>>
    decreases items.len() - k,
{
    if k < items.len() {
        match tagged_spec(items[k as int], key) {
            Some(rest) => Some(rest),
            None => assoc_from(items, key, k + 1),
        }
    } else {
        None
    }
}

pub open spec fn assoc_spec(v: ExprV, key: Seq<char>) -> Option<Seq<ExprV>> {
    match v {
        ExprV::List(items) => assoc_from(items, key, 0),
        _ => None,
    }
}

impl Expr {
    /// `t`/`()`-truthiness: everything but the empty list is true.
    pub fn is_truthy(&self) -> (b: bool)
        ensures
            b == truthy(self.deep()),
    {
        match self {
            Expr::List(items) => {
                proof {
                    lemma_deeps(items@);
                }
                items.len() != 0
            },
            _ => true,
        }
    }

    pub fn as_symbol(&self) -> (r: Option<&str>)
        ensures
            r matches Some(s) ==> self.deep() == ExprV::Symbol(s@),
            r is None ==> !(self.deep() is Symbol),
    {
        match self {
            Expr::Symbol(s) => Some(s.as_str()),
            _ => None,
        }
    }

    pub fn as_string(&self) -> (r: Option<&str>)
        ensures
            r matches Some(s) ==> self.deep() == ExprV::Str(s@),
            r is None ==> !(self.deep() is Str),
    {
        match self {
            Expr::String(s) => Some(s.as_str()),
            _ => None,
        }
    }

    pub fn as_list(&self) -> (r: Option<&[Expr]>)
        ensures
            r matches Some(items) ==> self.deep() == ExprV::List(deeps(items@)),
            r is None ==> !(self.deep() is List),
    {
        match self {
            Expr::List(items) => Some(items.as_slice()),
            _ => None,
        }
    }

    /// For a list whose first item is the symbol `tag`, the items after it.
    pub fn tagged_list(&self, tag: &str) -> (r: Option<&[Expr]>)
        ensures
            r matches Some(rest) ==> tagged_spec(self.deep(), tag@) == Some(deeps(rest@)),
            r is None ==> tagged_spec(self.deep(), tag@) is None,
    {
        match self {
            Expr::List(items) => {
                proof {
                    lemma_deeps(items@);
                }
                if items.len() == 0 {
                    return None;
                }
                match &items[0] {
                    Expr::Symbol(h) => {
                        if str_eq(h.as_str(), tag) {
                            let rest = vstd::slice::slice_subrange(items.as_slice(), 1, items.len());
                            proof {
                                lemma_deeps(rest@);
                                assert(deeps(rest@) =~= deeps(items@).skip(1));
                            }
                            Some(rest)
                        } else {
                            None
                        }
                    },
                    _ => None,
                }
            },
            _ => None,
        }
    }

    /// Alist lookup: the items after the key of the first `(key ...)`
    /// element of this list.
    pub fn assoc(&self, key: &str) -> (r: Option<&[Expr]>)
        ensures
            r matches Some(rest) ==> assoc_spec(self.deep(), key@) == Some(deeps(rest@)),
            r is None ==> assoc_spec(self.deep(), key@) is None,
    {
        match self {
            Expr::List(items) => {
                proof {
                    lemma_deeps(items@);
                }
                let ghost d = deeps(items@);
                assert(self.deep() == ExprV::List(d));
                let mut i: usize = 0;
                while i < items.len()
                    invariant
                        i <= items@.len(),
                        d == deeps(items@),
                        d.len() == items@.len(),
                        forall|j: int| 0 <= j < items@.len() ==> #[trigger] d[j] == items@[j].deep(),
                        assoc_from(d, key@, 0) == assoc_from(d, key@, i as nat),
                        self.deep() == ExprV::List(d),
                    decreases items@.len() - i,
                {
                    match items[i].tagged_list(key) {
                        Some(rest) => {
                            return Some(rest);
                        },
                        None => {},
                    }
                    i = i + 1;
                }
                None
            },
            _ => None,
        }
    }
}

} // verus!
