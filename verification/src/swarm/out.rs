//! One small output tree rendered two ways, JSON and YAML, so the two
//! renderings can never disagree about content, only about syntax.

use vstd::prelude::*;
use crate::scheduler::out::{json_escape, json_escape_spec};
use crate::scheduler::sexpr::{deeps, lemma_deeps, Sexp, SexpV};
use crate::text::{chars_of, push_char, push_str};

verus! {

pub enum Out {
    S(String),
    /// A number, already rendered (integers keep looking like integers).
    N(String),
    B(bool),
    L(Vec<Out>),
    M(Vec<(String, Out)>),
}

/// The value of an output tree.
#[verifier::ext_equal]
pub enum OutV {
    S(Seq<char>),
    N(Seq<char>),
    B(bool),
    L(Seq<OutV>),
    M(Seq<(Seq<char>, OutV)>),
}

impl Out {
    pub open spec fn deep(&self) -> OutV
        decreases self, 0nat,
    {
        match self {
            Out::S(s) => OutV::S(s@),
            Out::N(n) => OutV::N(n@),
            Out::B(b) => OutV::B(*b),
            Out::L(items) => OutV::L(outs_from(items@, 0)),
            Out::M(pairs) => OutV::M(pairs_from(pairs@, 0)),
        }
    }
}

/// Values of `s[k..]`.
pub open spec fn outs_from(s: Seq<Out>, k: nat) -> Seq<OutV>
    decreases s, s.len() - k,
{
    if k < s.len() {
        seq![s[k as int].deep()] + outs_from(s, k + 1)
    } else {
        Seq::empty()
    }
}

/// Values of the pairs `s[k..]`.
pub open spec fn pairs_from(s: Seq<(String, Out)>, k: nat) -> Seq<(Seq<char>, OutV)>
    decreases s, s.len() - k,
{
    if k < s.len() {
        seq![(s[k as int].0@, s[k as int].1.deep())] + pairs_from(s, k + 1)
    } else {
        Seq::empty()
    }
}

proof fn lemma_outs_from(s: Seq<Out>, k: nat)
    requires
        k <= s.len(),
    ensures
        outs_from(s, k).len() == s.len() - k,
        forall|i: int| 0 <= i < s.len() - k ==> #[trigger] outs_from(s, k)[i] == s[k + i].deep(),
    decreases s.len() - k,
{
    if k < s.len() {
        lemma_outs_from(s, k + 1);
    }
}

/// `outs_from` maps each tree to its value.
pub proof fn lemma_outs_from_all(s: Seq<Out>)
    ensures
        outs_from(s, 0).len() == s.len(),
        forall|i: int| 0 <= i < s.len() ==> #[trigger] outs_from(s, 0)[i] == s[i].deep(),
{
    lemma_outs_from(s, 0);
}

/// `pairs_from` maps each pair to its value.
pub proof fn lemma_pairs_from_all(s: Seq<(String, Out)>)
    ensures
        pairs_from(s, 0).len() == s.len(),
        forall|i: int| 0 <= i < s.len() ==> #[trigger] pairs_from(s, 0)[i] == (s[i].0@, s[i].1.deep()),
{
    lemma_pairs_from(s, 0);
}

proof fn lemma_pairs_from(s: Seq<(String, Out)>, k: nat)
    requires
        k <= s.len(),
    ensures
        pairs_from(s, k).len() == s.len() - k,
        forall|i: int| 0 <= i < s.len() - k ==> #[trigger] pairs_from(s, k)[i] == (s[k + i].0@, s[k + i].1.deep()),
    decreases s.len() - k,
{
    if k < s.len() {
        lemma_pairs_from(s, k + 1);
    }
}

// ---------------------------------------------------------------------------
// JSON

/// The JSON text of a value: strings quoted and escaped, numbers as
/// rendered, lists and maps with `,` between entries and no spaces.
pub open spec fn json_of(v: OutV) -> Seq<char>
    decreases v, 0nat,
{
    match v {
        OutV::S(s) => seq!['"'] + json_escape_spec(s) + seq!['"'],
        OutV::N(n) => n,
        OutV::B(b) => if b {
            "true"@
        } else {
            "false"@
        },
        OutV::L(items) => seq!['['] + json_items(items, 0) + seq![']'],
        OutV::M(pairs) => seq!['{'] + json_pairs(pairs, 0) + seq!['}'],
    }
}

pub open spec fn json_items(items: Seq<OutV>, k: nat) -> Seq<char>
    decreases items, items.len() - k,
{
    if k < items.len() {
        (if k > 0 {
            seq![',']
        } else {
            Seq::empty()
        }) + json_of(items[k as int]) + json_items(items, k + 1)
    } else {
        Seq::empty()
    }
}

pub open spec fn json_pairs(pairs: Seq<(Seq<char>, OutV)>, k: nat) -> Seq<char>
    decreases pairs, pairs.len() - k,
{
    if k < pairs.len() {
        (if k > 0 {
            seq![',']
        } else {
            Seq::empty()
        }) + seq!['"'] + json_escape_spec(pairs[k as int].0) + seq!['"', ':'] + json_of(
            pairs[k as int].1,
        ) + json_pairs(pairs, k + 1)
    } else {
        Seq::empty()
    }
}

impl Out {
    /// A map from `(key, value)` pairs, keys copied.
    pub fn m(pairs: Vec<(&str, Out)>) -> (r: Out)
        ensures
            r.deep() == OutV::M(pairs@.map_values(|p: (&str, Out)| (p.0@, p.1.deep()))),
    {
        let ghost want = pairs@.map_values(|p: (&str, Out)| (p.0@, p.1.deep()));
        let n = pairs.len();
        let mut rest = pairs;
        let ghost all = rest@;
        let mut out: Vec<(String, Out)> = Vec::new();
        let mut i: usize = 0;
        while i < n
            invariant
                n == all.len(),
                i <= n,
                want == all.map_values(|p: (&str, Out)| (p.0@, p.1.deep())),
                rest@ =~= all.skip(i as int),
                out@.len() == i,
                forall|j: int| 0 <= j < i ==> (#[trigger] out@[j]).0@ == all[j].0@ && out@[j].1 == all[j].1,
            decreases n - i,
        {
            let ghost rest0 = rest@;
            assert(rest0[0] == all[i as int]);
            let (k, v) = rest.remove(0);
            assert(rest@ =~= all.skip(i + 1)) by {
                assert forall|j: int| 0 <= j < rest@.len() implies rest@[j] == all.skip(i + 1)[j] by {
                    assert(rest@[j] == rest0[j + 1]);
                }
            }
            out.push((String::from_str(k), v));
            i = i + 1;
        }
        proof {
            lemma_pairs_from(out@, 0);
            assert(pairs_from(out@, 0) =~= want);
        }
        Out::M(out)
    }

    fn push_json(&self, out: &mut String)
        ensures
            final(out)@ == old(out)@ + json_of(self.deep()),
        decreases self,
    {
        match self {
            Out::S(s) => {
                push_char(out, '"');
                let e = json_escape(s.as_str());
                push_str(out, e.as_str());
                push_char(out, '"');
                assert(final(out)@ =~= old(out)@ + json_of(self.deep()));
            },
            Out::N(n) => {
                push_str(out, n.as_str());
            },
            Out::B(b) => {
                if *b {
                    push_str(out, "true");
                } else {
                    push_str(out, "false");
                }
            },
            Out::L(items) => {
                let ghost d = outs_from(items@, 0);
                proof {
                    lemma_outs_from(items@, 0);
                }
                push_char(out, '[');
                let ghost start = out@;
                let mut k: usize = 0;
                while k < items.len()
                    invariant
                        k <= items@.len(),
                        d == outs_from(items@, 0),
                        d.len() == items@.len(),
                        forall|i: int| 0 <= i < items@.len() ==> #[trigger] d[i] == items@[i].deep(),
                        out@ + json_items(d, k as nat) == start + json_items(d, 0),
                        *self == Out::L(*items),
                    decreases items@.len() - k,
                {
                    let ghost before = out@;
                    if k > 0 {
                        push_char(out, ',');
                    }
                    proof {
                        let ghost me = *self;
                        let ghost its = *items;
                        assert(decreases_to!(me => me->L_0));
                        assert(decreases_to!(its => its@));
                        assert(decreases_to!(its@ => its@[k as int]));
                        assert(decreases_to!(me => its@[k as int]));
                    }
                    items[k].push_json(out);
                    proof {
                        assert(out@ + json_items(d, (k + 1) as nat) =~= before + json_items(d, k as nat));
                    }
                    k = k + 1;
                }
                push_char(out, ']');
                assert(final(out)@ =~= old(out)@ + json_of(self.deep()));
            },
            Out::M(pairs) => {
                let ghost d = pairs_from(pairs@, 0);
                proof {
                    lemma_pairs_from(pairs@, 0);
                }
                push_char(out, '{');
                let ghost start = out@;
                let mut k: usize = 0;
                while k < pairs.len()
                    invariant
                        k <= pairs@.len(),
                        d == pairs_from(pairs@, 0),
                        d.len() == pairs@.len(),
                        forall|i: int| 0 <= i < pairs@.len() ==> #[trigger] d[i] == (pairs@[i].0@, pairs@[i].1.deep()),
                        out@ + json_pairs(d, k as nat) == start + json_pairs(d, 0),
                        *self == Out::M(*pairs),
                    decreases pairs@.len() - k,
                {
                    let ghost before = out@;
                    if k > 0 {
                        push_char(out, ',');
                    }
                    push_char(out, '"');
                    let e = json_escape(pairs[k].0.as_str());
                    push_str(out, e.as_str());
                    push_char(out, '"');
                    push_char(out, ':');
                    proof {
                        let ghost me = *self;
                        let ghost ps = *pairs;
                        assert(decreases_to!(me => me->M_0));
                        assert(decreases_to!(ps => ps@));
                        assert(decreases_to!(ps@ => ps@[k as int]));
                        assert(decreases_to!(ps@[k as int] => ps@[k as int].1));
                        assert(decreases_to!(me => ps@[k as int].1));
                    }
                    pairs[k].1.push_json(out);
                    proof {
                        assert(out@ + json_pairs(d, (k + 1) as nat) =~= before + json_pairs(d, k as nat));
                    }
                    k = k + 1;
                }
                push_char(out, '}');
                assert(final(out)@ =~= old(out)@ + json_of(self.deep()));
            },
        }
    }
}

/// The JSON text of an output tree.
pub fn to_json(v: &Out) -> (r: String)
    ensures
        r@ == json_of(v.deep()),
{
    let mut out = String::new();
    v.push_json(&mut out);
    assert(out@ =~= json_of(v.deep()));
    out
}


// ---------------------------------------------------------------------------
// YAML

/// Whether `sub` occurs in `s`.
pub open spec fn has_infix(s: Seq<char>, sub: Seq<char>) -> bool {
    exists|i: int| 0 <= i && i + sub.len() <= s.len() && #[trigger] s.subrange(i, i + sub.len()) == sub
}

/// Whether a scalar must be quoted to read back as the same string.
pub open spec fn yaml_needs_quotes_spec(s: Seq<char>) -> bool {
    ||| s.len() == 0
    ||| s[0] == ' '
    ||| s.last() == ' '
    ||| s[0] == '#'
    ||| s[0] == '-'
    ||| s[0] == '&'
    ||| s[0] == '*'
    ||| s[0] == '?'
    ||| s[0] == '!'
    ||| s[0] == '%'
    ||| s[0] == '@'
    ||| has_infix(s, ": "@)
    ||| s.last() == ':'
    ||| has_infix(s, " #"@)
    ||| s.contains('\n')
    ||| s == "true"@
    ||| s == "false"@
    ||| s == "null"@
    ||| s == "~"@
    ||| s == "yes"@
    ||| s == "no"@
    ||| s == "on"@
    ||| s == "off"@
}

pub open spec fn yaml_esc_char(c: char) -> Seq<char> {
    if c == '\\' {
        seq!['\\', '\\']
    } else if c == '"' {
        seq!['\\', '"']
    } else if c == '\n' {
        seq!['\\', 'n']
    } else {
        seq![c]
    }
}

pub open spec fn yaml_escape(s: Seq<char>) -> Seq<char>
    decreases s.len(),
{
    if s.len() == 0 {
        Seq::empty()
    } else {
        yaml_escape(s.drop_last()) + yaml_esc_char(s.last())
    }
}

/// A scalar as written: quoted, with `\`, `"` and newlines escaped, when
/// it needs quotes; as it is otherwise.
pub open spec fn yaml_scalar_spec(s: Seq<char>) -> Seq<char> {
    if yaml_needs_quotes_spec(s) {
        seq!['"'] + yaml_escape(s) + seq!['"']
    } else {
        s
    }
}

/// Two spaces per indentation level.
pub open spec fn pad(indent: nat) -> Seq<char> {
    Seq::new(2 * indent, |_i: int| ' ')
}

pub open spec fn is_scalar(v: OutV) -> bool {
    v is S || v is N || v is B
}

/// The text of a scalar value.
pub open spec fn scalar_text(v: OutV) -> Seq<char> {
    match v {
        OutV::S(s) => yaml_scalar_spec(s),
        OutV::N(n) => n,
        OutV::B(b) => if b {
            "true"@
        } else {
            "false"@
        },
        _ => Seq::empty(),
    }
}

/// The YAML text of `v` at `indent`; `inline` when it follows a key or a
/// dash on the same line.
pub open spec fn yaml_of(v: OutV, indent: nat, inline: bool) -> Seq<char>
    decreases v, 0nat, 0nat,
{
    match v {
        OutV::L(items) => if items.len() == 0 {
            pad(indent) + "[]\n"@
        } else {
            yaml_list(items, 0, indent)
        },
        OutV::M(pairs) => yaml_map(pairs, 0, indent),
        _ => if inline {
            scalar_text(v) + seq!['\n']
        } else {
            pad(indent) + scalar_text(v) + seq!['\n']
        },
    }
}

/// The entries `items[k..]` of a non-empty list, each on a `- ` line.
pub open spec fn yaml_list(items: Seq<OutV>, k: nat, indent: nat) -> Seq<char>
    decreases items, items.len() - k, 0nat,
{
    if k < items.len() {
        let item = items[k as int];
        let here = match item {
            OutV::M(pairs) => pad(indent) + "- "@ + yaml_item_pairs(pairs, 0, indent),
            OutV::L(_) => pad(indent) + "-\n"@ + yaml_of(item, indent + 1, false),
            _ => pad(indent) + "- "@ + yaml_of(item, 0, true),
        };
        here + yaml_list(items, k + 1, indent)
    } else {
        Seq::empty()
    }
}

/// The pairs `pairs[k..]` of a map that is a list entry: the first right
/// after the dash, the others indented under it.
pub open spec fn yaml_item_pairs(pairs: Seq<(Seq<char>, OutV)>, k: nat, indent: nat) -> Seq<char>
    decreases pairs, pairs.len() - k, 0nat,
{
    if k < pairs.len() {
        let (key, val) = pairs[k as int];
        (if k == 0 {
            key + ": "@
        } else {
            pad(indent) + "  "@ + key + ": "@
        }) + yaml_of(val, indent + 1, true) + yaml_item_pairs(pairs, k + 1, indent)
    } else {
        Seq::empty()
    }
}

/// The pairs `pairs[k..]` of a map, one key per line; a nested map or
/// non-empty list goes on the following lines, one level deeper.
pub open spec fn yaml_map(pairs: Seq<(Seq<char>, OutV)>, k: nat, indent: nat) -> Seq<char>
    decreases pairs, pairs.len() - k, 0nat,
{
    if k < pairs.len() {
        let (key, val) = pairs[k as int];
        let here = match val {
            OutV::L(l) => if l.len() == 0 {
                pad(indent) + key + ": []\n"@
            } else {
                pad(indent) + key + ":\n"@ + yaml_of(val, indent + 1, false)
            },
            OutV::M(_) => pad(indent) + key + ":\n"@ + yaml_of(val, indent + 1, false),
            _ => pad(indent) + key + ": "@ + yaml_of(val, 0, true),
        };
        here + yaml_map(pairs, k + 1, indent)
    } else {
        Seq::empty()
    }
}


/// Whether `a` immediately followed by `b` occurs in `v`.
fn has_pair(v: &[char], a: char, b: char) -> (r: bool)
    ensures
        r == has_infix(v@, seq![a, b]),
{
    let mut i: usize = 0;
    while i < v.len() && i + 1 < v.len()
        invariant
            i <= v@.len(),
            forall|j: int| 0 <= j < i && j + 2 <= v@.len() ==> !(#[trigger] v@[j] == a && v@[j + 1] == b),
        decreases v@.len() - i,
    {
        if v[i] == a && v[i + 1] == b {
            assert(v@.subrange(i as int, i + 2) =~= seq![a, b]);
            return true;
        }
        i = i + 1;
    }
    proof {
        let pair = seq![a, b];
        assert forall|j: int| 0 <= j && j + pair.len() <= v@.len() implies #[trigger] v@.subrange(j, j + pair.len()) != pair by {
            assert(j < i);
            if v@.subrange(j, j + 2) == pair {
                assert(v@.subrange(j, j + 2)[0] == v@[j]);
                assert(v@.subrange(j, j + 2)[1] == v@[j + 1]);
            }
        }
    }
    false
}

fn has_char(v: &[char], c: char) -> (r: bool)
    ensures
        r == v@.contains(c),
{
    let mut i: usize = 0;
    while i < v.len()
        invariant
            i <= v@.len(),
            forall|j: int| 0 <= j < i ==> v@[j] != c,
        decreases v@.len() - i,
    {
        if v[i] == c {
            assert(v@[i as int] == c);
            return true;
        }
        i = i + 1;
    }
    false
}

/// Whether a scalar must be quoted in YAML to read back as the same string.
pub fn yaml_needs_quotes(s: &str) -> (r: bool)
    ensures
        r == yaml_needs_quotes_spec(s@),
{
    let v = chars_of(s);
    let n = v.len();
    if n == 0 {
        return true;
    }
    let first = v[0];
    let last = v[n - 1];
    proof {
        reveal_strlit(": ");
        reveal_strlit(" #");
        assert(": "@ =~= seq![':', ' ']);
        assert(" #"@ =~= seq![' ', '#']);
    }
    first == ' ' || last == ' ' || first == '#' || first == '-' || first == '&' || first == '*'
        || first == '?' || first == '!' || first == '%' || first == '@' || has_pair(
        v.as_slice(),
        ':',
        ' ',
    ) || last == ':' || has_pair(v.as_slice(), ' ', '#') || has_char(v.as_slice(), '\n')
        || crate::text::str_eq(s, "true") || crate::text::str_eq(s, "false") || crate::text::str_eq(
        s,
        "null",
    ) || crate::text::str_eq(s, "~") || crate::text::str_eq(s, "yes") || crate::text::str_eq(
        s,
        "no",
    ) || crate::text::str_eq(s, "on") || crate::text::str_eq(s, "off")
}

/// A scalar as YAML writes it: quoted and escaped when it needs quotes.
pub fn yaml_scalar(s: &str) -> (r: String)
    ensures
        r@ == yaml_scalar_spec(s@),
{
    if !yaml_needs_quotes(s) {
        return String::from_str(s);
    }
    let v = chars_of(s);
    let mut out = String::new();
    push_char(&mut out, '"');
    for i in 0..v.len()
        invariant
            v@ == s@,
            out@ == seq!['"'] + yaml_escape(s@.take(i as int)),
    {
        let c = v[i];
        if c == '\\' {
            push_char(&mut out, '\\');
            push_char(&mut out, '\\');
        } else if c == '"' {
            push_char(&mut out, '\\');
            push_char(&mut out, '"');
        } else if c == '\n' {
            push_char(&mut out, '\\');
            push_char(&mut out, 'n');
        } else {
            push_char(&mut out, c);
        }
        assert(s@.take(i + 1).drop_last() =~= s@.take(i as int));
        assert(out@ =~= seq!['"'] + yaml_escape(s@.take(i + 1)));
    }
    push_char(&mut out, '"');
    assert(s@.take(s@.len() as int) =~= s@);
    assert(out@ =~= yaml_scalar_spec(s@));
    out
}

fn push_scalar(v: &Out, out: &mut String)
    requires
        is_scalar(v.deep()),
    ensures
        final(out)@ == old(out)@ + scalar_text(v.deep()),
{
    match v {
        Out::S(s) => {
            let t = yaml_scalar(s.as_str());
            push_str(out, t.as_str());
        },
        Out::N(n) => {
            push_str(out, n.as_str());
        },
        Out::B(b) => {
            if *b {
                push_str(out, "true");
            } else {
                push_str(out, "false");
            }
        },
        _ => {},
    }
}

fn deeper(pad_text: &String) -> (r: String)
    ensures
        r@ == pad_text@ + "  "@,
{
    let mut r = pad_text.clone();
    push_str(&mut r, "  ");
    r
}

proof fn lemma_pad_next(n: nat)
    ensures
        pad(n) + "  "@ == pad(n + 1),
{
    reveal_strlit("  ");
    assert(pad(n) + "  "@ =~= pad(n + 1));
}

/// Appends the YAML text of `v` at the indentation `pad_text` stands for.
fn render_yaml(v: &Out, pad_text: &String, Ghost(indent): Ghost<nat>, out: &mut String, inline_key: bool)
    requires
        pad_text@ == pad(indent),
    ensures
        final(out)@ == old(out)@ + yaml_of(v.deep(), indent, inline_key),
    decreases v,
{
    proof {
        lemma_pad_next(indent);
    }
    match v {
        Out::L(items) => {
            if items.len() == 0 {
                push_str(out, pad_text.as_str());
                push_str(out, "[]\n");
                assert(final(out)@ =~= old(out)@ + yaml_of(v.deep(), indent, inline_key));
                return;
            }
            let ghost d = outs_from(items@, 0);
            proof {
                lemma_outs_from(items@, 0);
            }
            let ghost start = out@;
            let next = deeper(pad_text);
            let empty = String::new();
            let mut k: usize = 0;
            while k < items.len()
                invariant
                    k <= items@.len(),
                    d == outs_from(items@, 0),
                    d.len() == items@.len(),
                    forall|i: int| 0 <= i < items@.len() ==> #[trigger] d[i] == items@[i].deep(),
                    out@ + yaml_list(d, k as nat, indent) == start + yaml_list(d, 0, indent),
                    *v == Out::L(*items),
                    pad_text@ == pad(indent),
                    next@ == pad(indent + 1),
                    empty@ == pad(0),
                decreases items@.len() - k,
            {
                let ghost before = out@;
                proof {
                    let ghost me = *v;
                    let ghost its = *items;
                    assert(decreases_to!(me => me->L_0));
                    assert(decreases_to!(its => its@));
                    assert(decreases_to!(its@ => its@[k as int]));
                    assert(decreases_to!(me => its@[k as int]));
                }
                let item = &items[k];
                match item {
                    Out::M(pairs) => {
                        push_str(out, pad_text.as_str());
                        push_str(out, "- ");
                        let ghost pd = pairs_from(pairs@, 0);
                        proof {
                            lemma_pairs_from(pairs@, 0);
                        }
                        let ghost mid = out@;
                        let mut i: usize = 0;
                        while i < pairs.len()
                            invariant
                                i <= pairs@.len(),
                                pd == pairs_from(pairs@, 0),
                                pd.len() == pairs@.len(),
                                forall|j: int| 0 <= j < pairs@.len() ==> #[trigger] pd[j] == (pairs@[j].0@, pairs@[j].1.deep()),
                                out@ + yaml_item_pairs(pd, i as nat, indent) == mid + yaml_item_pairs(pd, 0, indent),
                                *item == Out::M(*pairs),
                                decreases_to!(*v => *item),
                                pad_text@ == pad(indent),
                                next@ == pad(indent + 1),
                            decreases pairs@.len() - i,
                        {
                            let ghost b2 = out@;
                            if i > 0 {
                                push_str(out, pad_text.as_str());
                                push_str(out, "  ");
                            }
                            push_str(out, pairs[i].0.as_str());
                            push_str(out, ": ");
                            proof {
                                let ghost it = *item;
                                let ghost ps = *pairs;
                                assert(decreases_to!(it => it->M_0));
                                assert(decreases_to!(ps => ps@));
                                assert(decreases_to!(ps@ => ps@[i as int]));
                                assert(decreases_to!(ps@[i as int] => ps@[i as int].1));
                                assert(decreases_to!(*v => ps@[i as int].1));
                            }
                            render_yaml(&pairs[i].1, &next, Ghost(indent + 1), out, true);
                            proof {
                                assert(out@ + yaml_item_pairs(pd, (i + 1) as nat, indent) =~= b2 + yaml_item_pairs(pd, i as nat, indent));
                            }
                            i = i + 1;
                        }
                        assert(d[k as int] == OutV::M(pd));
                    },
                    Out::L(_) => {
                        push_str(out, pad_text.as_str());
                        push_str(out, "-\n");
                        render_yaml(item, &next, Ghost(indent + 1), out, false);
                    },
                    _ => {
                        push_str(out, pad_text.as_str());
                        push_str(out, "- ");
                        render_yaml(item, &empty, Ghost(0), out, true);
                    },
                }
                proof {
                    assert(out@ + yaml_list(d, (k + 1) as nat, indent) =~= before + yaml_list(d, k as nat, indent));
                }
                k = k + 1;
            }
            assert(final(out)@ =~= old(out)@ + yaml_of(v.deep(), indent, inline_key));
        },
        Out::M(pairs) => {
            let ghost pd = pairs_from(pairs@, 0);
            proof {
                lemma_pairs_from(pairs@, 0);
            }
            let ghost start = out@;
            let next = deeper(pad_text);
            let empty = String::new();
            let mut i: usize = 0;
            while i < pairs.len()
                invariant
                    i <= pairs@.len(),
                    pd == pairs_from(pairs@, 0),
                    pd.len() == pairs@.len(),
                    forall|j: int| 0 <= j < pairs@.len() ==> #[trigger] pd[j] == (pairs@[j].0@, pairs@[j].1.deep()),
                    out@ + yaml_map(pd, i as nat, indent) == start + yaml_map(pd, 0, indent),
                    *v == Out::M(*pairs),
                    pad_text@ == pad(indent),
                    next@ == pad(indent + 1),
                    empty@ == pad(0),
                decreases pairs@.len() - i,
            {
                let ghost b2 = out@;
                proof {
                    let ghost me = *v;
                    let ghost ps = *pairs;
                    assert(decreases_to!(me => me->M_0));
                    assert(decreases_to!(ps => ps@));
                    assert(decreases_to!(ps@ => ps@[i as int]));
                    assert(decreases_to!(ps@[i as int] => ps@[i as int].1));
                    assert(decreases_to!(me => ps@[i as int].1));
                }
                let val = &pairs[i].1;
                push_str(out, pad_text.as_str());
                push_str(out, pairs[i].0.as_str());
                match val {
                    Out::L(l) => {
                        if l.len() == 0 {
                            push_str(out, ": []\n");
                            proof {
                                lemma_outs_from(l@, 0);
                            }
                        } else {
                            push_str(out, ":\n");
                            proof {
                                lemma_outs_from(l@, 0);
                            }
                            render_yaml(val, &next, Ghost(indent + 1), out, false);
                        }
                    },
                    Out::M(_) => {
                        push_str(out, ":\n");
                        render_yaml(val, &next, Ghost(indent + 1), out, false);
                    },
                    _ => {
                        push_str(out, ": ");
                        render_yaml(val, &empty, Ghost(0), out, true);
                    },
                }
                proof {
                    assert(out@ + yaml_map(pd, (i + 1) as nat, indent) =~= b2 + yaml_map(pd, i as nat, indent));
                }
                i = i + 1;
            }
            assert(final(out)@ =~= old(out)@ + yaml_of(v.deep(), indent, inline_key));
        },
        _ => {
            if !inline_key {
                push_str(out, pad_text.as_str());
            }
            push_scalar(v, out);
            push_char(out, '\n');
            assert(final(out)@ =~= old(out)@ + yaml_of(v.deep(), indent, inline_key));
        },
    }
}

/// The YAML text of an output tree.
pub fn to_yaml(v: &Out) -> (r: String)
    ensures
        r@ == yaml_of(v.deep(), 0, false),
{
    let mut out = String::new();
    let top = String::new();
    assert(top@ =~= pad(0));
    render_yaml(v, &top, Ghost(0), &mut out, false);
    assert(out@ =~= yaml_of(v.deep(), 0, false));
    out
}


// ---------------------------------------------------------------------------
// From a response form

/// The output tree of a response form: atoms and strings become strings,
/// a `(key v1 ...)` form a one-pair map (to its single value, or to the
/// list of its values), any other list a list.
pub open spec fn out_of(v: SexpV) -> OutV
    decreases v, 0nat,
{
    match v {
        SexpV::Atom(a) => OutV::S(a),
        SexpV::Str(s) => OutV::S(s),
        SexpV::List(items) => if items.len() > 0 && items[0] is Atom {
            let vals = outs_of(items, 1);
            OutV::M(
                seq![
                    (items[0]->Atom_0, if vals.len() == 1 {
                        vals[0]
                    } else {
                        OutV::L(vals)
                    }),
                ],
            )
        } else {
            OutV::L(outs_of(items, 0))
        },
    }
}

pub open spec fn outs_of(items: Seq<SexpV>, k: nat) -> Seq<OutV>
    decreases items, items.len() - k,
{
    if k < items.len() {
        seq![out_of(items[k as int])] + outs_of(items, k + 1)
    } else {
        Seq::empty()
    }
}

proof fn lemma_outs_of_len(items: Seq<SexpV>, k: nat)
    requires
        k <= items.len(),
    ensures
        outs_of(items, k).len() == items.len() - k,
        forall|i: int| 0 <= i < items.len() - k ==> #[trigger] outs_of(items, k)[i] == out_of(items[k + i]),
    decreases items.len() - k,
{
    if k < items.len() {
        lemma_outs_of_len(items, k + 1);
    }
}

/// The output trees of `items[k..]`.
fn outs_from_items(items: &Vec<Sexp>, k: usize, Ghost(whole): Ghost<Sexp>) -> (r: Vec<Out>)
    requires
        k <= items@.len(),
        whole == Sexp::List(*items),
    ensures
        outs_from(r@, 0) == outs_of(deeps(items@), k as nat),
    decreases whole, 0nat, items@.len() - k,
{
    proof {
        lemma_deeps(items@);
        lemma_outs_of_len(deeps(items@), k as nat);
    }
    let mut r: Vec<Out> = Vec::new();
    let mut i = k;
    while i < items.len()
        invariant
            k <= i <= items@.len(),
            whole == Sexp::List(*items),
            deeps(items@).len() == items@.len(),
            forall|j: int| 0 <= j < items@.len() ==> #[trigger] deeps(items@)[j] == items@[j].deep(),
            outs_of(deeps(items@), k as nat).len() == items@.len() - k,
            forall|j: int| 0 <= j < items@.len() - k ==> #[trigger] outs_of(deeps(items@), k as nat)[j] == out_of(deeps(items@)[k + j]),
            r@.len() == i - k,
            forall|j: int| 0 <= j < r@.len() ==> (#[trigger] r@[j]).deep() == out_of(items@[k + j].deep()),
        decreases items@.len() - i,
    {
        proof {
            let ghost its = *items;
            assert(decreases_to!(whole => whole->List_0));
            assert(decreases_to!(its => its@));
            assert(decreases_to!(its@ => its@[i as int]));
        }
        let o = sexpr_list_to_out(&items[i]);
        r.push(o);
        i = i + 1;
    }
    proof {
        lemma_outs_from(r@, 0);
        assert(outs_from(r@, 0) =~= outs_of(deeps(items@), k as nat));
    }
    r
}

/// The output tree of a response form, faithful to what was said: no
/// interpretation, no loss.
pub fn sexpr_list_to_out(s: &Sexp) -> (r: Out)
    ensures
        r.deep() == out_of(s.deep()),
    decreases s, 1nat, 0nat,
{
    match s {
        Sexp::Atom(a) => Out::S(a.clone()),
        Sexp::Str(v) => Out::S(v.clone()),
        Sexp::List(items) => {
            proof {
                lemma_deeps(items@);
            }
            if items.len() > 0 {
                if let Sexp::Atom(head) = &items[0] {
                    let mut vals = outs_from_items(items, 1, Ghost(*s));
                    proof {
                        lemma_outs_from(vals@, 0);
                        lemma_outs_of_len(deeps(items@), 1);
                    }
                    let value = if vals.len() == 1 {
                        vals.pop().unwrap()
                    } else {
                        Out::L(vals)
                    };
                    let mut pairs: Vec<(String, Out)> = Vec::new();
                    pairs.push((head.clone(), value));
                    proof {
                        lemma_pairs_from(pairs@, 0);
                        assert(pairs_from(pairs@, 0) =~= seq![(head@, value.deep())]);
                    }
                    return Out::M(pairs);
                }
            }
            let vals = outs_from_items(items, 0, Ghost(*s));
            Out::L(vals)
        },
    }
}

} // verus!
