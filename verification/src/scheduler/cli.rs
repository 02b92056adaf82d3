//! The scheduler's command line: what each argument asks for, and the
//! usage errors it is refused with. Reading the repositories and printing
//! the plan are the caller's part.

use vstd::prelude::*;
use crate::text::{
    chars_of, sep_items, sep_list, find_char_from, find_from, lemma_find_from_bounds, push_str,
    str_eq, string_of, sub_chars, texts_of,
};

verus! {

/// Why the scheduler stops: a usage mistake, or a source it could not read.
#[derive(Debug, PartialEq, Eq)]
pub enum CliError {
    Usage(String),
    Source(String),
}

/// What a plan run was asked for.
#[derive(Debug, PartialEq, Eq)]
pub struct PlanOptions {
    pub github_root: Option<String>,
    pub repos: Vec<String>,
    /// Each agent's id and capabilities, in the order given.
    pub agents: Vec<(String, Vec<String>)>,
    /// `text` or `json`.
    pub format: String,
    pub origin_filter: Option<String>,
}

#[derive(Debug, PartialEq, Eq)]
pub enum SchedulerCommand {
    Help,
    Version,
    Plan(PlanOptions),
}

#[verifier::ext_equal]
pub struct OptionsV {
    pub github_root: Option<Seq<char>>,
    pub repos: Seq<Seq<char>>,
    pub agents: Seq<(Seq<char>, Seq<Seq<char>>)>,
    pub format: Seq<char>,
    pub origin_filter: Option<Seq<char>>,
}

/// What the arguments ask for, or the usage message that refuses them.
pub enum ParsedV {
    Help,
    Version,
    Plan(OptionsV),
    Usage(Seq<char>),
}

pub open spec fn opt_text(s: Option<String>) -> Option<Seq<char>> {
    match s {
        Some(t) => Some(t@),
        None => None,
    }
}

pub open spec fn agents_view(v: Seq<(String, Vec<String>)>) -> Seq<(Seq<char>, Seq<Seq<char>>)> {
    v.map_values(|a: (String, Vec<String>)| (a.0@, texts_of(a.1@)))
}

impl View for PlanOptions {
    type V = OptionsV;

    open spec fn view(&self) -> OptionsV {
        OptionsV {
            github_root: opt_text(self.github_root),
            repos: texts_of(self.repos@),
            agents: agents_view(self.agents@),
            format: self.format@,
            origin_filter: opt_text(self.origin_filter),
        }
    }
}

/// No repositories, no agents, text output, no origin filter.
pub open spec fn default_options() -> OptionsV {
    OptionsV {
        github_root: None,
        repos: seq![],
        agents: seq![],
        format: "text"@,
        origin_filter: None,
    }
}

/// Reading `--agent ID=c1,c2`: the id before the first `=`, which must not
/// be empty, and the non-empty comma-separated capabilities after it.
pub open spec fn agent_spec(spec: Seq<char>) -> Result<(Seq<char>, Seq<Seq<char>>), Seq<char>> {
    let eq = find_from(spec, '=', 0);
    if eq >= spec.len() {
        Err("--agent must be ID=c1,c2 (got `"@ + spec + "`)"@)
    } else if eq == 0 {
        Err("--agent id must not be empty"@)
    } else {
        Ok((spec.take(eq), sep_items(spec, ',', eq + 1)))
    }
}

/// Reading the arguments from position `i` on, with `st` read so far.
/// `--help`/`-h` and `--version` answer at once; every option but those
/// takes a value; anything else is a usage error.
pub open spec fn parse_from(args: Seq<Seq<char>>, i: int, st: OptionsV) -> ParsedV
    decreases args.len() - i,
{
    if i < 0 || i >= args.len() {
        ParsedV::Plan(st)
    } else {
        let a = args[i];
        let has_value = i + 1 < args.len();
        if a == "--help"@ || a == "-h"@ {
            ParsedV::Help
        } else if a == "--version"@ {
            ParsedV::Version
        } else if a == "--github-root"@ {
            if has_value {
                parse_from(args, i + 2, OptionsV { github_root: Some(args[i + 1]), ..st })
            } else {
                ParsedV::Usage("--github-root needs a value"@)
            }
        } else if a == "--repo"@ {
            if has_value {
                parse_from(args, i + 2, OptionsV { repos: st.repos.push(args[i + 1]), ..st })
            } else {
                ParsedV::Usage("--repo needs a value"@)
            }
        } else if a == "--agent"@ {
            if has_value {
                match agent_spec(args[i + 1]) {
                    Ok(agent) => parse_from(
                        args,
                        i + 2,
                        OptionsV { agents: st.agents.push(agent), ..st },
                    ),
                    Err(m) => ParsedV::Usage(m),
                }
            } else {
                ParsedV::Usage("--agent needs ID=caps"@)
            }
        } else if a == "--format"@ {
            if !has_value {
                ParsedV::Usage("--format needs a value"@)
            } else if args[i + 1] != "text"@ && args[i + 1] != "json"@ {
                ParsedV::Usage("--format must be text|json (got `"@ + args[i + 1] + "`)"@)
            } else {
                parse_from(args, i + 2, OptionsV { format: args[i + 1], ..st })
            }
        } else if a == "--origin"@ {
            if has_value {
                parse_from(args, i + 2, OptionsV { origin_filter: Some(args[i + 1]), ..st })
            } else {
                ParsedV::Usage("--origin needs a value"@)
            }
        } else {
            ParsedV::Usage("unknown argument `"@ + a + "`"@)
        }
    }
}

/// `prefix`, then `x`, then `suffix`.
pub fn framed(prefix: &str, x: &str, suffix: &str) -> (r: String)
    ensures
        r@ == prefix@ + x@ + suffix@,
{
    let mut r = String::new();
    push_str(&mut r, prefix);
    push_str(&mut r, x);
    push_str(&mut r, suffix);
    assert(r@ =~= prefix@ + x@ + suffix@);
    r
}

fn usage(m: &str) -> (e: CliError)
    ensures
        e matches CliError::Usage(t) && t@ == m@,
{
    CliError::Usage(String::from_str(m))
}

/// Reads one `--agent ID=c1,c2` value.
pub fn parse_agent(spec: &str) -> (r: Result<(String, Vec<String>), CliError>)
    ensures
        match agent_spec(spec@) {
            Ok(a) => r matches Ok(v) && v.0@ == a.0 && texts_of(v.1@) == a.1,
            Err(m) => r matches Err(CliError::Usage(e)) && e@ == m,
        },
{
    let chars = chars_of(spec);
    let v = chars.as_slice();
    let eq = find_char_from(v, '=', 0);
    proof {
        lemma_find_from_bounds(spec@, '=', 0);
    }
    if eq >= v.len() {
        return Err(CliError::Usage(framed("--agent must be ID=c1,c2 (got `", spec, "`)")));
    }
    if eq == 0 {
        return Err(usage("--agent id must not be empty"));
    }
    let id = string_of(sub_chars(v, 0, eq).as_slice());
    let rest = string_of(sub_chars(v, eq + 1, v.len()).as_slice());
    let caps = sep_list(rest.as_str(), ',');
    proof {
        assert(spec@.take(eq as int) =~= spec@.subrange(0, eq as int));
        lemma_sep_items_shift(spec@, eq + 1);
    }
    Ok((id, caps))
}

/// Reading the comma items of a suffix is reading them from its start.
proof fn lemma_sep_items_shift(s: Seq<char>, p: int)
    requires
        0 <= p <= s.len(),
    ensures
        sep_items(s.subrange(p, s.len() as int), ',', 0) == sep_items(s, ',', p),
{
    lemma_sep_items_shift_from(s, p, p);
}

proof fn lemma_find_shift(s: Seq<char>, c: char, p: int, q: int)
    requires
        0 <= p <= q <= s.len(),
    ensures
        find_from(s.subrange(p, s.len() as int), c, q - p) == find_from(s, c, q) - p,
    decreases s.len() - q,
{
    if q < s.len() && s[q] != c {
        lemma_find_shift(s, c, p, q + 1);
    }
}

proof fn lemma_sep_items_shift_from(s: Seq<char>, p: int, q: int)
    requires
        0 <= p <= q <= s.len(),
    ensures
        sep_items(s.subrange(p, s.len() as int), ',', q - p) == sep_items(s, ',', q),
    decreases s.len() - q,
{
    let t = s.subrange(p, s.len() as int);
    lemma_find_shift(s, ',', p, q);
    lemma_find_from_bounds(s, ',', q);
    let j = find_from(s, ',', q);
    assert(t.subrange(q - p, j - p) =~= s.subrange(q, j));
    if j < s.len() {
        lemma_sep_items_shift_from(s, p, j + 1);
    }
}

/// What the scheduler's arguments ask for.
pub fn parse_args(args: &Vec<String>) -> (r: Result<SchedulerCommand, CliError>)
    ensures
        match parse_from(texts_of(args@), 0, default_options()) {
            ParsedV::Help => r matches Ok(SchedulerCommand::Help),
            ParsedV::Version => r matches Ok(SchedulerCommand::Version),
            ParsedV::Plan(o) => r matches Ok(SchedulerCommand::Plan(p)) && p@ == o,
            ParsedV::Usage(m) => r matches Err(CliError::Usage(e)) && e@ == m,
        },
{
    let ghost av = texts_of(args@);
    let mut opts = PlanOptions {
        github_root: None,
        repos: Vec::new(),
        agents: Vec::new(),
        format: String::from_str("text"),
        origin_filter: None,
    };
    assert(opts@ =~= default_options());
    let mut i: usize = 0;
    while i < args.len()
        invariant
            av == texts_of(args@),
            i <= args@.len(),
            parse_from(av, i as int, opts@) == parse_from(av, 0, default_options()),
        decreases args@.len() - i,
    {
        let a = args[i].as_str();
        let has_value = i + 1 < args.len();
        assert(av[i as int] == a@);
        if str_eq(a, "--help") || str_eq(a, "-h") {
            return Ok(SchedulerCommand::Help);
        } else if str_eq(a, "--version") {
            return Ok(SchedulerCommand::Version);
        } else if str_eq(a, "--github-root") {
            if !has_value {
                return Err(usage("--github-root needs a value"));
            }
            let ghost st = opts@;
            opts.github_root = Some(args[i + 1].clone());
            assert(opts@ =~= OptionsV { github_root: Some(av[i + 1]), ..st });
        } else if str_eq(a, "--repo") {
            if !has_value {
                return Err(usage("--repo needs a value"));
            }
            let ghost st = opts@;
            opts.repos.push(args[i + 1].clone());
            assert(opts@ =~= OptionsV { repos: st.repos.push(av[i + 1]), ..st });
        } else if str_eq(a, "--agent") {
            if !has_value {
                return Err(usage("--agent needs ID=caps"));
            }
            let agent = match parse_agent(args[i + 1].as_str()) {
                Ok(agent) => agent,
                Err(e) => return Err(e),
            };
            let ghost st = opts@;
            let ghost av_agent = (agent.0@, texts_of(agent.1@));
            opts.agents.push(agent);
            assert(agents_view(opts.agents@) =~= st.agents.push(av_agent));
            assert(opts@ =~= OptionsV { agents: st.agents.push(av_agent), ..st });
        } else if str_eq(a, "--format") {
            if !has_value {
                return Err(usage("--format needs a value"));
            }
            let f = args[i + 1].as_str();
            if !str_eq(f, "text") && !str_eq(f, "json") {
                return Err(CliError::Usage(framed("--format must be text|json (got `", f, "`)")));
            }
            let ghost st = opts@;
            opts.format = args[i + 1].clone();
            assert(opts@ =~= OptionsV { format: av[i + 1], ..st });
        } else if str_eq(a, "--origin") {
            if !has_value {
                return Err(usage("--origin needs a value"));
            }
            let ghost st = opts@;
            opts.origin_filter = Some(args[i + 1].clone());
            assert(opts@ =~= OptionsV { origin_filter: Some(av[i + 1]), ..st });
        } else {
            return Err(CliError::Usage(framed("unknown argument `", a, "`")));
        }
        i = i + 2;
    }
    Ok(SchedulerCommand::Plan(opts))
}

} // verus!
