//! The `swarm-cli` command line: which operation the arguments ask for,
//! with which node, output format and repositories directory, or the usage
//! error that refuses them. The task operations' request forms are built
//! here too. Talking to the node, reading files and printing are the
//! caller's part.

use vstd::prelude::*;
use crate::text::{
    chars_of, dec, push_decimal, sep_items, sep_list, push_char, push_str, str_eq, string_of, sub_chars, texts_of,
};

verus! {

/// What the tool prints for `--help`, and after every usage error.
pub const USAGE: &'static str = "swarm-cli \u{2014} JSON/YAML adapters over the swarm-node coordination plane\n\nUSAGE:\n  swarm-cli check [--node HOST:PORT] [--json|--yaml]\n  swarm-cli explain <TASK-ID> [--repos DIR] [--json|--yaml]\n  swarm-cli fmt <file.tasks.my> [--check]\n  swarm-cli nba [--caps a,b]                    (next-best-action, wire-faithful)\n  swarm-cli task claim <ID>\n  swarm-cli task complete <ID> --gen N\n  swarm-cli task release <ID> --gen N\n  swarm-cli task define <ID> [--priority P] [--caps c1,c2] [--desc \"...\"]\n  swarm-cli convert <file.my> --json|--yaml     (tasks.my -> structured output)\n\nDEFAULTS: --node 127.0.0.1:9104 (override with SWARM_NODE env or flag).\nEXIT CODES: 0 ok \u{b7} 1 unhealthy (check) \u{b7} 2 usage \u{b7} 3 source/parse error \u{b7} 4 not found\nRead-only: claims/dispatch stay with full agents via quorum-guarded claim-task.";

/// A failure of the tool: the message it prints and its exit code.
#[derive(Debug, PartialEq, Eq)]
pub struct CliErr {
    pub msg: String,
    pub code: u8,
}

impl CliErr {
    /// A usage mistake: the message, then the usage text; exit code 2.
    pub fn usage(m: &str) -> (e: CliErr)
        ensures
            e.msg@ == m@ + "\n\n"@ + USAGE@,
            e.code == 2,
    {
        let mut msg = String::new();
        push_str(&mut msg, m);
        push_str(&mut msg, "\n\n");
        push_str(&mut msg, USAGE);
        assert(msg@ =~= m@ + "\n\n"@ + USAGE@);
        CliErr { msg, code: 2 }
    }

    /// A source or parse error: the message alone; exit code 3.
    pub fn src(m: &str) -> (e: CliErr)
        ensures
            e.msg@ == m@,
            e.code == 3,
    {
        CliErr { msg: String::from_str(m), code: 3 }
    }
}

/// What `fmt --check` reports: the line printed when the file is already
/// canonical, or the failure (exit code 3) when formatting would change it.
pub fn fmt_check_verdict(file: &str, current: &str, canonical: &str, count: usize) -> (r: Result<
    String,
    CliErr,
>)
    ensures
        current@ == canonical@ ==> (r matches Ok(line) && line@ == file@ + ": canonical ("@ + dec(
            count as nat,
        ) + " tasks)"@),
        current@ != canonical@ ==> (r matches Err(e) && e.code == 3 && e.msg@ == file@
            + ": would reformat ("@ + dec(count as nat) + " tasks)"@),
{
    let mut m = String::from_str(file);
    let same = str_eq(current, canonical);
    if same {
        push_str(&mut m, ": canonical (");
    } else {
        push_str(&mut m, ": would reformat (");
    }
    push_decimal(&mut m, count as u64);
    push_str(&mut m, " tasks)");
    if same {
        Ok(m)
    } else {
        Err(CliErr { msg: m, code: 3 })
    }
}

/// The operation the arguments ask for.
#[derive(Debug, PartialEq, Eq)]
pub enum SwarmCommand {
    Help,
    Check,
    Explain { task_id: String },
    Fmt { file: String, check_only: bool },
    Nba { caps: Vec<String> },
    /// A task operation, with the request form to send.
    Task { form: String },
    Convert { file: String },
}

/// An operation with the settings it runs under.
#[derive(Debug, PartialEq, Eq)]
pub struct SwarmInvocation {
    pub command: SwarmCommand,
    pub node: String,
    /// `json` or `yaml`.
    pub format: String,
    pub repos: String,
}

pub enum SwarmCommandV {
    Help,
    Check,
    Explain(Seq<char>),
    Fmt(Seq<char>, bool),
    Nba(Seq<Seq<char>>),
    Task(Seq<char>),
    Convert(Seq<char>),
}

pub struct InvocationV {
    pub command: SwarmCommandV,
    pub node: Seq<char>,
    pub format: Seq<char>,
    pub repos: Seq<char>,
}

impl View for SwarmCommand {
    type V = SwarmCommandV;

    open spec fn view(&self) -> SwarmCommandV {
        match self {
            SwarmCommand::Help => SwarmCommandV::Help,
            SwarmCommand::Check => SwarmCommandV::Check,
            SwarmCommand::Explain { task_id } => SwarmCommandV::Explain(task_id@),
            SwarmCommand::Fmt { file, check_only } => SwarmCommandV::Fmt(file@, *check_only),
            SwarmCommand::Nba { caps } => SwarmCommandV::Nba(texts_of(caps@)),
            SwarmCommand::Task { form } => SwarmCommandV::Task(form@),
            SwarmCommand::Convert { file } => SwarmCommandV::Convert(file@),
        }
    }
}

impl View for SwarmInvocation {
    type V = InvocationV;

    open spec fn view(&self) -> InvocationV {
        InvocationV {
            command: self.command@,
            node: self.node@,
            format: self.format@,
            repos: self.repos@,
        }
    }
}

/// The settings read from the options that may follow the command, and
/// the remaining arguments.
#[verifier::ext_equal]
pub struct GlobalV {
    pub node: Seq<char>,
    pub format: Seq<char>,
    pub repos: Seq<char>,
    pub check_only: bool,
    pub rest: Seq<Seq<char>>,
}

/// Reading `--node V`, `--json`, `--yaml`, `--repos V` and `--check`
/// anywhere from position `i` on; every other argument is kept, in order.
pub open spec fn scan_globals(args: Seq<Seq<char>>, i: int, g: GlobalV) -> Result<GlobalV, Seq<char>>
    decreases args.len() - i,
{
    if i < 0 || i >= args.len() {
        Ok(g)
    } else {
        let a = args[i];
        let has_value = i + 1 < args.len();
        if a == "--node"@ {
            if has_value {
                scan_globals(args, i + 2, GlobalV { node: args[i + 1], ..g })
            } else {
                Err("--node needs a value"@)
            }
        } else if a == "--json"@ {
            scan_globals(args, i + 1, GlobalV { format: "json"@, ..g })
        } else if a == "--yaml"@ {
            scan_globals(args, i + 1, GlobalV { format: "yaml"@, ..g })
        } else if a == "--repos"@ {
            if has_value {
                scan_globals(args, i + 2, GlobalV { repos: args[i + 1], ..g })
            } else {
                Err("--repos needs a value"@)
            }
        } else if a == "--check"@ {
            scan_globals(args, i + 1, GlobalV { check_only: true, ..g })
        } else {
            scan_globals(args, i + 1, GlobalV { rest: g.rest.push(a), ..g })
        }
    }
}

pub open spec fn caps_word() -> Seq<char> {
    seq!['-', '-', 'c', 'a', 'p', 's']
}

/// `s` with every leading `--caps` removed, as `trim_start_matches` does.
pub open spec fn trim_caps_word(s: Seq<char>) -> Seq<char>
    decreases s.len(),
{
    if s.len() >= 6 && s.take(6) == caps_word() {
        trim_caps_word(s.skip(6))
    } else {
        s
    }
}

/// The first `k` of `items` that are not the word `--caps`.
pub open spec fn drop_caps_word(items: Seq<Seq<char>>, k: int) -> Seq<Seq<char>>
    decreases k,
{
    if k <= 0 {
        seq![]
    } else if items[k - 1] == caps_word() {
        drop_caps_word(items, k - 1)
    } else {
        drop_caps_word(items, k - 1).push(items[k - 1])
    }
}

/// The capabilities `nba` reads from its first `k` remaining arguments:
/// each without a leading `--caps`, split at commas.
pub open spec fn nba_caps(rest: Seq<Seq<char>>, k: int) -> Seq<Seq<char>>
    decreases k,
{
    if k <= 0 {
        seq![]
    } else {
        let items = sep_items(trim_caps_word(rest[k - 1]), ',', 0);
        nba_caps(rest, k - 1) + drop_caps_word(items, items.len() as int)
    }
}

#[verifier::ext_equal]
pub struct TaskFlagsV {
    pub generation: Option<Seq<char>>,
    pub priority: Seq<char>,
    pub desc: Seq<char>,
    pub caps: Seq<char>,
}

/// Reading the task flags `--gen`, `--priority`, `--desc` and `--caps`
/// (each with a value) from position `i` on; anything else is refused.
pub open spec fn scan_task_flags(rest: Seq<Seq<char>>, i: int, f: TaskFlagsV) -> Result<
    TaskFlagsV,
    Seq<char>,
>
    decreases rest.len() - i,
{
    if i < 0 || i >= rest.len() {
        Ok(f)
    } else {
        let a = rest[i];
        let has_value = i + 1 < rest.len();
        if a == "--gen"@ {
            if has_value {
                scan_task_flags(rest, i + 2, TaskFlagsV { generation: Some(rest[i + 1]), ..f })
            } else {
                Err("--gen needs a value"@)
            }
        } else if a == "--priority"@ {
            if has_value {
                scan_task_flags(rest, i + 2, TaskFlagsV { priority: rest[i + 1], ..f })
            } else {
                Err("--priority needs a value"@)
            }
        } else if a == "--desc"@ {
            if has_value {
                scan_task_flags(rest, i + 2, TaskFlagsV { desc: rest[i + 1], ..f })
            } else {
                Err("--desc needs a value"@)
            }
        } else if a == "--caps"@ {
            if has_value {
                scan_task_flags(rest, i + 2, TaskFlagsV { caps: rest[i + 1], ..f })
            } else {
                Err("--caps needs a value"@)
            }
        } else {
            Err("unknown task flag `"@ + a + "`"@)
        }
    }
}

pub open spec fn default_task_flags() -> TaskFlagsV {
    TaskFlagsV { generation: None, priority: "1.0"@, desc: seq![], caps: seq![] }
}

/// `s` with every comma turned into a space.
pub open spec fn commas_to_spaces(s: Seq<char>) -> Seq<char> {
    s.map_values(|c: char| if c == ',' { ' ' } else { c })
}

/// The request form of task operation `sub` on task `id`.
pub open spec fn task_form_spec(sub: Seq<char>, id: Seq<char>, f: TaskFlagsV) -> Result<Seq<char>, Seq<char>> {
    if sub == "claim"@ {
        Ok("(claim-task (task "@ + id + "))"@)
    } else if sub == "complete"@ || sub == "release"@ {
        match f.generation {
            None => Err("task "@ + sub + " requires --gen N"@),
            Some(g) => {
                let op = if sub == "complete"@ {
                    "complete-task"@
                } else {
                    "release-task"@
                };
                Ok("("@ + op + " (task "@ + id + ") (generation "@ + g + "))"@)
            },
        }
    } else if sub == "define"@ {
        Ok(
            "(define-task (task "@ + id + ") (priority "@ + f.priority + ")"@ + (if f.caps.len() > 0 {
                " (capabilities ("@ + commas_to_spaces(f.caps) + "))"@
            } else {
                seq![]
            }) + (if f.desc.len() > 0 {
                " (description \""@ + f.desc + "\"))"@
            } else {
                ")"@
            }),
        )
    } else {
        Err("unknown task subcommand `"@ + sub + "` (use claim|complete|release|define)"@)
    }
}

/// The operation asked for by `cmd`, given what the options left over.
pub open spec fn command_spec(cmd: Seq<char>, g: GlobalV) -> Result<SwarmCommandV, Seq<char>> {
    let rest = g.rest;
    if cmd == "check"@ {
        Ok(SwarmCommandV::Check)
    } else if cmd == "explain"@ {
        if rest.len() > 0 {
            Ok(SwarmCommandV::Explain(rest[0]))
        } else {
            Err("explain requires a TASK-ID"@)
        }
    } else if cmd == "fmt"@ {
        if rest.len() > 0 {
            Ok(SwarmCommandV::Fmt(rest[0], g.check_only))
        } else {
            Err("fmt requires a file path"@)
        }
    } else if cmd == "nba"@ {
        Ok(SwarmCommandV::Nba(nba_caps(rest, rest.len() as int)))
    } else if cmd == "task"@ {
        if rest.len() == 0 {
            Err("task requires a subcommand"@)
        } else if rest.len() < 2 {
            Err("task subcommands require TASK-ID"@)
        } else {
            match scan_task_flags(rest, 2, default_task_flags()) {
                Err(m) => Err(m),
                Ok(f) => match task_form_spec(rest[0], rest[1], f) {
                    Ok(form) => Ok(SwarmCommandV::Task(form)),
                    Err(m) => Err(m),
                },
            }
        }
    } else if cmd == "convert"@ {
        if rest.len() > 0 {
            Ok(SwarmCommandV::Convert(rest[0]))
        } else {
            Err("convert requires a file path"@)
        }
    } else {
        Err("unknown command `"@ + cmd + "`"@)
    }
}

pub open spec fn default_node(env_node: Option<Seq<char>>) -> Seq<char> {
    match env_node {
        Some(n) => n,
        None => "127.0.0.1:9104"@,
    }
}

/// What the arguments ask for, with `env_node` the `SWARM_NODE` setting if
/// there is one; `Err` holds the usage message.
pub open spec fn swarm_parse(args: Seq<Seq<char>>, env_node: Option<Seq<char>>) -> Result<
    InvocationV,
    Seq<char>,
> {
    if args.len() == 0 {
        Err("missing command"@)
    } else {
        let cmd = args[0];
        let g0 = GlobalV {
            node: default_node(env_node),
            format: "json"@,
            repos: "/home/agents/GitHub"@,
            check_only: false,
            rest: seq![],
        };
        if cmd == "--help"@ || cmd == "-h"@ {
            Ok(InvocationV { command: SwarmCommandV::Help, node: g0.node, format: g0.format, repos: g0.repos })
        } else if cmd.len() > 0 && cmd[0] == '-' {
            Err("global flags must follow the command (got `"@ + cmd + "`)"@)
        } else {
            match scan_globals(args, 1, g0) {
                Err(m) => Err(m),
                Ok(g) => match command_spec(cmd, g) {
                    Err(m) => Err(m),
                    Ok(c) => Ok(InvocationV { command: c, node: g.node, format: g.format, repos: g.repos }),
                },
            }
        }
    }
}

/// `s` with every comma turned into a space.
fn spaces_for_commas(s: &str) -> (r: String)
    ensures
        r@ == commas_to_spaces(s@),
{
    let chars = chars_of(s);
    let mut r = String::new();
    for i in 0..chars.len()
        invariant
            chars@ == s@,
            r@ == commas_to_spaces(s@.take(i as int)),
    {
        let c = chars[i];
        push_char(&mut r, if c == ',' { ' ' } else { c });
        assert(commas_to_spaces(s@.take(i + 1)) =~= commas_to_spaces(s@.take(i as int)).push(
            if c == ',' { ' ' } else { c },
        ));
    }
    assert(s@.take(s@.len() as int) =~= s@);
    r
}

/// The request form of task operation `sub` on task `id` with the given
/// flag values; `Err` holds the usage message.
pub fn task_form(
    sub: &str,
    id: &str,
    generation: &Option<String>,
    priority: &str,
    desc: &str,
    caps: &str,
) -> (r: Result<String, String>)
    ensures
        ({
            let f = TaskFlagsV {
                generation: match generation {
                    Some(g) => Some(g@),
                    None => None,
                },
                priority: priority@,
                desc: desc@,
                caps: caps@,
            };
            match task_form_spec(sub@, id@, f) {
                Ok(form) => r matches Ok(s) && s@ == form,
                Err(m) => r matches Err(e) && e@ == m,
            }
        }),
{
    let mut out = String::new();
    if str_eq(sub, "claim") {
        push_str(&mut out, "(claim-task (task ");
        push_str(&mut out, id);
        push_str(&mut out, "))");
        assert(out@ =~= "(claim-task (task "@ + id@ + "))"@);
        Ok(out)
    } else if str_eq(sub, "complete") || str_eq(sub, "release") {
        match generation {
            None => {
                push_str(&mut out, "task ");
                push_str(&mut out, sub);
                push_str(&mut out, " requires --gen N");
                assert(out@ =~= "task "@ + sub@ + " requires --gen N"@);
                Err(out)
            },
            Some(g) => {
                push_str(&mut out, "(");
                if str_eq(sub, "complete") {
                    push_str(&mut out, "complete-task");
                } else {
                    push_str(&mut out, "release-task");
                }
                push_str(&mut out, " (task ");
                push_str(&mut out, id);
                push_str(&mut out, ") (generation ");
                push_str(&mut out, g.as_str());
                push_str(&mut out, "))");
                let ghost op = if sub@ == "complete"@ {
                    "complete-task"@
                } else {
                    "release-task"@
                };
                assert(out@ =~= "("@ + op + " (task "@ + id@ + ") (generation "@ + g@ + "))"@);
                Ok(out)
            },
        }
    } else if str_eq(sub, "define") {
        push_str(&mut out, "(define-task (task ");
        push_str(&mut out, id);
        push_str(&mut out, ") (priority ");
        push_str(&mut out, priority);
        push_str(&mut out, ")");
        let ghost head = out@;
        if chars_of(caps).len() > 0 {
            push_str(&mut out, " (capabilities (");
            let spaced = spaces_for_commas(caps);
            push_str(&mut out, spaced.as_str());
            push_str(&mut out, "))");
        }
        let ghost with_caps = out@;
        if chars_of(desc).len() > 0 {
            push_str(&mut out, " (description \"");
            push_str(&mut out, desc);
            push_str(&mut out, "\"))");
        } else {
            push_str(&mut out, ")");
        }
        proof {
            let caps_part = if caps@.len() > 0 {
                " (capabilities ("@ + commas_to_spaces(caps@) + "))"@
            } else {
                Seq::<char>::empty()
            };
            let desc_part = if desc@.len() > 0 {
                " (description \""@ + desc@ + "\"))"@
            } else {
                ")"@
            };
            assert(with_caps =~= head + caps_part);
            assert(out@ =~= "(define-task (task "@ + id@ + ") (priority "@ + priority@ + ")"@
                + caps_part + desc_part);
        }
        Ok(out)
    } else {
        push_str(&mut out, "unknown task subcommand `");
        push_str(&mut out, sub);
        push_str(&mut out, "` (use claim|complete|release|define)");
        assert(out@ =~= "unknown task subcommand `"@ + sub@ + "` (use claim|complete|release|define)"@);
        Err(out)
    }
}

/// Where `s` starts once every leading `--caps` is removed.
fn skip_caps_words(s: &[char]) -> (p: usize)
    ensures
        p <= s@.len(),
        s@.skip(p as int) == trim_caps_word(s@),
{
    let mut p: usize = 0;
    assert(s@.skip(0) =~= s@);
    while s.len() >= 6 && p <= s.len() - 6 && s[p] == '-' && s[p + 1] == '-' && s[p + 2] == 'c' && s[p + 3] == 'a'
        && s[p + 4] == 'p' && s[p + 5] == 's'
        invariant
            p <= s@.len(),
            trim_caps_word(s@.skip(p as int)) == trim_caps_word(s@),
        decreases s@.len() - p,
    {
        let ghost t = s@.skip(p as int);
        assert(t.take(6) =~= caps_word());
        assert(t.skip(6) =~= s@.skip(p + 6));
        p = p + 6;
    }
    proof {
        let t = s@.skip(p as int);
        if t.len() >= 6 {
            assert(t.take(6) != caps_word()) by {
                if t.take(6) == caps_word() {
                    assert(t.take(6)[0] == s@[p as int]);
                    assert(t.take(6)[1] == s@[p + 1]);
                    assert(t.take(6)[2] == s@[p + 2]);
                    assert(t.take(6)[3] == s@[p + 3]);
                    assert(t.take(6)[4] == s@[p + 4]);
                    assert(t.take(6)[5] == s@[p + 5]);
                }
            }
        }
    }
    p
}

/// The capabilities `nba` reads from its remaining arguments.
fn nba_caps_of(rest: &Vec<String>) -> (r: Vec<String>)
    ensures
        texts_of(r@) == nba_caps(texts_of(rest@), rest@.len() as int),
{
    let ghost rv = texts_of(rest@);
    let mut out: Vec<String> = Vec::new();
    for k in 0..rest.len()
        invariant
            rv == texts_of(rest@),
            texts_of(out@) == nba_caps(rv, k as int),
    {
        let chars = chars_of(rest[k].as_str());
        let p = skip_caps_words(chars.as_slice());
        let trimmed = string_of(sub_chars(chars.as_slice(), p, chars.len()).as_slice());
        assert(trimmed@ =~= trim_caps_word(rv[k as int]));
        let items = sep_list(trimmed.as_str(), ',');
        let ghost iv = texts_of(items@);
        let ghost before = texts_of(out@);
        for j in 0..items.len()
            invariant
                iv == texts_of(items@),
                texts_of(out@) == before + drop_caps_word(iv, j as int),
        {
            proof {
                reveal_strlit("--caps");
                assert("--caps"@ =~= caps_word());
            }
            if !str_eq(items[j].as_str(), "--caps") {
                let ghost prev = out@;
                out.push(items[j].clone());
                assert(texts_of(out@) =~= texts_of(prev).push(iv[j as int]));
            }
            assert(texts_of(out@) =~= before + drop_caps_word(iv, j + 1));
        }
    }
    out
}

/// The usage error for message `m`.
fn refuse<T>(m: String) -> (r: Result<T, CliErr>)
    ensures
        r matches Err(e) && e.msg@ == m@ + "\n\n"@ + USAGE@ && e.code == 2,
{
    Err(CliErr::usage(m.as_str()))
}

pub open spec fn globals_of(
    node: Seq<char>,
    format: Seq<char>,
    repos: Seq<char>,
    check_only: bool,
    rest: Seq<String>,
) -> GlobalV {
    GlobalV { node, format, repos, check_only, rest: texts_of(rest) }
}

/// Reads the options that may follow the command, starting after it, and
/// keeps every other argument.
fn read_globals(args: &Vec<String>, node: String) -> (r: Result<
    (String, String, String, bool, Vec<String>),
    CliErr,
>)
    requires
        args@.len() >= 1,
    ensures
        match scan_globals(
            texts_of(args@),
            1,
            globals_of(node@, "json"@, "/home/agents/GitHub"@, false, seq![]),
        ) {
            Ok(g) => r matches Ok(v) && globals_of(v.0@, v.1@, v.2@, v.3, v.4@) == g,
            Err(m) => r matches Err(e) && e.msg@ == m + "\n\n"@ + USAGE@ && e.code == 2,
        },
{
    let ghost av = texts_of(args@);
    let ghost g0 = globals_of(node@, "json"@, "/home/agents/GitHub"@, false, seq![]);
    let mut cur_node = node.clone();
    let mut format = String::from_str("json");
    let mut repos = String::from_str("/home/agents/GitHub");
    let mut check_only = false;
    let mut rest: Vec<String> = Vec::new();
    assert(globals_of(cur_node@, format@, repos@, check_only, rest@) =~= g0);
    let mut i: usize = 1;
    while i < args.len()
        invariant
            av == texts_of(args@),
            g0 == globals_of(node@, "json"@, "/home/agents/GitHub"@, false, seq![]),
            1 <= i,
            scan_globals(av, i as int, globals_of(cur_node@, format@, repos@, check_only, rest@))
                == scan_globals(av, 1, g0),
        decreases args@.len() - i,
    {
        let a = args[i].as_str();
        assert(av[i as int] == a@);
        let has_value = i + 1 < args.len();
        if str_eq(a, "--node") {
            if !has_value {
                return Err(CliErr::usage("--node needs a value"));
            }
            cur_node = args[i + 1].clone();
            i = i + 2;
        } else if str_eq(a, "--json") {
            format = String::from_str("json");
            i = i + 1;
        } else if str_eq(a, "--yaml") {
            format = String::from_str("yaml");
            i = i + 1;
        } else if str_eq(a, "--repos") {
            if !has_value {
                return Err(CliErr::usage("--repos needs a value"));
            }
            repos = args[i + 1].clone();
            i = i + 2;
        } else if str_eq(a, "--check") {
            check_only = true;
            i = i + 1;
        } else {
            let ghost prev = rest@;
            rest.push(args[i].clone());
            assert(texts_of(rest@) =~= texts_of(prev).push(a@));
            i = i + 1;
        }
    }
    Ok((cur_node, format, repos, check_only, rest))
}

pub open spec fn flags_of(
    generation: Option<String>,
    priority: Seq<char>,
    desc: Seq<char>,
    caps: Seq<char>,
) -> TaskFlagsV {
    TaskFlagsV {
        generation: match generation {
            Some(g) => Some(g@),
            None => None,
        },
        priority,
        desc,
        caps,
    }
}

/// Reads the task flags after the subcommand and the task id.
fn read_task_flags(rest: &Vec<String>) -> (r: Result<(Option<String>, String, String, String), CliErr>)
    ensures
        match scan_task_flags(texts_of(rest@), 2, default_task_flags()) {
            Ok(f) => r matches Ok(v) && flags_of(v.0, v.1@, v.2@, v.3@) == f,
            Err(m) => r matches Err(e) && e.msg@ == m + "\n\n"@ + USAGE@ && e.code == 2,
        },
{
    let ghost rv = texts_of(rest@);
    let mut generation: Option<String> = None;
    let mut priority = String::from_str("1.0");
    let mut desc = String::new();
    let mut caps = String::new();
    assert(flags_of(generation, priority@, desc@, caps@) =~= default_task_flags());
    let mut j: usize = 2;
    while j < rest.len()
        invariant
            rv == texts_of(rest@),
            2 <= j,
            scan_task_flags(rv, j as int, flags_of(generation, priority@, desc@, caps@))
                == scan_task_flags(rv, 2, default_task_flags()),
        decreases rest@.len() - j,
    {
        let a = rest[j].as_str();
        assert(rv[j as int] == a@);
        let has_value = j + 1 < rest.len();
        if str_eq(a, "--gen") {
            if !has_value {
                return Err(CliErr::usage("--gen needs a value"));
            }
            generation = Some(rest[j + 1].clone());
        } else if str_eq(a, "--priority") {
            if !has_value {
                return Err(CliErr::usage("--priority needs a value"));
            }
            priority = rest[j + 1].clone();
        } else if str_eq(a, "--desc") {
            if !has_value {
                return Err(CliErr::usage("--desc needs a value"));
            }
            desc = rest[j + 1].clone();
        } else if str_eq(a, "--caps") {
            if !has_value {
                return Err(CliErr::usage("--caps needs a value"));
            }
            caps = rest[j + 1].clone();
        } else {
            return refuse(crate::scheduler::cli::framed("unknown task flag `", a, "`"));
        }
        j = j + 2;
    }
    Ok((generation, priority, desc, caps))
}

/// The operation the command line asks for; `env_node` is the
/// `SWARM_NODE` setting, if any.
pub fn parse_swarm_args(args: &Vec<String>, env_node: Option<String>) -> (r: Result<SwarmInvocation, CliErr>)
    ensures
        match swarm_parse(
            texts_of(args@),
            match env_node {
                Some(n) => Some(n@),
                None => None,
            },
        ) {
            Ok(v) => r matches Ok(x) && x@ == v,
            Err(m) => r matches Err(e) && e.msg@ == m + "\n\n"@ + USAGE@ && e.code == 2,
        },
{
    let ghost av = texts_of(args@);
    if args.len() == 0 {
        return Err(CliErr::usage("missing command"));
    }
    let cmd = args[0].as_str();
    assert(av[0] == cmd@);
    let node = match env_node {
        Some(n) => n,
        None => String::from_str("127.0.0.1:9104"),
    };
    if str_eq(cmd, "--help") || str_eq(cmd, "-h") {
        return Ok(
            SwarmInvocation {
                command: SwarmCommand::Help,
                node,
                format: String::from_str("json"),
                repos: String::from_str("/home/agents/GitHub"),
            },
        );
    }
    let cmd_chars = chars_of(cmd);
    if cmd_chars.len() > 0 && cmd_chars[0] == '-' {
        return refuse(
            crate::scheduler::cli::framed("global flags must follow the command (got `", cmd, "`)"),
        );
    }
    proof {
        let g0 = GlobalV {
            node: node@,
            format: "json"@,
            repos: "/home/agents/GitHub"@,
            check_only: false,
            rest: seq![],
        };
        assert(globals_of(node@, "json"@, "/home/agents/GitHub"@, false, seq![]) =~= g0);
    }
    let (node, format, repos, check_only, rest) = match read_globals(args, node) {
        Ok(v) => v,
        Err(e) => return Err(e),
    };
    let command = if str_eq(cmd, "check") {
        SwarmCommand::Check
    } else if str_eq(cmd, "explain") {
        if rest.len() == 0 {
            return Err(CliErr::usage("explain requires a TASK-ID"));
        }
        SwarmCommand::Explain { task_id: rest[0].clone() }
    } else if str_eq(cmd, "fmt") {
        if rest.len() == 0 {
            return Err(CliErr::usage("fmt requires a file path"));
        }
        SwarmCommand::Fmt { file: rest[0].clone(), check_only }
    } else if str_eq(cmd, "nba") {
        SwarmCommand::Nba { caps: nba_caps_of(&rest) }
    } else if str_eq(cmd, "task") {
        if rest.len() == 0 {
            return Err(CliErr::usage("task requires a subcommand"));
        }
        if rest.len() < 2 {
            return Err(CliErr::usage("task subcommands require TASK-ID"));
        }
        let (generation, priority, desc, caps) = match read_task_flags(&rest) {
            Ok(v) => v,
            Err(e) => return Err(e),
        };
        match task_form(
            rest[0].as_str(),
            rest[1].as_str(),
            &generation,
            priority.as_str(),
            desc.as_str(),
            caps.as_str(),
        ) {
            Ok(form) => SwarmCommand::Task { form },
            Err(m) => return refuse(m),
        }
    } else if str_eq(cmd, "convert") {
        if rest.len() == 0 {
            return Err(CliErr::usage("convert requires a file path"));
        }
        SwarmCommand::Convert { file: rest[0].clone() }
    } else {
        return refuse(crate::scheduler::cli::framed("unknown command `", cmd, "`"));
    };
    Ok(SwarmInvocation { command, node, format, repos })
}

} // verus!
