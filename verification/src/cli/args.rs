//! The argument grammar: a command path, then long flags. Every flag a
//! command accepts is declared with its arity; anything else, a missing
//! value, a repeated single flag or a missing required flag is a usage
//! error found before any file is read.
use vstd::prelude::*;
use vstd::string::{StrSliceExecFns, StringExecFns, StringSliceAdditionalSpecFns};
use vstd::utf8::encode_utf8;

use crate::digits::{all_digits, digits_val, is_digit, lemma_digits_val_nonneg, lemma_digits_val_prefix};
use crate::order::{str_eq, texts};
use crate::text::{debug_quoted, debug_text, decimal_text, join, join3, u64_text};

verus! {

/// How often a flag may occur.
#[derive(Debug, Clone, Copy, PartialEq, Eq, Structural)]
pub enum Arity {
    /// At most once.
    One,
    /// Any number of times.
    Many,
}

/// One command: its path, its flags and which of them are required.
#[derive(Debug)]
pub struct CommandSpec {
    pub path: Vec<&'static str>,
    pub flags: Vec<(&'static str, Arity)>,
    pub required: Vec<&'static str>,
}

/// A command as texts.
pub struct CommandModel {
    pub path: Seq<Seq<char>>,
    pub flags: Seq<(Seq<char>, Arity)>,
    pub required: Seq<Seq<char>>,
}

/// The texts of a list of names.
pub open spec fn name_texts(v: Seq<&'static str>) -> Seq<Seq<char>> {
    v.map_values(|s: &'static str| s@)
}

/// The texts of a list of flags, with their arities.
pub open spec fn flag_texts(v: Seq<(&'static str, Arity)>) -> Seq<(Seq<char>, Arity)> {
    v.map_values(|f: (&'static str, Arity)| (f.0@, f.1))
}

impl CommandSpec {
    /// The command as texts.
    pub open spec fn model(self) -> CommandModel {
        CommandModel {
            path: name_texts(self.path@),
            flags: flag_texts(self.flags@),
            required: name_texts(self.required@),
        }
    }
}

/// One flag taken at most once.
pub open spec fn one(name: Seq<char>) -> (Seq<char>, Arity) {
    (name, Arity::One)
}

/// One flag taken any number of times.
pub open spec fn many(name: Seq<char>) -> (Seq<char>, Arity) {
    (name, Arity::Many)
}

/// Every command, its flags and its required flags.
pub open spec fn command_table() -> Seq<CommandModel> {
    seq![
        CommandModel {
            path: seq!["plan"@, "check"@],
            flags: seq![one("definition"@), many("descriptor"@), many("rules"@), many("calibration"@), one("execution"@)],
            required: seq!["definition"@],
        },
        CommandModel {
            path: seq!["plan"@, "compile"@],
            flags: seq![one("definition"@), many("descriptor"@), many("rules"@), many("calibration"@), one("execution"@), one("out"@)],
            required: seq!["definition"@, "out"@],
        },
        CommandModel {
            path: seq!["plan"@, "show"@],
            flags: seq![one("plan"@), many("descriptor"@), many("rules"@), many("calibration"@)],
            required: seq!["plan"@],
        },
        CommandModel {
            path: seq!["run"@],
            flags: seq![
                one("plan"@), many("rules"@), many("calibration"@), one("snapshot"@),
                one("evaluation-time"@), one("decision-id"@), one("record-out"@),
                one("deadline-ms"@), one("max-parallel-requests"@), one("sink-timeout-ms"@),
                one("capture-bytes"@), one("bundle-out"@), one("now-ms"@), one("retain"@),
                one("store"@), one("lifetime-ms"@), one("host-cap-ms"@), one("scope"@),
                one("tenant"@), one("context-revision"@), one("principal-scope"@)
            ],
            required: seq!["plan"@, "rules"@, "snapshot"@, "evaluation-time"@, "decision-id"@, "record-out"@],
        },
        CommandModel {
            path: seq!["replay"@],
            flags: seq![
                one("bundle"@), one("now-ms"@), one("store"@), one("host-cap-ms"@), one("scope"@),
                one("tenant"@), one("context-revision"@), one("principal-scope"@)
            ],
            required: seq!["bundle"@, "now-ms"@, "tenant"@, "context-revision"@],
        },
        CommandModel {
            path: seq!["eval"@],
            flags: seq![
                one("dataset"@), one("split"@), one("config"@), one("adapter"@), one("bundles"@),
                one("now-ms"@), one("store"@), one("host-cap-ms"@), one("out"@),
                one("candidate-plan"@), many("descriptor"@), many("rules"@), many("calibration"@),
                one("scope"@), one("tenant"@), one("context-revision"@), one("principal-scope"@)
            ],
            required: seq![
                "dataset"@, "split"@, "config"@, "adapter"@, "bundles"@, "now-ms"@, "out"@,
                "tenant"@, "context-revision"@
            ],
        },
        CommandModel {
            path: seq!["gate"@],
            flags: seq![one("baseline"@), one("candidate"@), one("gate"@)],
            required: seq!["baseline"@, "candidate"@, "gate"@],
        },
        CommandModel {
            path: seq!["calibrate"@, "fit"@],
            flags: seq![
                one("dataset"@), one("config"@), one("step"@), one("bundles"@), one("now-ms"@),
                one("store"@), one("host-cap-ms"@), one("out"@), one("scope"@), one("tenant"@),
                one("context-revision"@), one("principal-scope"@)
            ],
            required: seq![
                "dataset"@, "config"@, "step"@, "bundles"@, "now-ms"@, "out"@, "tenant"@,
                "context-revision"@
            ],
        },
        CommandModel {
            path: seq!["calibrate"@, "qualify"@],
            flags: seq![one("calibration"@), one("fit"@), one("dataset"@), one("split"@)],
            required: seq!["calibration"@, "dataset"@, "split"@],
        },
    ]
}

/// The models of a list of commands.
pub open spec fn models(v: Seq<CommandSpec>) -> Seq<CommandModel> {
    v.map_values(|c: CommandSpec| c.model())
}

/// One command from its parts.
fn command(
    path: Vec<&'static str>,
    flags: Vec<(&'static str, Arity)>,
    required: Vec<&'static str>,
) -> (r: CommandSpec)
    ensures
        r.path == path,
        r.flags == flags,
        r.required == required,
{
    CommandSpec { path, flags, required }
}

/// Every command the host knows.
pub fn commands() -> (r: Vec<CommandSpec>)
    ensures
        models(r@) == command_table(),
{
    let o = Arity::One;
    let m = Arity::Many;
    let r = vec![
        command(
            vec!["plan", "check"],
            vec![("definition", o), ("descriptor", m), ("rules", m), ("calibration", m), ("execution", o)],
            vec!["definition"],
        ),
        command(
            vec!["plan", "compile"],
            vec![("definition", o), ("descriptor", m), ("rules", m), ("calibration", m), ("execution", o), ("out", o)],
            vec!["definition", "out"],
        ),
        command(
            vec!["plan", "show"],
            vec![("plan", o), ("descriptor", m), ("rules", m), ("calibration", m)],
            vec!["plan"],
        ),
        command(
            vec!["run"],
            vec![
                ("plan", o), ("rules", m), ("calibration", m), ("snapshot", o),
                ("evaluation-time", o), ("decision-id", o), ("record-out", o),
                ("deadline-ms", o), ("max-parallel-requests", o), ("sink-timeout-ms", o),
                ("capture-bytes", o), ("bundle-out", o), ("now-ms", o), ("retain", o),
                ("store", o), ("lifetime-ms", o), ("host-cap-ms", o), ("scope", o),
                ("tenant", o), ("context-revision", o), ("principal-scope", o),
            ],
            vec!["plan", "rules", "snapshot", "evaluation-time", "decision-id", "record-out"],
        ),
        command(
            vec!["replay"],
            vec![
                ("bundle", o), ("now-ms", o), ("store", o), ("host-cap-ms", o), ("scope", o),
                ("tenant", o), ("context-revision", o), ("principal-scope", o),
            ],
            vec!["bundle", "now-ms", "tenant", "context-revision"],
        ),
        command(
            vec!["eval"],
            vec![
                ("dataset", o), ("split", o), ("config", o), ("adapter", o), ("bundles", o),
                ("now-ms", o), ("store", o), ("host-cap-ms", o), ("out", o),
                ("candidate-plan", o), ("descriptor", m), ("rules", m), ("calibration", m),
                ("scope", o), ("tenant", o), ("context-revision", o), ("principal-scope", o),
            ],
            vec![
                "dataset", "split", "config", "adapter", "bundles", "now-ms", "out", "tenant",
                "context-revision",
            ],
        ),
        command(
            vec!["gate"],
            vec![("baseline", o), ("candidate", o), ("gate", o)],
            vec!["baseline", "candidate", "gate"],
        ),
        command(
            vec!["calibrate", "fit"],
            vec![
                ("dataset", o), ("config", o), ("step", o), ("bundles", o), ("now-ms", o),
                ("store", o), ("host-cap-ms", o), ("out", o), ("scope", o), ("tenant", o),
                ("context-revision", o), ("principal-scope", o),
            ],
            vec![
                "dataset", "config", "step", "bundles", "now-ms", "out", "tenant",
                "context-revision",
            ],
        ),
        command(
            vec!["calibrate", "qualify"],
            vec![("calibration", o), ("fit", o), ("dataset", o), ("split", o)],
            vec!["calibration", "dataset", "split"],
        ),
    ];
    proof {
        assert(r@[0].model().path =~= command_table()[0].path);
        assert(r@[0].model().flags =~= command_table()[0].flags);
        assert(r@[0].model().required =~= command_table()[0].required);
        assert(models(r@)[0] == command_table()[0]);
        assert(r@[1].model().path =~= command_table()[1].path);
        assert(r@[1].model().flags =~= command_table()[1].flags);
        assert(r@[1].model().required =~= command_table()[1].required);
        assert(models(r@)[1] == command_table()[1]);
        assert(r@[2].model().path =~= command_table()[2].path);
        assert(r@[2].model().flags =~= command_table()[2].flags);
        assert(r@[2].model().required =~= command_table()[2].required);
        assert(models(r@)[2] == command_table()[2]);
        assert(r@[3].model().path =~= command_table()[3].path);
        assert(r@[3].model().flags =~= command_table()[3].flags);
        assert(r@[3].model().required =~= command_table()[3].required);
        assert(models(r@)[3] == command_table()[3]);
        assert(r@[4].model().path =~= command_table()[4].path);
        assert(r@[4].model().flags =~= command_table()[4].flags);
        assert(r@[4].model().required =~= command_table()[4].required);
        assert(models(r@)[4] == command_table()[4]);
        assert(r@[5].model().path =~= command_table()[5].path);
        assert(r@[5].model().flags =~= command_table()[5].flags);
        assert(r@[5].model().required =~= command_table()[5].required);
        assert(models(r@)[5] == command_table()[5]);
        assert(r@[6].model().path =~= command_table()[6].path);
        assert(r@[6].model().flags =~= command_table()[6].flags);
        assert(r@[6].model().required =~= command_table()[6].required);
        assert(models(r@)[6] == command_table()[6]);
        assert(r@[7].model().path =~= command_table()[7].path);
        assert(r@[7].model().flags =~= command_table()[7].flags);
        assert(r@[7].model().required =~= command_table()[7].required);
        assert(models(r@)[7] == command_table()[7]);
        assert(r@[8].model().path =~= command_table()[8].path);
        assert(r@[8].model().flags =~= command_table()[8].flags);
        assert(r@[8].model().required =~= command_table()[8].required);
        assert(models(r@)[8] == command_table()[8]);
        assert(models(r@) =~= command_table());
    }
    r
}

/// A usage error: reported on stderr, exit 2, nothing read.
#[derive(Debug, Clone, PartialEq, Eq)]
pub struct Usage(pub String);

/// What was asked for.
#[derive(Debug)]
pub enum Invocation {
    Help,
    Command(Parsed),
}

/// A command with its flag values, in the order given.
#[derive(Debug)]
pub struct Parsed {
    pub command: CommandSpec,
    values: Vec<(String, String)>,
}

/// What the grammar makes of the arguments: help, a command (its place in
/// [`command_table`] and each flag with its value, in the order given), or
/// a usage error with its message.
pub enum ParseOutcome {
    Help,
    Command { cmd: int, pairs: Seq<(Seq<char>, Seq<char>)> },
    Refused { message: Seq<char> },
}

/// A text that starts with `--`.
pub open spec fn starts_dashes(s: Seq<char>) -> bool {
    s.len() >= 2 && s[0] == '-' && s[1] == '-'
}

/// The command path is the start of the arguments.
pub open spec fn path_matches(path: Seq<Seq<char>>, argv: Seq<Seq<char>>) -> bool {
    path.len() <= argv.len() && forall|i: int| 0 <= i < path.len() ==> #[trigger] path[i] == argv[i]
}

/// Among the first `n` commands, the last of the longest whose path starts
/// the arguments.
pub open spec fn best_match(t: Seq<CommandModel>, argv: Seq<Seq<char>>, n: int) -> Option<int>
    decreases n,
{
    if n <= 0 {
        None
    } else {
        let prev = best_match(t, argv, n - 1);
        if path_matches(t[n - 1].path, argv) && (prev is None || t[prev->0].path.len()
            <= t[n - 1].path.len()) {
            Some(n - 1)
        } else {
            prev
        }
    }
}

/// The first flag from the `i`th on that is named `name`.
pub open spec fn flag_index(flags: Seq<(Seq<char>, Arity)>, name: Seq<char>, i: int) -> Option<int>
    decreases flags.len() - i,
{
    if i < 0 || i >= flags.len() {
        None
    } else if flags[i].0 == name {
        Some(i)
    } else {
        flag_index(flags, name, i + 1)
    }
}

/// Whether `flag` was given.
pub open spec fn has_pair(pairs: Seq<(Seq<char>, Seq<char>)>, flag: Seq<char>) -> bool {
    exists|j: int| 0 <= j < pairs.len() && (#[trigger] pairs[j]).0 == flag
}

/// The first required flag from the `i`th on that was not given.
pub open spec fn first_missing(
    required: Seq<Seq<char>>,
    pairs: Seq<(Seq<char>, Seq<char>)>,
    i: int,
) -> Option<int>
    decreases required.len() - i,
{
    if i < 0 || i >= required.len() {
        None
    } else if !has_pair(pairs, required[i]) {
        Some(i)
    } else {
        first_missing(required, pairs, i + 1)
    }
}

/// Texts joined by single spaces.
pub open spec fn join_space(p: Seq<Seq<char>>) -> Seq<char>
    decreases p.len(),
{
    if p.len() == 0 {
        Seq::empty()
    } else if p.len() == 1 {
        p[0]
    } else {
        join_space(p.drop_last()) + " "@ + p.last()
    }
}

/// The best match is one of the first `n` commands, and it matches.
proof fn lemma_best_match(t: Seq<CommandModel>, argv: Seq<Seq<char>>, n: int)
    ensures
        best_match(t, argv, n) matches Some(b) ==> 0 <= b < n && path_matches(t[b].path, argv),
    decreases n,
{
    if n > 0 {
        lemma_best_match(t, argv, n - 1);
    }
}

/// The flags of command `cmd` read from the `k`th argument on, with
/// `pairs` read so far.
pub open spec fn scan(
    c: CommandModel,
    argv: Seq<Seq<char>>,
    k: int,
    pairs: Seq<(Seq<char>, Seq<char>)>,
    cmd: int,
) -> ParseOutcome
    decreases argv.len() - k,
{
    if k < 0 || k >= argv.len() {
        match first_missing(c.required, pairs, 0) {
            Some(i) => ParseOutcome::Refused { message: "--"@ + c.required[i] + " is required"@ },
            None => ParseOutcome::Command { cmd, pairs },
        }
    } else if !starts_dashes(argv[k]) {
        ParseOutcome::Refused { message: "unexpected argument "@ + debug_text(argv[k]) }
    } else {
        let name = argv[k].skip(2);
        if name == "help"@ {
            ParseOutcome::Help
        } else {
            match flag_index(c.flags, name, 0) {
                None => ParseOutcome::Refused {
                    message: join_space(c.path) + " takes no flag --"@ + name,
                },
                Some(f) => {
                    let flag = c.flags[f].0;
                    if k + 1 >= argv.len() || starts_dashes(argv[k + 1]) {
                        ParseOutcome::Refused { message: "--"@ + flag + " needs a value"@ }
                    } else if c.flags[f].1 == Arity::One && has_pair(pairs, flag) {
                        ParseOutcome::Refused { message: "--"@ + flag + " may be given once"@ }
                    } else {
                        scan(c, argv, k + 2, pairs.push((flag, argv[k + 1])), cmd)
                    }
                },
            }
        }
    }
}

/// What the grammar makes of the arguments after the program name.
pub open spec fn parse_model(t: Seq<CommandModel>, argv: Seq<Seq<char>>) -> ParseOutcome {
    if argv.len() == 0 {
        ParseOutcome::Refused { message: "no command; run `rustev help`"@ }
    } else if argv[0] == "help"@ || argv[0] == "--help"@ {
        ParseOutcome::Help
    } else {
        match best_match(t, argv, t.len() as int) {
            None => if argv.len() > 1 && argv[1] == "--help"@ {
                ParseOutcome::Help
            } else {
                ParseOutcome::Refused { message: "unknown command "@ + debug_text(argv[0]) }
            },
            Some(i) => scan(t[i], argv, t[i].path.len() as int, Seq::empty(), i),
        }
    }
}

impl Parsed {
    /// Each flag given with its value, in the order given.
    pub closed spec fn pairs(self) -> Seq<(Seq<char>, Seq<char>)> {
        pair_texts(self.values@)
    }

    /// The command, as texts.
    pub closed spec fn command_model(self) -> CommandModel {
        self.command.model()
    }
}

/// `r` is what the grammar made of the arguments.
pub open spec fn invocation_is(r: Result<Invocation, Usage>, o: ParseOutcome) -> bool {
    match o {
        ParseOutcome::Help => r matches Ok(Invocation::Help),
        ParseOutcome::Command { cmd, pairs } => r matches Ok(Invocation::Command(p))
            && p.command_model() == command_table()[cmd] && p.pairs() == pairs,
        ParseOutcome::Refused { message } => r matches Err(u) && u.0@ == message,
    }
}

/// Whether `s` starts with `--`.
fn has_dashes(s: &str) -> (r: bool)
    ensures
        r == starts_dashes(s@),
{
    s.unicode_len() >= 2 && s.get_char(0) == '-' && s.get_char(1) == '-'
}

/// Whether the path starts the arguments.
fn matches_path(path: &Vec<&'static str>, argv: &[String]) -> (r: bool)
    ensures
        r == path_matches(name_texts(path@), texts(argv@)),
{
    let ghost p = name_texts(path@);
    let ghost a = texts(argv@);
    if path.len() > argv.len() {
        return false;
    }
    let mut i: usize = 0;
    while i < path.len()
        invariant
            p == name_texts(path@),
            a == texts(argv@),
            path@.len() <= argv@.len(),
            i <= path@.len(),
            forall|j: int| 0 <= j < i ==> #[trigger] p[j] == a[j],
        decreases path@.len() - i,
    {
        if !str_eq(path[i], argv[i].as_str()) {
            proof {
                assert(p[i as int] != a[i as int]);
            }
            return false;
        }
        i = i + 1;
    }
    true
}

/// The first flag named `name`.
fn find_flag(flags: &Vec<(&'static str, Arity)>, name: &str) -> (r: Option<usize>)
    ensures
        r matches Some(i) ==> i < flags@.len() && flag_index(flag_texts(flags@), name@, 0) == Some(
            i as int,
        ),
        r is None ==> flag_index(flag_texts(flags@), name@, 0) is None,
{
    let ghost fl = flag_texts(flags@);
    let mut i: usize = 0;
    while i < flags.len()
        invariant
            fl == flag_texts(flags@),
            i <= flags@.len(),
            flag_index(fl, name@, 0) == flag_index(fl, name@, i as int),
        decreases flags@.len() - i,
    {
        if str_eq(flags[i].0, name) {
            return Some(i);
        }
        i = i + 1;
    }
    None
}

/// The flags and values given.
pub open spec fn pair_texts(v: Seq<(String, String)>) -> Seq<(Seq<char>, Seq<char>)> {
    v.map_values(|p: (String, String)| (p.0@, p.1@))
}

/// Whether `flag` was given.
fn given(values: &Vec<(String, String)>, flag: &str) -> (r: bool)
    ensures
        r == has_pair(pair_texts(values@), flag@),
{
    let ghost pv = pair_texts(values@);
    let mut i: usize = 0;
    while i < values.len()
        invariant
            pv == pair_texts(values@),
            i <= values@.len(),
            forall|j: int| 0 <= j < i ==> (#[trigger] pv[j]).0 != flag@,
        decreases values@.len() - i,
    {
        if str_eq(values[i].0.as_str(), flag) {
            proof {
                assert(pv[i as int].0 == flag@);
            }
            return true;
        }
        i = i + 1;
    }
    false
}

/// The command path joined by spaces.
fn path_name(path: &Vec<&'static str>) -> (r: String)
    ensures
        r@ == join_space(name_texts(path@)),
{
    let ghost p = name_texts(path@);
    let mut r = String::new();
    let mut i: usize = 0;
    while i < path.len()
        invariant
            p == name_texts(path@),
            i <= path@.len(),
            r@ == join_space(p.take(i as int)),
        decreases path@.len() - i,
    {
        proof {
            assert(p.take(i + 1).drop_last() =~= p.take(i as int));
        }
        if i > 0 {
            r.append(" ");
        }
        r.append(path[i]);
        proof {
            if i == 0 {
                assert(r@ =~= p.take(1)[0]);
            }
        }
        i = i + 1;
    }
    proof {
        assert(p.take(path@.len() as int) =~= p);
    }
    r
}

/// Parse the arguments after the program name.
pub fn parse(argv: &[String]) -> (r: Result<Invocation, Usage>)
    ensures
        invocation_is(r, parse_model(command_table(), texts(argv@))),
{
    let ghost a = texts(argv@);
    let ghost t = command_table();
    let n = argv.len();
    if n == 0 {
        return Err(Usage(String::from_str("no command; run `rustev help`")));
    }
    proof {
        assert(a[0] == argv@[0]@);
        if n > 1 {
            assert(a[1] == argv@[1]@);
        }
    }
    if str_eq(argv[0].as_str(), "help") || str_eq(argv[0].as_str(), "--help") {
        return Ok(Invocation::Help);
    }
    let mut table = commands();
    let mut best: Option<usize> = None;
    let mut i: usize = 0;
    while i < table.len()
        invariant
            models(table@) == t,
            a == texts(argv@),
            i <= table@.len(),
            match best_match(t, a, i as int) {
                Some(b) => best == Some(b as usize),
                None => best is None,
            },
        decreases table@.len() - i,
    {
        proof {
            assert(t[i as int] == table@[i as int].model());
            lemma_best_match(t, a, i as int);
        }
        if matches_path(&table[i].path, argv) {
            match best {
                None => {
                    best = Some(i);
                },
                Some(b) => {
                    proof {
                        assert(t[b as int] == table@[b as int].model());
                    }
                    if table[b].path.len() <= table[i].path.len() {
                        best = Some(i);
                    }
                },
            }
        }
        i = i + 1;
    }
    let bi = match best {
        None => {
            if n > 1 && str_eq(argv[1].as_str(), "--help") {
                return Ok(Invocation::Help);
            }
            return Err(Usage(join("unknown command ", debug_quoted(argv[0].as_str()).as_str())));
        },
        Some(b) => b,
    };
    proof {
        lemma_best_match(t, a, t.len() as int);
        assert(t[bi as int] == table@[bi as int].model());
    }
    let c = table.remove(bi);
    let ghost cm = c.model();
    proof {
        assert(cm == t[bi as int]);
        assert(parse_model(t, a) == scan(cm, a, cm.path.len() as int, Seq::empty(), bi as int));
    }
    let plen = c.path.len();
    proof {
        assert(plen == cm.path.len());
    }
    let mut k: usize = plen;
    let mut values: Vec<(String, String)> = Vec::new();
    proof {
        assert(pair_texts(values@) =~= Seq::<(Seq<char>, Seq<char>)>::empty());
    }
    while k < n
        invariant
            cm == c.model(),
            a == texts(argv@),
            n == argv@.len(),
            k <= n,
            parse_model(command_table(), a) == scan(cm, a, plen as int, Seq::empty(), bi as int),
            scan(cm, a, plen as int, Seq::empty(), bi as int) == scan(
                cm,
                a,
                k as int,
                pair_texts(values@),
                bi as int,
            ),
        decreases n - k,
    {
        let arg = argv[k].as_str();
        proof {
            assert(a[k as int] == arg@);
        }
        if !has_dashes(arg) {
            let d = debug_quoted(arg);
            let m = join("unexpected argument ", d.as_str());
            proof {
                assert(k < a.len());
                assert(!starts_dashes(a[k as int]));
                assert(scan(cm, a, k as int, pair_texts(values@), bi as int) == ParseOutcome::Refused {
                    message: "unexpected argument "@ + debug_text(a[k as int]),
                });
                assert(m@ == "unexpected argument "@ + debug_text(a[k as int]));
            }
            return Err(Usage(m));
        }
        let name = arg.substring_char(2, arg.unicode_len());
        proof {
            assert(name@ =~= a[k as int].skip(2));
            assert(k < a.len());
            assert(starts_dashes(a[k as int]));
        }
        if str_eq(name, "help") {
            return Ok(Invocation::Help);
        }
        let f = match find_flag(&c.flags, name) {
            None => {
                let who = path_name(&c.path);
                return Err(Usage(join3(who.as_str(), " takes no flag --", name)));
            },
            Some(f) => f,
        };
        let flag = c.flags[f].0;
        let arity = c.flags[f].1;
        proof {
            assert(cm.flags[f as int] == (flag@, arity));
            if k + 1 < n {
                assert(a[k + 1] == argv@[k + 1]@);
            }
        }
        if k + 1 >= n || has_dashes(argv[k + 1].as_str()) {
            proof {
                assert(flag_index(cm.flags, a[k as int].skip(2), 0) == Some(f as int));
                assert(k + 1 >= a.len() || starts_dashes(a[k + 1]));
            }
            return Err(Usage(join3("--", flag, " needs a value")));
        }
        let once = match arity {
            Arity::One => true,
            Arity::Many => false,
        };
        if once && given(&values, flag) {
            return Err(Usage(join3("--", flag, " may be given once")));
        }
        let ghost before = pair_texts(values@);
        values.push((String::from_str(flag), argv[k + 1].clone()));
        proof {
            assert(pair_texts(values@) =~= before.push((cm.flags[f as int].0, a[k + 1])));
        }
        k = k + 2;
    }
    let mut j: usize = 0;
    while j < c.required.len()
        invariant
            cm == c.model(),
            a == texts(argv@),
            n == argv@.len(),
            k == n,
            parse_model(command_table(), a) == scan(cm, a, plen as int, Seq::empty(), bi as int),
            scan(cm, a, plen as int, Seq::empty(), bi as int) == scan(
                cm,
                a,
                k as int,
                pair_texts(values@),
                bi as int,
            ),
            j <= c.required@.len(),
            first_missing(cm.required, pair_texts(values@), 0) == first_missing(
                cm.required,
                pair_texts(values@),
                j as int,
            ),
        decreases c.required@.len() - j,
    {
        proof {
            assert(cm.required[j as int] == c.required@[j as int]@);
        }
        if !given(&values, c.required[j]) {
            let m = join3("--", c.required[j], " is required");
            proof {
                assert(first_missing(cm.required, pair_texts(values@), j as int) == Some(j as int));
                assert(k >= a.len());
                assert(scan(cm, a, k as int, pair_texts(values@), bi as int) == ParseOutcome::Refused {
                    message: "--"@ + cm.required[j as int] + " is required"@,
                });
            }
            return Err(Usage(m));
        }
        j = j + 1;
    }
    let p = Parsed { command: c, values };
    proof {
        assert(p.pairs() == pair_texts(p.values@));
        assert(p.command_model() == cm);
    }
    Ok(Invocation::Command(p))
}

/// A usage error with message `msg`.
pub fn usage<T>(msg: String) -> (r: Result<T, Usage>)
    ensures
        r matches Err(u) && u.0 == msg,
{
    Err(Usage(msg))
}

/// Unsigned decimal ASCII: at least one digit, digits only, no leading
/// zero but in `0` itself, within `u64`.
pub open spec fn uint_value(b: Seq<u8>) -> Option<u64> {
    if b.len() > 0 && all_digits(b) && (b.len() == 1 || b[0] != 48) && digits_val(b)
        <= u64::MAX {
        Some(digits_val(b) as u64)
    } else {
        None
    }
}

/// Unsigned decimal ASCII: no sign, no leading zeros except `0`, within
/// `u64`.
pub fn uint(s: &str) -> (r: Option<u64>)
    ensures
        r == uint_value(s.spec_bytes()),
{
    let b = s.as_bytes();
    let n = b.len();
    if n == 0 || (n > 1 && b[0] == 48u8) {
        return None;
    }
    let mut i: usize = 0;
    while i < n
        invariant
            n == b@.len(),
            b@ == s.spec_bytes(),
            i <= n,
            forall|j: int| 0 <= j < i ==> is_digit(#[trigger] b@[j]),
        decreases n - i,
    {
        if b[i] < 48u8 || b[i] > 57u8 {
            proof {
                assert(!is_digit(b@[i as int]));
                assert(!all_digits(b@));
            }
            return None;
        }
        i = i + 1;
    }
    proof {
        assert(all_digits(b@));
    }
    let mut v: u64 = 0;
    let mut k: usize = 0;
    proof {
        assert(b@.take(0) =~= Seq::<u8>::empty());
    }
    while k < n
        invariant
            n == b@.len(),
            b@ == s.spec_bytes(),
            k <= n,
            all_digits(b@),
            v == digits_val(b@.take(k as int)),
        decreases n - k,
    {
        let d = (b[k] - 48u8) as u64;
        proof {
            assert(b@.take(k + 1).drop_last() =~= b@.take(k as int));
            assert(b@.take(k + 1).last() == b@[k as int]);
            assert(is_digit(b@[k as int]));
        }
        if v > (u64::MAX - d) / 10 {
            proof {
                assert(v * 10 + d > u64::MAX) by (nonlinear_arith)
                    requires
                        v > (u64::MAX - d) / 10,
                        d <= 9,
                ;
                assert(digits_val(b@.take(k + 1)) == v * 10 + d);
                lemma_digits_val_prefix(b@, k + 1);
                assert(digits_val(b@) > u64::MAX);
            }
            return None;
        }
        proof {
            assert(v * 10 + d <= u64::MAX) by (nonlinear_arith)
                requires
                    v <= (u64::MAX - d) / 10,
                    d <= 9,
            ;
        }
        v = v * 10 + d;
        k = k + 1;
    }
    proof {
        assert(b@.take(n as int) =~= b@);
    }
    Some(v)
}

/// The first value given for `flag` from the `i`th pair on.
pub open spec fn first_value(pairs: Seq<(Seq<char>, Seq<char>)>, flag: Seq<char>, i: int) -> Option<
    Seq<char>,
>
    decreases pairs.len() - i,
{
    if i < 0 || i >= pairs.len() {
        None
    } else if pairs[i].0 == flag {
        Some(pairs[i].1)
    } else {
        first_value(pairs, flag, i + 1)
    }
}

/// Every value given for `flag`, in the order given.
pub open spec fn values_for(pairs: Seq<(Seq<char>, Seq<char>)>, flag: Seq<char>) -> Seq<Seq<char>>
    decreases pairs.len(),
{
    if pairs.len() == 0 {
        Seq::empty()
    } else {
        let rest = values_for(pairs.drop_last(), flag);
        if pairs.last().0 == flag {
            rest.push(pairs.last().1)
        } else {
            rest
        }
    }
}

/// What `--{flag}` with an out-of-range or malformed value is told.
pub open spec fn uint_refusal(flag: Seq<char>, min: u64, max: u64, s: Seq<char>) -> Seq<char> {
    "--"@ + flag + " takes an unsigned decimal integer in "@ + decimal_text(min as nat) + "..="@
        + decimal_text(max as nat) + ", not "@ + debug_text(s)
}

/// The first of `flags` from the `i`th on that was given (`given`) or
/// was not (`!given`).
pub open spec fn first_with(
    flags: Seq<Seq<char>>,
    pairs: Seq<(Seq<char>, Seq<char>)>,
    given: bool,
    i: int,
) -> Option<int>
    decreases flags.len() - i,
{
    if i < 0 || i >= flags.len() {
        None
    } else if has_pair(pairs, flags[i]) == given {
        Some(i)
    } else {
        first_with(flags, pairs, given, i + 1)
    }
}

/// `r` is `m`, a usage error standing for its message.
pub open spec fn usage_is<T>(r: Result<T, Usage>, m: Result<T, Seq<char>>) -> bool {
    match m {
        Ok(v) => r == Ok::<T, Usage>(v),
        Err(msg) => r matches Err(u) && u.0@ == msg,
    }
}

/// What [`Parsed::uint`] makes of `flag`.
pub open spec fn uint_flag(
    pairs: Seq<(Seq<char>, Seq<char>)>,
    flag: Seq<char>,
    min: u64,
    max: u64,
) -> Result<Option<u64>, Seq<char>> {
    match first_value(pairs, flag, 0) {
        None => Ok(None),
        Some(s) => match uint_value(encode_utf8(s)) {
            Some(v) => if min <= v <= max {
                Ok(Some(v))
            } else {
                Err(uint_refusal(flag, min, max, s))
            },
            None => Err(uint_refusal(flag, min, max, s)),
        },
    }
}

/// What [`Parsed::forbid`] makes of `flags`: the first given is refused.
pub open spec fn forbid_flags(
    pairs: Seq<(Seq<char>, Seq<char>)>,
    flags: Seq<Seq<char>>,
    why: Seq<char>,
) -> Result<(), Seq<char>> {
    match first_with(flags, pairs, true, 0) {
        Some(i) => Err("--"@ + flags[i] + " "@ + why),
        None => Ok(()),
    }
}

/// What [`Parsed::need`] makes of `flags`: the first missing is refused.
pub open spec fn need_flags(
    pairs: Seq<(Seq<char>, Seq<char>)>,
    flags: Seq<Seq<char>>,
    why: Seq<char>,
) -> Result<(), Seq<char>> {
    match first_with(flags, pairs, false, 0) {
        Some(i) => Err("--"@ + flags[i] + " is required "@ + why),
        None => Ok(()),
    }
}

/// The texts of a list of flag names.
pub open spec fn strs(v: Seq<&str>) -> Seq<Seq<char>> {
    v.map_values(|s: &str| s@)
}

impl Parsed {
    /// The command path joined by spaces, as the output names it.
    pub fn name(&self) -> (r: String)
        ensures
            r@ == join_space(self.command_model().path),
    {
        path_name(&self.command.path)
    }

    /// The first value of `flag`.
    pub fn one(&self, flag: &str) -> (r: Option<&str>)
        ensures
            match first_value(self.pairs(), flag@, 0) {
                Some(v) => r matches Some(x) && x@ == v,
                None => r is None,
            },
    {
        let ghost pv = self.pairs();
        let mut i: usize = 0;
        while i < self.values.len()
            invariant
                pv == pair_texts(self.values@),
                i <= self.values@.len(),
                first_value(pv, flag@, 0) == first_value(pv, flag@, i as int),
            decreases self.values@.len() - i,
        {
            if str_eq(self.values[i].0.as_str(), flag) {
                return Some(self.values[i].1.as_str());
            }
            i = i + 1;
        }
        None
    }

    /// Every value of `flag`, in the order given.
    pub fn many(&self, flag: &str) -> (r: Vec<String>)
        ensures
            texts(r@) == values_for(self.pairs(), flag@),
    {
        let ghost pv = self.pairs();
        let mut r: Vec<String> = Vec::new();
        let mut i: usize = 0;
        proof {
            assert(pv.take(0) =~= Seq::<(Seq<char>, Seq<char>)>::empty());
            assert(texts(r@) =~= Seq::<Seq<char>>::empty());
        }
        while i < self.values.len()
            invariant
                pv == pair_texts(self.values@),
                i <= self.values@.len(),
                texts(r@) == values_for(pv.take(i as int), flag@),
            decreases self.values@.len() - i,
        {
            proof {
                assert(pv.take(i + 1).drop_last() =~= pv.take(i as int));
                assert(pv.take(i + 1).last() == pv[i as int]);
            }
            if str_eq(self.values[i].0.as_str(), flag) {
                let ghost before = texts(r@);
                r.push(self.values[i].1.clone());
                proof {
                    assert(texts(r@) =~= before.push(pv[i as int].1));
                }
            }
            i = i + 1;
        }
        proof {
            assert(pv.take(self.values@.len() as int) =~= pv);
        }
        r
    }

    /// Whether `flag` was given.
    pub fn has(&self, flag: &str) -> (r: bool)
        ensures
            r == has_pair(self.pairs(), flag@),
    {
        given(&self.values, flag)
    }

    /// A required flag's value; the parser has already checked presence.
    /// Empty when the flag was not given.
    pub fn req(&self, flag: &str) -> (r: &str)
        ensures
            match first_value(self.pairs(), flag@, 0) {
                Some(v) => r@ == v,
                None => r@ == Seq::<char>::empty(),
            },
    {
        match self.one(flag) {
            Some(v) => v,
            None => {
                proof {
                    reveal_strlit("");
                }
                ""
            },
        }
    }

    /// An optional unsigned integer flag within `[min, max]`.
    pub fn uint(&self, flag: &str, min: u64, max: u64) -> (r: Result<Option<u64>, Usage>)
        ensures
            usage_is(r, uint_flag(self.pairs(), flag@, min, max)),
    {
        let s = match self.one(flag) {
            None => {
                return Ok(None);
            },
            Some(s) => s,
        };
        match uint(s) {
            Some(v) => {
                if min <= v && v <= max {
                    return Ok(Some(v));
                }
            },
            None => {},
        }
        let mut m = join3("--", flag, " takes an unsigned decimal integer in ");
        m.append(u64_text(min).as_str());
        m.append("..=");
        m.append(u64_text(max).as_str());
        m.append(", not ");
        m.append(debug_quoted(s).as_str());
        Err(Usage(m))
    }

    /// Refuse each of `flags` that was given, naming `why`: the first such
    /// flag is named.
    pub fn forbid(&self, flags: &[&str], why: &str) -> (r: Result<(), Usage>)
        ensures
            usage_is(r, forbid_flags(self.pairs(), strs(flags@), why@)),
    {
        let ghost fv = strs(flags@);
        let mut i: usize = 0;
        while i < flags.len()
            invariant
                fv == strs(flags@),
                i <= flags@.len(),
                first_with(fv, self.pairs(), true, 0) == first_with(fv, self.pairs(), true, i as int),
            decreases flags@.len() - i,
        {
            if self.has(flags[i]) {
                let mut m = join3("--", flags[i], " ");
                m.append(why);
                return Err(Usage(m));
            }
            i = i + 1;
        }
        Ok(())
    }

    /// Require each of `flags`, naming `why`: the first missing flag is
    /// named.
    pub fn need(&self, flags: &[&str], why: &str) -> (r: Result<(), Usage>)
        ensures
            usage_is(r, need_flags(self.pairs(), strs(flags@), why@)),
    {
        let ghost fv = strs(flags@);
        let mut i: usize = 0;
        while i < flags.len()
            invariant
                fv == strs(flags@),
                i <= flags@.len(),
                first_with(fv, self.pairs(), false, 0) == first_with(fv, self.pairs(), false, i as int),
            decreases flags@.len() - i,
        {
            if !self.has(flags[i]) {
                let mut m = join3("--", flags[i], " is required ");
                m.append(why);
                return Err(Usage(m));
            }
            i = i + 1;
        }
        Ok(())
    }
}

/// The arity of a declared flag.
pub open spec fn arity_of(c: CommandModel, flag: Seq<char>) -> Arity {
    match flag_index(c.flags, flag, 0) {
        Some(f) => c.flags[f].1,
        None => Arity::Many,
    }
}

/// Flags and values as the grammar admits them for command `c`: each flag
/// declared, no value that starts with `--`, and a flag taken at most once
/// given once.
pub open spec fn pairs_admitted(c: CommandModel, pairs: Seq<(Seq<char>, Seq<char>)>) -> bool {
    &&& forall|i: int| 0 <= i < pairs.len() ==> #[trigger] flag_index(c.flags, pairs[i].0, 0) is Some
    &&& forall|i: int| 0 <= i < pairs.len() ==> !starts_dashes(#[trigger] pairs[i].1)
    &&& forall|i: int, j: int|
        0 <= i < j < pairs.len() && (#[trigger] pairs[i]).0 == (#[trigger] pairs[j]).0
            ==> arity_of(c, pairs[j].0) == Arity::Many
}

/// Every required flag of `c` was given.
pub open spec fn required_given(c: CommandModel, pairs: Seq<(Seq<char>, Seq<char>)>) -> bool {
    forall|i: int| 0 <= i < c.required.len() ==> has_pair(pairs, #[trigger] c.required[i])
}

proof fn lemma_flag_index(flags: Seq<(Seq<char>, Arity)>, name: Seq<char>, i: int)
    ensures
        flag_index(flags, name, i) matches Some(j) ==> i <= j < flags.len() && flags[j].0 == name,
    decreases flags.len() - i,
{
    if 0 <= i < flags.len() && flags[i].0 != name {
        lemma_flag_index(flags, name, i + 1);
    }
}

proof fn lemma_first_missing(required: Seq<Seq<char>>, pairs: Seq<(Seq<char>, Seq<char>)>, i: int)
    requires
        0 <= i,
        first_missing(required, pairs, i) is None,
    ensures
        forall|j: int| i <= j < required.len() ==> has_pair(pairs, #[trigger] required[j]),
    decreases required.len() - i,
{
    if i < required.len() {
        lemma_first_missing(required, pairs, i + 1);
    }
}

proof fn lemma_scan_admits(
    c: CommandModel,
    argv: Seq<Seq<char>>,
    k: int,
    pairs: Seq<(Seq<char>, Seq<char>)>,
    cmd: int,
)
    requires
        pairs_admitted(c, pairs),
    ensures
        scan(c, argv, k, pairs, cmd) matches ParseOutcome::Command { cmd: n, pairs: p } ==> n == cmd
            && pairs_admitted(c, p) && required_given(c, p),
    decreases argv.len() - k,
{
    if k < 0 || k >= argv.len() {
        if first_missing(c.required, pairs, 0) is None {
            lemma_first_missing(c.required, pairs, 0);
        }
    } else if starts_dashes(argv[k]) {
        let name = argv[k].skip(2);
        if name != "help"@ {
            lemma_flag_index(c.flags, name, 0);
            match flag_index(c.flags, name, 0) {
                None => {},
                Some(f) => {
                    let flag = c.flags[f].0;
                    if !(k + 1 >= argv.len() || starts_dashes(argv[k + 1])) && !(c.flags[f].1
                        == Arity::One && has_pair(pairs, flag)) {
                        let next = pairs.push((flag, argv[k + 1]));
                        assert(flag_index(c.flags, flag, 0) == Some(f));
                        assert forall|i: int, j: int|
                            0 <= i < j < next.len() && (#[trigger] next[i]).0 == (
                            #[trigger] next[j]).0 implies arity_of(c, next[j].0) == Arity::Many by {
                            if j == pairs.len() {
                                assert(next[i] == pairs[i]);
                                if c.flags[f].1 == Arity::One {
                                    assert(has_pair(pairs, flag));
                                }
                            } else {
                                assert(next[i] == pairs[i] && next[j] == pairs[j]);
                            }
                        }
                        assert forall|i: int| 0 <= i < next.len() implies #[trigger] flag_index(
                            c.flags,
                            next[i].0,
                            0,
                        ) is Some by {
                            if i < pairs.len() {
                                assert(next[i] == pairs[i]);
                            }
                        }
                        assert forall|i: int| 0 <= i < next.len() implies !starts_dashes(
                            #[trigger] next[i].1,
                        ) by {
                            if i < pairs.len() {
                                assert(next[i] == pairs[i]);
                            }
                        }
                        lemma_scan_admits(c, argv, k + 2, next, cmd);
                    }
                },
            }
        }
    }
}

/// What the grammar admits as a command is well formed: it is a command of
/// the table, every flag given is one it declares, no value starts with
/// `--`, a flag taken at most once was given once, and every required flag
/// was given.
pub proof fn law_admitted_commands_are_well_formed(argv: Seq<Seq<char>>)
    ensures
        parse_model(command_table(), argv) matches ParseOutcome::Command { cmd, pairs } ==> 0 <= cmd
            < command_table().len() && pairs_admitted(command_table()[cmd], pairs)
            && required_given(command_table()[cmd], pairs),
{
    let t = command_table();
    lemma_best_match(t, argv, t.len() as int);
    if argv.len() > 0 && !(argv[0] == "help"@ || argv[0] == "--help"@) {
        match best_match(t, argv, t.len() as int) {
            Some(i) => {
                lemma_scan_admits(t[i], argv, t[i].path.len() as int, Seq::empty(), i);
            },
            None => {},
        }
    }
}

} // verus!
