use vstd::prelude::*;

use crate::model::opt_str;
use crate::text::{chars_of, push_str, str_eq, string_from_chars};

verus! {

/// The subcommands of the extractor.
#[derive(Debug, Clone, Copy, PartialEq, Eq, Structural)]
pub enum Subcommand {
    Fts,
    RustFile,
    RustFileDeleted,
    RustCrate,
    RustWorkspace,
    SoulFile,
    SoulWorkspace,
    CSharpFile,
    CSharpFileDeleted,
    CSharpProject,
    CSharpSolution,
}

/// The options of the subcommands that take a value.
#[derive(Debug, Clone, Copy, PartialEq, Eq, Structural)]
pub enum ValueOption {
    Db,
    WorkspaceRoot,
    AnalysisWorkers,
    Solution,
    CSharpLs,
    ProcessWorkers,
}

/// The options of the subcommands that are flags.
#[derive(Debug, Clone, Copy, PartialEq, Eq, Structural)]
pub enum FlagOption {
    Calls,
    References,
    Symbols,
    NoRust,
    NoCsharp,
    NoSubmodules,
}

/// The subcommand a name selects.
pub open spec fn spec_subcommand(name: Seq<char>) -> Option<Subcommand> {
    if name == "fts"@ {
        Some(Subcommand::Fts)
    } else if name == "rust-file"@ {
        Some(Subcommand::RustFile)
    } else if name == "rust-file-deleted"@ {
        Some(Subcommand::RustFileDeleted)
    } else if name == "rust-crate"@ {
        Some(Subcommand::RustCrate)
    } else if name == "rust-workspace"@ {
        Some(Subcommand::RustWorkspace)
    } else if name == "soul-file"@ {
        Some(Subcommand::SoulFile)
    } else if name == "soul-workspace"@ {
        Some(Subcommand::SoulWorkspace)
    } else if name == "csharp-file"@ {
        Some(Subcommand::CSharpFile)
    } else if name == "csharp-file-deleted"@ {
        Some(Subcommand::CSharpFileDeleted)
    } else if name == "csharp-project"@ {
        Some(Subcommand::CSharpProject)
    } else if name == "csharp-solution"@ {
        Some(Subcommand::CSharpSolution)
    } else {
        None
    }
}

/// The subcommand a name selects.
fn subcommand_named(name: &str) -> (r: Option<Subcommand>)
    ensures
        r == spec_subcommand(name@),
{
    if str_eq(name, "fts") {
        Some(Subcommand::Fts)
    } else if str_eq(name, "rust-file") {
        Some(Subcommand::RustFile)
    } else if str_eq(name, "rust-file-deleted") {
        Some(Subcommand::RustFileDeleted)
    } else if str_eq(name, "rust-crate") {
        Some(Subcommand::RustCrate)
    } else if str_eq(name, "rust-workspace") {
        Some(Subcommand::RustWorkspace)
    } else if str_eq(name, "soul-file") {
        Some(Subcommand::SoulFile)
    } else if str_eq(name, "soul-workspace") {
        Some(Subcommand::SoulWorkspace)
    } else if str_eq(name, "csharp-file") {
        Some(Subcommand::CSharpFile)
    } else if str_eq(name, "csharp-file-deleted") {
        Some(Subcommand::CSharpFileDeleted)
    } else if str_eq(name, "csharp-project") {
        Some(Subcommand::CSharpProject)
    } else if str_eq(name, "csharp-solution") {
        Some(Subcommand::CSharpSolution)
    } else {
        None
    }
}

/// The value option a long name (without its dashes) selects.
pub open spec fn spec_value_option(name: Seq<char>) -> Option<ValueOption> {
    if name == "db"@ {
        Some(ValueOption::Db)
    } else if name == "workspace-root"@ {
        Some(ValueOption::WorkspaceRoot)
    } else if name == "analysis-workers"@ {
        Some(ValueOption::AnalysisWorkers)
    } else if name == "solution"@ {
        Some(ValueOption::Solution)
    } else if name == "csharp-ls"@ {
        Some(ValueOption::CSharpLs)
    } else if name == "process-workers"@ {
        Some(ValueOption::ProcessWorkers)
    } else {
        None
    }
}

/// The value option a long name selects.
fn value_option_named(name: &str) -> (r: Option<ValueOption>)
    ensures
        r == spec_value_option(name@),
{
    if str_eq(name, "db") {
        Some(ValueOption::Db)
    } else if str_eq(name, "workspace-root") {
        Some(ValueOption::WorkspaceRoot)
    } else if str_eq(name, "analysis-workers") {
        Some(ValueOption::AnalysisWorkers)
    } else if str_eq(name, "solution") {
        Some(ValueOption::Solution)
    } else if str_eq(name, "csharp-ls") {
        Some(ValueOption::CSharpLs)
    } else if str_eq(name, "process-workers") {
        Some(ValueOption::ProcessWorkers)
    } else {
        None
    }
}

/// The flag a long name (without its dashes) selects.
pub open spec fn spec_flag_option(name: Seq<char>) -> Option<FlagOption> {
    if name == "calls"@ {
        Some(FlagOption::Calls)
    } else if name == "references"@ {
        Some(FlagOption::References)
    } else if name == "symbols"@ {
        Some(FlagOption::Symbols)
    } else if name == "no-rust"@ {
        Some(FlagOption::NoRust)
    } else if name == "no-csharp"@ {
        Some(FlagOption::NoCsharp)
    } else if name == "no-submodules"@ {
        Some(FlagOption::NoSubmodules)
    } else {
        None
    }
}

/// The flag a long name selects.
fn flag_option_named(name: &str) -> (r: Option<FlagOption>)
    ensures
        r == spec_flag_option(name@),
{
    if str_eq(name, "calls") {
        Some(FlagOption::Calls)
    } else if str_eq(name, "references") {
        Some(FlagOption::References)
    } else if str_eq(name, "symbols") {
        Some(FlagOption::Symbols)
    } else if str_eq(name, "no-rust") {
        Some(FlagOption::NoRust)
    } else if str_eq(name, "no-csharp") {
        Some(FlagOption::NoCsharp)
    } else if str_eq(name, "no-submodules") {
        Some(FlagOption::NoSubmodules)
    } else {
        None
    }
}

/// Whether a subcommand takes a value option.
pub open spec fn spec_takes_value(sub: Subcommand, opt: ValueOption) -> bool {
    match opt {
        ValueOption::Db => true,
        ValueOption::WorkspaceRoot => match sub {
            Subcommand::RustFile | Subcommand::RustFileDeleted | Subcommand::RustCrate | Subcommand::RustWorkspace
            | Subcommand::SoulFile | Subcommand::SoulWorkspace => true,
            _ => false,
        },
        ValueOption::AnalysisWorkers => match sub {
            Subcommand::Fts | Subcommand::RustCrate | Subcommand::RustWorkspace => true,
            _ => false,
        },
        ValueOption::Solution | ValueOption::CSharpLs => match sub {
            Subcommand::CSharpFile | Subcommand::CSharpFileDeleted | Subcommand::CSharpProject
            | Subcommand::CSharpSolution => true,
            _ => false,
        },
        ValueOption::ProcessWorkers => match sub {
            Subcommand::CSharpProject | Subcommand::CSharpSolution => true,
            _ => false,
        },
    }
}

/// Whether a subcommand takes a value option.
fn takes_value(sub: Subcommand, opt: ValueOption) -> (r: bool)
    ensures
        r == spec_takes_value(sub, opt),
{
    match opt {
        ValueOption::Db => true,
        ValueOption::WorkspaceRoot => match sub {
            Subcommand::RustFile | Subcommand::RustFileDeleted | Subcommand::RustCrate | Subcommand::RustWorkspace
            | Subcommand::SoulFile | Subcommand::SoulWorkspace => true,
            _ => false,
        },
        ValueOption::AnalysisWorkers => match sub {
            Subcommand::Fts | Subcommand::RustCrate | Subcommand::RustWorkspace => true,
            _ => false,
        },
        ValueOption::Solution | ValueOption::CSharpLs => match sub {
            Subcommand::CSharpFile | Subcommand::CSharpFileDeleted | Subcommand::CSharpProject
            | Subcommand::CSharpSolution => true,
            _ => false,
        },
        ValueOption::ProcessWorkers => match sub {
            Subcommand::CSharpProject | Subcommand::CSharpSolution => true,
            _ => false,
        },
    }
}

/// Whether a subcommand takes a flag.
pub open spec fn spec_takes_flag(sub: Subcommand, flag: FlagOption) -> bool {
    match flag {
        FlagOption::Calls => match sub {
            Subcommand::RustFile | Subcommand::RustCrate | Subcommand::RustWorkspace | Subcommand::CSharpFile
            | Subcommand::CSharpProject | Subcommand::CSharpSolution => true,
            _ => false,
        },
        FlagOption::References | FlagOption::Symbols => match sub {
            Subcommand::RustFile | Subcommand::RustCrate | Subcommand::RustWorkspace | Subcommand::SoulFile
            | Subcommand::SoulWorkspace | Subcommand::CSharpFile | Subcommand::CSharpProject
            | Subcommand::CSharpSolution => true,
            _ => false,
        },
        FlagOption::NoRust | FlagOption::NoCsharp | FlagOption::NoSubmodules => sub == Subcommand::Fts,
    }
}

/// Whether a subcommand takes a flag.
fn takes_flag(sub: Subcommand, flag: FlagOption) -> (r: bool)
    ensures
        r == spec_takes_flag(sub, flag),
{
    match flag {
        FlagOption::Calls => match sub {
            Subcommand::RustFile | Subcommand::RustCrate | Subcommand::RustWorkspace | Subcommand::CSharpFile
            | Subcommand::CSharpProject | Subcommand::CSharpSolution => true,
            _ => false,
        },
        FlagOption::References | FlagOption::Symbols => match sub {
            Subcommand::RustFile | Subcommand::RustCrate | Subcommand::RustWorkspace | Subcommand::SoulFile
            | Subcommand::SoulWorkspace | Subcommand::CSharpFile | Subcommand::CSharpProject
            | Subcommand::CSharpSolution => true,
            _ => false,
        },
        FlagOption::NoRust | FlagOption::NoCsharp | FlagOption::NoSubmodules => match sub {
            Subcommand::Fts => true,
            _ => false,
        },
    }
}

/// Whether a subcommand takes one positional argument, which it requires.
pub open spec fn spec_takes_positional(sub: Subcommand) -> bool {
    match sub {
        Subcommand::RustFile | Subcommand::RustFileDeleted | Subcommand::RustCrate | Subcommand::SoulFile
        | Subcommand::CSharpFile | Subcommand::CSharpFileDeleted | Subcommand::CSharpProject => true,
        _ => false,
    }
}

/// Whether a subcommand takes one positional argument.
fn takes_positional(sub: Subcommand) -> (r: bool)
    ensures
        r == spec_takes_positional(sub),
{
    match sub {
        Subcommand::RustFile | Subcommand::RustFileDeleted | Subcommand::RustCrate | Subcommand::SoulFile
        | Subcommand::CSharpFile | Subcommand::CSharpFileDeleted | Subcommand::CSharpProject => true,
        _ => false,
    }
}

/// What the arguments read so far have set.
pub struct ArgState {
    pub progress: bool,
    pub verbose: bool,
    pub sub: Option<Subcommand>,
    pub values: Seq<(ValueOption, Seq<char>)>,
    pub flags: Seq<FlagOption>,
    pub positional: Option<Seq<char>>,
    /// A value option still waiting for its value.
    pub pending: Option<ValueOption>,
}

/// Why the arguments cannot be read.
#[derive(Debug, Clone, Copy, PartialEq, Eq, Structural)]
pub enum ArgErrorKind {
    /// An argument that nothing here accepts.
    Unexpected,
    /// An option or flag given twice.
    Repeated,
    /// A value option without its value.
    MissingValue,
    /// A name that is no subcommand.
    UnknownSubcommand,
    /// No subcommand at all.
    MissingSubcommand,
    /// A subcommand without its positional argument.
    MissingPositional,
    /// A worker count that is not a number.
    InvalidNumber,
}

/// The state before any argument is read.
pub open spec fn initial_state() -> ArgState {
    ArgState {
        progress: false,
        verbose: false,
        sub: None,
        values: Seq::empty(),
        flags: Seq::empty(),
        positional: None,
        pending: None,
    }
}

/// Whether a value option has been given.
pub open spec fn has_value(values: Seq<(ValueOption, Seq<char>)>, opt: ValueOption) -> bool {
    exists|i: int| 0 <= i < values.len() && (#[trigger] values[i]).0 == opt
}

/// The value given for an option.
pub open spec fn value_of(values: Seq<(ValueOption, Seq<char>)>, opt: ValueOption) -> Option<Seq<char>>
    decreases values.len(),
{
    if values.len() == 0 {
        None
    } else if values.last().0 == opt {
        Some(values.last().1)
    } else {
        value_of(values.drop_last(), opt)
    }
}

/// Where a long option holds `=`, its name and its value.
pub open spec fn split_eq(body: Seq<char>) -> (Seq<char>, Option<Seq<char>>) {
    if exists|k: int| 0 <= k < body.len() && body[k] == '=' {
        let k = choose|k: int| 0 <= k < body.len() && body[k] == '=' && forall|j: int| 0 <= j < k ==> body[j] != '=';
        (body.subrange(0, k), Some(body.subrange(k + 1, body.len() as int)))
    } else {
        (body, None)
    }
}

/// Whether a token starts with two dashes.
pub open spec fn is_long(tok: Seq<char>) -> bool {
    tok.len() >= 2 && tok[0] == '-' && tok[1] == '-'
}

/// Sets a value option, unless it is set already.
pub open spec fn set_value(s: ArgState, opt: ValueOption, value: Seq<char>) -> Result<ArgState, ArgErrorKind> {
    if has_value(s.values, opt) {
        Err(ArgErrorKind::Repeated)
    } else {
        Ok(ArgState { values: s.values.push((opt, value)), pending: None, ..s })
    }
}

/// Reads one argument after the program name.
pub open spec fn arg_step(s: ArgState, tok: Seq<char>) -> Result<ArgState, ArgErrorKind> {
    match s.pending {
        Some(opt) => if is_long(tok) {
            Err(ArgErrorKind::MissingValue)
        } else {
            set_value(s, opt, tok)
        },
        None => if tok == "--progress"@ {
            if s.progress {
                Err(ArgErrorKind::Repeated)
            } else {
                Ok(ArgState { progress: true, ..s })
            }
        } else if tok == "--verbose"@ {
            if s.verbose {
                Err(ArgErrorKind::Repeated)
            } else {
                Ok(ArgState { verbose: true, ..s })
            }
        } else {
            match s.sub {
                None => if tok.len() > 0 && tok[0] == '-' {
                    Err(ArgErrorKind::Unexpected)
                } else {
                    match spec_subcommand(tok) {
                        Some(sub) => Ok(ArgState { sub: Some(sub), ..s }),
                        None => Err(ArgErrorKind::UnknownSubcommand),
                    }
                },
                Some(sub) => if is_long(tok) {
                    let (name, value) = split_eq(tok.subrange(2, tok.len() as int));
                    match spec_value_option(name) {
                        Some(opt) => if !spec_takes_value(sub, opt) {
                            Err(ArgErrorKind::Unexpected)
                        } else {
                            match value {
                                Some(v) => set_value(s, opt, v),
                                None => if has_value(s.values, opt) {
                                    Err(ArgErrorKind::Repeated)
                                } else {
                                    Ok(ArgState { pending: Some(opt), ..s })
                                },
                            }
                        },
                        None => match spec_flag_option(name) {
                            Some(flag) => if !spec_takes_flag(sub, flag) || value is Some {
                                Err(ArgErrorKind::Unexpected)
                            } else if s.flags.contains(flag) {
                                Err(ArgErrorKind::Repeated)
                            } else {
                                Ok(ArgState { flags: s.flags.push(flag), ..s })
                            },
                            None => Err(ArgErrorKind::Unexpected),
                        },
                    }
                } else if tok.len() > 1 && tok[0] == '-' {
                    Err(ArgErrorKind::Unexpected)
                } else if spec_takes_positional(sub) && s.positional is None {
                    Ok(ArgState { positional: Some(tok), ..s })
                } else {
                    Err(ArgErrorKind::Unexpected)
                },
            }
        },
    }
}

/// Reads the arguments after the program name, in order.
pub open spec fn read_args(toks: Seq<Seq<char>>) -> Result<ArgState, ArgErrorKind>
    decreases toks.len(),
{
    if toks.len() == 0 {
        Ok(initial_state())
    } else {
        match read_args(toks.drop_last()) {
            Err(e) => Err(e),
            Ok(s) => arg_step(s, toks.last()),
        }
    }
}

/// Whether the text is a worker count: an optional `+` and decimal
/// digits, whose value fits a `usize`.
pub open spec fn spec_parse_count(text: Seq<char>) -> Option<usize> {
    let digits = count_digits(text);
    if digits.len() > 0 && (forall|i: int| 0 <= i < digits.len() ==> '0' <= #[trigger] digits[i] <= '9')
        && digits_value(digits) <= usize::MAX {
        Some(digits_value(digits) as usize)
    } else {
        None
    }
}

/// The digits of a worker count: the text without a leading `+`.
pub open spec fn count_digits(text: Seq<char>) -> Seq<char> {
    if text.len() > 0 && text[0] == '+' {
        text.subrange(1, text.len() as int)
    } else {
        text
    }
}

/// The value of a run of decimal digits.
pub open spec fn digits_value(digits: Seq<char>) -> nat
    decreases digits.len(),
{
    if digits.len() == 0 {
        0
    } else {
        digits_value(digits.drop_last()) * 10 + ((digits.last() as u32) - 48) as nat
    }
}

/// A parsed worker count.
pub fn parse_count(text: &str) -> (r: Option<usize>)
    ensures
        r == spec_parse_count(text@),
{
    let chars = chars_of(text);
    let start: usize = if chars.len() > 0 && chars[0] == '+' {
        1
    } else {
        0
    };
    let ghost digits = count_digits(text@);
    assert(digits =~= chars@.subrange(start as int, chars@.len() as int));
    if start >= chars.len() {
        return None;
    }
    let mut value: usize = 0;
    let mut i: usize = start;
    while i < chars.len()
        invariant
            chars@ == text@,
            start <= i <= chars@.len(),
            digits == chars@.subrange(start as int, chars@.len() as int),
            digits == count_digits(text@),
            forall|j: int| start <= j < i ==> '0' <= #[trigger] chars@[j] <= '9',
            value == digits_value(chars@.subrange(start as int, i as int)),
        decreases chars@.len() - i,
    {
        let c = chars[i];
        let ghost pre = chars@.subrange(start as int, i as int);
        let ghost next = chars@.subrange(start as int, i + 1);
        assert(next.drop_last() =~= pre);
        assert(next.last() == c);
        if c < '0' || c > '9' {
            proof {
                assert(digits[i - start] == c);
                assert(!(forall|j: int| 0 <= j < digits.len() ==> '0' <= #[trigger] digits[j] <= '9'));
                assert(spec_parse_count(text@) is None);
            }
            return None;
        }
        let d: usize = (c as u32 - 48) as usize;
        if value > (usize::MAX - d) / 10 {
            proof {
                assert(digits_value(next) == value * 10 + d) by (nonlinear_arith)
                    requires
                        digits_value(next) == digits_value(pre) * 10 + d,
                        value == digits_value(pre),
                ;
                assert(value * 10 + d > usize::MAX) by (nonlinear_arith)
                    requires
                        value > (usize::MAX - d) / 10,
                        d <= 9,
                ;
                assert forall|j: int| 0 <= j < i + 1 - start implies '0' <= #[trigger] digits[j] <= '9' by {
                    assert(digits[j] == chars@[j + start]);
                }
                lemma_digits_value_prefix(digits, i + 1 - start);
                assert(digits.subrange(0, i + 1 - start) =~= next);
                assert(spec_parse_count(text@) is None);
            }
            return None;
        }
        assert(value * 10 + d <= usize::MAX) by (nonlinear_arith)
            requires
                value <= (usize::MAX - d) / 10,
                d <= 9,
        ;
        value = value * 10 + d;
        i = i + 1;
    }
    assert(chars@.subrange(start as int, i as int) =~= digits);
    Some(value)
}

/// A prefix of a run of digits has no greater value.
proof fn lemma_digits_value_prefix(digits: Seq<char>, n: int)
    requires
        0 <= n <= digits.len(),
        forall|i: int| 0 <= i < n ==> '0' <= #[trigger] digits[i] <= '9',
    ensures
        digits_value(digits.subrange(0, n)) <= digits_value(digits) || exists|i: int|
            n <= i < digits.len() && !('0' <= #[trigger] digits[i] <= '9'),
    decreases digits.len(),
{
    if n < digits.len() {
        if forall|i: int| n <= i < digits.len() ==> '0' <= #[trigger] digits[i] <= '9' {
            assert(digits.drop_last().subrange(0, n) =~= digits.subrange(0, n));
            lemma_digits_value_prefix(digits.drop_last(), n);
            assert(forall|i: int| n <= i < digits.drop_last().len() ==> digits.drop_last()[i] == digits[i]);
        }
    } else {
        assert(digits.subrange(0, n) =~= digits);
    }
}

/// The arguments read so far.
pub struct ArgReader {
    pub progress: bool,
    pub verbose: bool,
    pub sub: Option<Subcommand>,
    pub values: Vec<(ValueOption, String)>,
    pub flags: Vec<FlagOption>,
    pub positional: Option<String>,
    pub pending: Option<ValueOption>,
}

impl View for ArgReader {
    type V = ArgState;

    open spec fn view(&self) -> ArgState {
        ArgState {
            progress: self.progress,
            verbose: self.verbose,
            sub: self.sub,
            values: self.values@.map_values(|v: (ValueOption, String)| (v.0, v.1@)),
            flags: self.flags@,
            positional: opt_str(self.positional),
            pending: self.pending,
        }
    }
}

/// Whether a value option has been given.
fn has_value_exec(values: &Vec<(ValueOption, String)>, opt: ValueOption) -> (r: bool)
    ensures
        r == has_value(values@.map_values(|v: (ValueOption, String)| (v.0, v.1@)), opt),
{
    let ghost vs = values@.map_values(|v: (ValueOption, String)| (v.0, v.1@));
    let mut i: usize = 0;
    while i < values.len()
        invariant
            vs == values@.map_values(|v: (ValueOption, String)| (v.0, v.1@)),
            i <= values@.len(),
            forall|j: int| 0 <= j < i ==> vs[j].0 != opt,
        decreases values@.len() - i,
    {
        if values[i].0 == opt {
            assert(vs[i as int].0 == opt);
            return true;
        }
        i = i + 1;
    }
    false
}

/// The value given for an option.
fn value_lookup(values: &Vec<(ValueOption, String)>, opt: ValueOption) -> (r: Option<String>)
    ensures
        opt_str(r) == value_of(values@.map_values(|v: (ValueOption, String)| (v.0, v.1@)), opt),
{
    let ghost vs = values@.map_values(|v: (ValueOption, String)| (v.0, v.1@));
    let mut i: usize = values.len();
    assert(vs.take(i as int) =~= vs);
    while i > 0
        invariant
            vs == values@.map_values(|v: (ValueOption, String)| (v.0, v.1@)),
            i <= values@.len(),
            value_of(vs, opt) == value_of(vs.take(i as int), opt),
        decreases i,
    {
        assert(vs.take(i as int).drop_last() =~= vs.take(i - 1));
        assert(vs.take(i as int).last() == vs[i - 1]);
        if values[i - 1].0 == opt {
            return Some(values[i - 1].1.clone());
        }
        i = i - 1;
    }
    None
}

/// Whether a flag has been given.
fn has_flag(flags: &Vec<FlagOption>, flag: FlagOption) -> (r: bool)
    ensures
        r == flags@.contains(flag),
{
    let mut i: usize = 0;
    while i < flags.len()
        invariant
            i <= flags@.len(),
            forall|j: int| 0 <= j < i ==> flags@[j] != flag,
        decreases flags@.len() - i,
    {
        if flags[i] == flag {
            return true;
        }
        i = i + 1;
    }
    false
}

/// Splits the body of a long option at its first `=`.
fn split_at_eq(chars: &Vec<char>, start: usize) -> (r: (String, Option<String>))
    requires
        start <= chars@.len(),
    ensures
        ({
            let (name, value) = split_eq(chars@.subrange(start as int, chars@.len() as int));
            r.0@ == name && opt_str(r.1) == value
        }),
{
    let ghost body = chars@.subrange(start as int, chars@.len() as int);
    let mut k: usize = start;
    while k < chars.len() && chars[k] != '='
        invariant
            start <= k <= chars@.len(),
            body == chars@.subrange(start as int, chars@.len() as int),
            forall|j: int| start <= j < k ==> chars@[j] != '=',
        decreases chars@.len() - k,
    {
        k = k + 1;
    }
    if k == chars.len() {
        proof {
            assert forall|j: int| 0 <= j < body.len() implies body[j] != '=' by {
                assert(body[j] == chars@[j + start]);
            }
        }
        let name = string_from_chars(chars, start, chars.len());
        (name, None)
    } else {
        proof {
            let kk = choose|kk: int| 0 <= kk < body.len() && body[kk] == '=' && forall|j: int| 0 <= j < kk ==> body[j] != '=';
            assert(body[k - start] == '=');
            if kk < k - start {
                assert(body[kk] == chars@[kk + start]);
            } else if kk > k - start {
                assert(body[k - start] != '=');
            }
            assert(body.subrange(0, k - start) =~= chars@.subrange(start as int, k as int));
            assert(body.subrange(k - start + 1, body.len() as int) =~= chars@.subrange(k + 1, chars@.len() as int));
        }
        let name = string_from_chars(chars, start, k);
        let value = string_from_chars(chars, k + 1, chars.len());
        (name, Some(value))
    }
}

/// Reads one argument after the program name.
fn read_arg(s: ArgReader, tok: &str) -> (r: Result<ArgReader, ArgErrorKind>)
    ensures
        match arg_step(s@, tok@) {
            Ok(t) => r matches Ok(x) && x@ == t,
            Err(k) => r == Err::<ArgReader, ArgErrorKind>(k),
        },
{
    let mut s = s;
    let chars = chars_of(tok);
    let long = chars.len() >= 2 && chars[0] == '-' && chars[1] == '-';
    assert(long == is_long(tok@));
    if let Some(opt) = s.pending {
        if long {
            return Err(ArgErrorKind::MissingValue);
        }
        if has_value_exec(&s.values, opt) {
            return Err(ArgErrorKind::Repeated);
        }
        let mut value = String::new();
        push_str(&mut value, tok);
        let ghost before = s@.values;
        s.values.push((opt, value));
        s.pending = None;
        assert(s@.values =~= before.push((opt, tok@)));
        return Ok(s);
    }
    if str_eq(tok, "--progress") {
        if s.progress {
            return Err(ArgErrorKind::Repeated);
        }
        s.progress = true;
        return Ok(s);
    }
    if str_eq(tok, "--verbose") {
        if s.verbose {
            return Err(ArgErrorKind::Repeated);
        }
        s.verbose = true;
        return Ok(s);
    }
    match s.sub {
        None => {
            if chars.len() > 0 && chars[0] == '-' {
                return Err(ArgErrorKind::Unexpected);
            }
            match subcommand_named(tok) {
                Some(sub) => {
                    s.sub = Some(sub);
                    Ok(s)
                },
                None => Err(ArgErrorKind::UnknownSubcommand),
            }
        },
        Some(sub) => {
            if long {
                let (name, value) = split_at_eq(&chars, 2);
                match value_option_named(name.as_str()) {
                    Some(opt) => {
                        if !takes_value(sub, opt) {
                            return Err(ArgErrorKind::Unexpected);
                        }
                        if has_value_exec(&s.values, opt) {
                            return Err(ArgErrorKind::Repeated);
                        }
                        match value {
                            Some(v) => {
                                let ghost before = s@.values;
                                let ghost vv = v@;
                                s.values.push((opt, v));
                                s.pending = None;
                                assert(s@.values =~= before.push((opt, vv)));
                                Ok(s)
                            },
                            None => {
                                s.pending = Some(opt);
                                Ok(s)
                            },
                        }
                    },
                    None => match flag_option_named(name.as_str()) {
                        Some(flag) => {
                            if !takes_flag(sub, flag) || value.is_some() {
                                return Err(ArgErrorKind::Unexpected);
                            }
                            if has_flag(&s.flags, flag) {
                                return Err(ArgErrorKind::Repeated);
                            }
                            s.flags.push(flag);
                            Ok(s)
                        },
                        None => Err(ArgErrorKind::Unexpected),
                    },
                }
            } else if chars.len() > 1 && chars[0] == '-' {
                Err(ArgErrorKind::Unexpected)
            } else if takes_positional(sub) && s.positional.is_none() {
                let mut p = String::new();
                push_str(&mut p, tok);
                s.positional = Some(p);
                Ok(s)
            } else {
                Err(ArgErrorKind::Unexpected)
            }
        },
    }
}

/// The extractor's command line.
pub struct Cli {
    /// Show progress on standard error.
    pub progress: bool,
    /// Log more detail.
    pub verbose: bool,
    pub command: Command,
}

/// A subcommand with its arguments.
pub enum Command {
    Fts { db: Option<String>, analysis_workers: Option<usize>, no_rust: bool, no_csharp: bool, no_submodules: bool },
    RustFile {
        db: Option<String>,
        workspace_root: String,
        calls: bool,
        references: bool,
        symbols: bool,
        file: String,
    },
    RustFileDeleted { db: Option<String>, workspace_root: String, file: String },
    RustCrate {
        db: Option<String>,
        workspace_root: String,
        analysis_workers: Option<usize>,
        calls: bool,
        references: bool,
        symbols: bool,
        package_path: String,
    },
    RustWorkspace {
        db: Option<String>,
        workspace_root: String,
        analysis_workers: Option<usize>,
        calls: bool,
        references: bool,
        symbols: bool,
    },
    SoulFile { db: Option<String>, workspace_root: String, references: bool, symbols: bool, file: String },
    SoulWorkspace { db: Option<String>, workspace_root: String, references: bool, symbols: bool },
    CSharpFile {
        db: Option<String>,
        solution: Option<String>,
        csharp_ls: Option<String>,
        calls: bool,
        references: bool,
        symbols: bool,
        file: String,
    },
    CSharpFileDeleted { db: Option<String>, solution: Option<String>, csharp_ls: Option<String>, file: String },
    CSharpProject {
        db: Option<String>,
        solution: Option<String>,
        csharp_ls: Option<String>,
        process_workers: Option<usize>,
        calls: bool,
        references: bool,
        symbols: bool,
        project_or_root: String,
    },
    CSharpSolution {
        db: Option<String>,
        solution: Option<String>,
        csharp_ls: Option<String>,
        process_workers: Option<usize>,
        calls: bool,
        references: bool,
        symbols: bool,
    },
}

/// The worker count given for an option, where it is given.
pub open spec fn count_of(s: ArgState, opt: ValueOption) -> Option<usize> {
    match value_of(s.values, opt) {
        Some(t) => spec_parse_count(t),
        None => None,
    }
}

/// The workspace root given, `.` by default.
pub open spec fn root_of(s: ArgState) -> Seq<char> {
    match value_of(s.values, ValueOption::WorkspaceRoot) {
        Some(r) => r,
        None => "."@,
    }
}

/// Why arguments that were all read still make no command line.
pub open spec fn finish_error(s: ArgState) -> Option<ArgErrorKind> {
    if s.pending is Some {
        Some(ArgErrorKind::MissingValue)
    } else if s.sub is None {
        Some(ArgErrorKind::MissingSubcommand)
    } else if spec_takes_positional(s.sub->0) && s.positional is None {
        Some(ArgErrorKind::MissingPositional)
    } else if (value_of(s.values, ValueOption::AnalysisWorkers) is Some && count_of(s, ValueOption::AnalysisWorkers)
        is None) || (value_of(s.values, ValueOption::ProcessWorkers) is Some && count_of(
        s,
        ValueOption::ProcessWorkers,
    ) is None) {
        Some(ArgErrorKind::InvalidNumber)
    } else {
        None
    }
}

/// The command that the arguments read describe.
pub open spec fn command_matches(c: Command, s: ArgState) -> bool {
    let db = value_of(s.values, ValueOption::Db);
    let calls = s.flags.contains(FlagOption::Calls);
    let references = s.flags.contains(FlagOption::References);
    let symbols = s.flags.contains(FlagOption::Symbols);
    let positional = s.positional->0;
    match c {
        Command::Fts { db: d, analysis_workers, no_rust, no_csharp, no_submodules } => s.sub == Some(Subcommand::Fts)
            && opt_str(d) == db && analysis_workers == count_of(s, ValueOption::AnalysisWorkers) && no_rust
            == s.flags.contains(FlagOption::NoRust) && no_csharp == s.flags.contains(FlagOption::NoCsharp)
            && no_submodules == s.flags.contains(FlagOption::NoSubmodules),
        Command::RustFile { db: d, workspace_root, calls: c1, references: r1, symbols: s1, file } => s.sub == Some(
            Subcommand::RustFile,
        ) && opt_str(d) == db && workspace_root@ == root_of(s) && c1 == calls && r1 == references && s1 == symbols
            && file@ == positional,
        Command::RustFileDeleted { db: d, workspace_root, file } => s.sub == Some(Subcommand::RustFileDeleted) && opt_str(
            d,
        ) == db && workspace_root@ == root_of(s) && file@ == positional,
        Command::RustCrate { db: d, workspace_root, analysis_workers, calls: c1, references: r1, symbols: s1, package_path } =>
            s.sub == Some(Subcommand::RustCrate) && opt_str(d) == db && workspace_root@ == root_of(s) && analysis_workers
            == count_of(s, ValueOption::AnalysisWorkers) && c1 == calls && r1 == references && s1 == symbols
            && package_path@ == positional,
        Command::RustWorkspace { db: d, workspace_root, analysis_workers, calls: c1, references: r1, symbols: s1 } =>
            s.sub == Some(Subcommand::RustWorkspace) && opt_str(d) == db && workspace_root@ == root_of(s)
            && analysis_workers == count_of(s, ValueOption::AnalysisWorkers) && c1 == calls && r1 == references && s1
            == symbols,
        Command::SoulFile { db: d, workspace_root, references: r1, symbols: s1, file } => s.sub == Some(
            Subcommand::SoulFile,
        ) && opt_str(d) == db && workspace_root@ == root_of(s) && r1 == references && s1 == symbols && file@
            == positional,
        Command::SoulWorkspace { db: d, workspace_root, references: r1, symbols: s1 } => s.sub == Some(
            Subcommand::SoulWorkspace,
        ) && opt_str(d) == db && workspace_root@ == root_of(s) && r1 == references && s1 == symbols,
        Command::CSharpFile { db: d, solution, csharp_ls, calls: c1, references: r1, symbols: s1, file } => s.sub == Some(
            Subcommand::CSharpFile,
        ) && opt_str(d) == db && opt_str(solution) == value_of(s.values, ValueOption::Solution) && opt_str(csharp_ls)
            == value_of(s.values, ValueOption::CSharpLs) && c1 == calls && r1 == references && s1 == symbols && file@
            == positional,
        Command::CSharpFileDeleted { db: d, solution, csharp_ls, file } => s.sub == Some(Subcommand::CSharpFileDeleted)
            && opt_str(d) == db && opt_str(solution) == value_of(s.values, ValueOption::Solution) && opt_str(csharp_ls)
            == value_of(s.values, ValueOption::CSharpLs) && file@ == positional,
        Command::CSharpProject {
            db: d,
            solution,
            csharp_ls,
            process_workers,
            calls: c1,
            references: r1,
            symbols: s1,
            project_or_root,
        } => s.sub == Some(Subcommand::CSharpProject) && opt_str(d) == db && opt_str(solution) == value_of(
            s.values,
            ValueOption::Solution,
        ) && opt_str(csharp_ls) == value_of(s.values, ValueOption::CSharpLs) && process_workers == count_of(
            s,
            ValueOption::ProcessWorkers,
        ) && c1 == calls && r1 == references && s1 == symbols && project_or_root@ == positional,
        Command::CSharpSolution { db: d, solution, csharp_ls, process_workers, calls: c1, references: r1, symbols: s1 } =>
            s.sub == Some(Subcommand::CSharpSolution) && opt_str(d) == db && opt_str(solution) == value_of(
            s.values,
            ValueOption::Solution,
        ) && opt_str(csharp_ls) == value_of(s.values, ValueOption::CSharpLs) && process_workers == count_of(
            s,
            ValueOption::ProcessWorkers,
        ) && c1 == calls && r1 == references && s1 == symbols,
    }
}

/// The text of an argument error.
pub open spec fn arg_error_text(kind: ArgErrorKind) -> Seq<char> {
    match kind {
        ArgErrorKind::Unexpected => "unexpected argument"@,
        ArgErrorKind::Repeated => "an argument was given more than once"@,
        ArgErrorKind::MissingValue => "a value is required for an option"@,
        ArgErrorKind::UnknownSubcommand => "unrecognized subcommand"@,
        ArgErrorKind::MissingSubcommand => "a subcommand is required"@,
        ArgErrorKind::MissingPositional => "a required argument was not provided"@,
        ArgErrorKind::InvalidNumber => "invalid worker count"@,
    }
}

/// The text of an argument error.
fn arg_error_message(kind: ArgErrorKind) -> (m: String)
    ensures
        m@ == arg_error_text(kind),
{
    let mut m = String::new();
    match kind {
        ArgErrorKind::Unexpected => push_str(&mut m, "unexpected argument"),
        ArgErrorKind::Repeated => push_str(&mut m, "an argument was given more than once"),
        ArgErrorKind::MissingValue => push_str(&mut m, "a value is required for an option"),
        ArgErrorKind::UnknownSubcommand => push_str(&mut m, "unrecognized subcommand"),
        ArgErrorKind::MissingSubcommand => push_str(&mut m, "a subcommand is required"),
        ArgErrorKind::MissingPositional => push_str(&mut m, "a required argument was not provided"),
        ArgErrorKind::InvalidNumber => push_str(&mut m, "invalid worker count"),
    }
    m
}

/// The arguments after the program name.
pub open spec fn arg_tokens(args: Seq<&str>) -> Seq<Seq<char>> {
    if args.len() == 0 {
        Seq::empty()
    } else {
        args.drop_first().map_values(|a: &str| a@)
    }
}

/// The worker count given for an option.
fn count_value(values: &Vec<(ValueOption, String)>, opt: ValueOption) -> (r: Result<Option<usize>, ArgErrorKind>)
    ensures
        ({
            let v = value_of(values@.map_values(|x: (ValueOption, String)| (x.0, x.1@)), opt);
            match v {
                None => r == Ok::<Option<usize>, ArgErrorKind>(None),
                Some(t) => match spec_parse_count(t) {
                    Some(n) => r == Ok::<Option<usize>, ArgErrorKind>(Some(n)),
                    None => r == Err::<Option<usize>, ArgErrorKind>(ArgErrorKind::InvalidNumber),
                },
            }
        }),
{
    match value_lookup(values, opt) {
        None => Ok(None),
        Some(t) => match parse_count(t.as_str()) {
            Some(n) => Ok(Some(n)),
            None => Err(ArgErrorKind::InvalidNumber),
        },
    }
}

/// A string holding `s`.
fn owned(s: &str) -> (r: String)
    ensures
        r@ == s@,
{
    let mut r = String::new();
    push_str(&mut r, s);
    r
}

/// The command that the arguments describe, once all are read.
fn finish(s: ArgReader) -> (r: Result<Cli, ArgErrorKind>)
    ensures
        match finish_error(s@) {
            Some(k) => r == Err::<Cli, ArgErrorKind>(k),
            None => r matches Ok(cli) && cli.progress == s@.progress && cli.verbose == s@.verbose && command_matches(
                cli.command,
                s@,
            ),
        },
{
    if s.pending.is_some() {
        return Err(ArgErrorKind::MissingValue);
    }
    let sub = match s.sub {
        None => return Err(ArgErrorKind::MissingSubcommand),
        Some(sub) => sub,
    };
    if takes_positional(sub) && s.positional.is_none() {
        return Err(ArgErrorKind::MissingPositional);
    }
    let analysis_workers = count_value(&s.values, ValueOption::AnalysisWorkers)?;
    let process_workers = count_value(&s.values, ValueOption::ProcessWorkers)?;
    let db = value_lookup(&s.values, ValueOption::Db);
    let workspace_root = match value_lookup(&s.values, ValueOption::WorkspaceRoot) {
        Some(r) => r,
        None => owned("."),
    };
    let solution = value_lookup(&s.values, ValueOption::Solution);
    let csharp_ls = value_lookup(&s.values, ValueOption::CSharpLs);
    let calls = has_flag(&s.flags, FlagOption::Calls);
    let references = has_flag(&s.flags, FlagOption::References);
    let symbols = has_flag(&s.flags, FlagOption::Symbols);
    let positional = match s.positional {
        Some(p) => p,
        None => String::new(),
    };
    let command = match sub {
        Subcommand::Fts => Command::Fts {
            db,
            analysis_workers,
            no_rust: has_flag(&s.flags, FlagOption::NoRust),
            no_csharp: has_flag(&s.flags, FlagOption::NoCsharp),
            no_submodules: has_flag(&s.flags, FlagOption::NoSubmodules),
        },
        Subcommand::RustFile => Command::RustFile { db, workspace_root, calls, references, symbols, file: positional },
        Subcommand::RustFileDeleted => Command::RustFileDeleted { db, workspace_root, file: positional },
        Subcommand::RustCrate => Command::RustCrate {
            db,
            workspace_root,
            analysis_workers,
            calls,
            references,
            symbols,
            package_path: positional,
        },
        Subcommand::RustWorkspace => Command::RustWorkspace {
            db,
            workspace_root,
            analysis_workers,
            calls,
            references,
            symbols,
        },
        Subcommand::SoulFile => Command::SoulFile { db, workspace_root, references, symbols, file: positional },
        Subcommand::SoulWorkspace => Command::SoulWorkspace { db, workspace_root, references, symbols },
        Subcommand::CSharpFile => Command::CSharpFile {
            db,
            solution,
            csharp_ls,
            calls,
            references,
            symbols,
            file: positional,
        },
        Subcommand::CSharpFileDeleted => Command::CSharpFileDeleted { db, solution, csharp_ls, file: positional },
        Subcommand::CSharpProject => Command::CSharpProject {
            db,
            solution,
            csharp_ls,
            process_workers,
            calls,
            references,
            symbols,
            project_or_root: positional,
        },
        Subcommand::CSharpSolution => Command::CSharpSolution {
            db,
            solution,
            csharp_ls,
            process_workers,
            calls,
            references,
            symbols,
        },
    };
    Ok(Cli { progress: s.progress, verbose: s.verbose, command })
}

/// What the command line holds, or why it cannot be read.
pub open spec fn spec_read_command_line(args: Seq<&str>) -> Result<ArgState, ArgErrorKind> {
    match read_args(arg_tokens(args)) {
        Err(k) => Err(k),
        Ok(s) => match finish_error(s) {
            Some(k) => Err(k),
            None => Ok(s),
        },
    }
}

impl Cli {
    /// Reads a command line, program name first: the global flags
    /// `--progress` and `--verbose` anywhere, one subcommand, then its
    /// options (`--name value` or `--name=value`), flags and positional
    /// argument in any order, each at most once.
    pub fn try_parse_from(args: &[&str]) -> (result: Result<Cli, String>)
        ensures
            match spec_read_command_line(args@) {
                Err(k) => result matches Err(m) && m@ == arg_error_text(k),
                Ok(s) => result matches Ok(cli) && cli.progress == s.progress && cli.verbose == s.verbose
                    && command_matches(cli.command, s),
            },
    {
        let ghost toks = arg_tokens(args@);
        let mut s = ArgReader {
            progress: false,
            verbose: false,
            sub: None,
            values: Vec::new(),
            flags: Vec::new(),
            positional: None,
            pending: None,
        };
        proof {
            assert(s@.values =~= Seq::<(ValueOption, Seq<char>)>::empty());
            assert(s@.flags =~= Seq::<FlagOption>::empty());
            assert(s@ == initial_state());
        }
        let mut i: usize = 1;
        if args.len() == 0 {
            i = 0;
        }
        proof {
            assert(toks.take(0) =~= Seq::<Seq<char>>::empty());
        }
        while i < args.len()
            invariant
                toks == arg_tokens(args@),
                args@.len() == 0 ==> i == 0,
                args@.len() > 0 ==> 1 <= i <= args@.len() && toks.len() == args@.len() - 1,
                read_args(toks.take(if i == 0 { 0 } else { i - 1 })) == Ok::<ArgState, ArgErrorKind>(s@),
            decreases args@.len() - i,
        {
            let ghost k = i - 1;
            proof {
                assert(toks.take(k + 1).drop_last() =~= toks.take(k));
                assert(toks[k] == args@[i as int]@);
                assert(toks.take(k + 1).last() == toks[k]);
            }
            match read_arg(s, args[i]) {
                Ok(next) => {
                    s = next;
                },
                Err(kind) => {
                    proof {
                        lemma_read_args_error(toks, k + 1);
                    }
                    return Err(arg_error_message(kind));
                },
            }
            i = i + 1;
        }
        proof {
            if args@.len() > 0 {
                assert(toks.take(i - 1) =~= toks);
            } else {
                assert(toks =~= Seq::<Seq<char>>::empty());
            }
        }
        match finish(s) {
            Ok(cli) => Ok(cli),
            Err(kind) => Err(arg_error_message(kind)),
        }
    }
}

/// An error while reading a prefix of the arguments is the error of all.
proof fn lemma_read_args_error(toks: Seq<Seq<char>>, n: int)
    requires
        0 <= n <= toks.len(),
        read_args(toks.take(n)) is Err,
    ensures
        read_args(toks) == read_args(toks.take(n)),
    decreases toks.len(),
{
    if n == toks.len() {
        assert(toks.take(n) =~= toks);
    } else {
        assert(toks.drop_last().take(n) =~= toks.take(n));
        lemma_read_args_error(toks.drop_last(), n);
    }
}

} // verus!
