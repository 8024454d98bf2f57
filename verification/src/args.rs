//! The command line.

use vstd::prelude::*;
use vstd::slice::slice_subrange;
use vstd::utf8::is_ascii_chars;

use crate::record::{
    ascii_upper, offered_code, parse_record_type, record_code, uppercase, CODE_A,
};
use crate::text::{ascii_lower, from_chars, same_text, texts, to_ascii_lower, to_chars};

verus! {

/// How `--once` is used.
pub open spec fn usage() -> Seq<char> {
    "usage: dnsglobe --once <domain> [type] [--output json|csv]"@
}

/// Output format for `--once`, selected with `--output`.
#[derive(Debug, Clone, Copy, PartialEq, Eq, Structural)]
pub enum OutputFormat {
    Text,
    Json,
    Csv,
}

impl Default for OutputFormat {
    fn default() -> (r: OutputFormat)
        ensures
            r == OutputFormat::Text,
    {
        OutputFormat::Text
    }
}

/// Why a command line is refused.
#[derive(Debug)]
pub enum ArgsError {
    /// `--output` stands last.
    MissingValue,
    /// The value of `--output` names no format.
    UnknownFormat(String),
    /// Another argument that starts with two dashes.
    UnknownFlag(String),
    /// `--once` without a domain.
    MissingDomain,
    /// The second positional argument names no record type.
    UnknownType(String),
    /// The domain is the empty string.
    EmptyDomain,
}

/// What an `ArgsError` says.
pub enum ArgsProblem {
    MissingValue,
    UnknownFormat(Seq<char>),
    UnknownFlag(Seq<char>),
    MissingDomain,
    UnknownType(Seq<char>),
    EmptyDomain,
}

impl View for ArgsError {
    type V = ArgsProblem;

    open spec fn view(&self) -> ArgsProblem {
        match self {
            ArgsError::MissingValue => ArgsProblem::MissingValue,
            ArgsError::UnknownFormat(s) => ArgsProblem::UnknownFormat(s@),
            ArgsError::UnknownFlag(s) => ArgsProblem::UnknownFlag(s@),
            ArgsError::MissingDomain => ArgsProblem::MissingDomain,
            ArgsError::UnknownType(s) => ArgsProblem::UnknownType(s@),
            ArgsError::EmptyDomain => ArgsProblem::EmptyDomain,
        }
    }
}

/// The message for a problem.
pub open spec fn problem_text(problem: ArgsProblem) -> Seq<char> {
    match problem {
        ArgsProblem::MissingValue => "--output requires a value\n"@ + usage(),
        ArgsProblem::UnknownFormat(s) => "unknown output format: "@ + s
            + " (expected json or csv)"@,
        ArgsProblem::UnknownFlag(s) => "unknown flag: "@ + s + "\n"@ + usage(),
        ArgsProblem::MissingDomain => usage(),
        ArgsProblem::UnknownType(s) => "unknown record type: "@ + s,
        ArgsProblem::EmptyDomain => "empty domain"@,
    }
}

impl ArgsError {
    /// The message to show.
    pub fn message(&self) -> (r: String)
        ensures
            r@ == problem_text(self@),
    {
        let mut out = String::new();
        match self {
            ArgsError::MissingValue => {
                out.push_str("--output requires a value\n");
                out.push_str("usage: dnsglobe --once <domain> [type] [--output json|csv]");
            },
            ArgsError::UnknownFormat(s) => {
                out.push_str("unknown output format: ");
                out.push_str(s.as_str());
                out.push_str(" (expected json or csv)");
            },
            ArgsError::UnknownFlag(s) => {
                out.push_str("unknown flag: ");
                out.push_str(s.as_str());
                out.push_str("\n");
                out.push_str("usage: dnsglobe --once <domain> [type] [--output json|csv]");
            },
            ArgsError::MissingDomain => {
                out.push_str("usage: dnsglobe --once <domain> [type] [--output json|csv]");
            },
            ArgsError::UnknownType(s) => {
                out.push_str("unknown record type: ");
                out.push_str(s.as_str());
            },
            ArgsError::EmptyDomain => {
                out.push_str("empty domain");
            },
        }
        assert(out@ =~= problem_text(self@));
        out
    }
}

/// A string with its ASCII letters in lower case.
pub open spec fn lowered(s: Seq<char>) -> Seq<char> {
    s.map_values(|c: char| ascii_lower(c))
}

/// The format that a word names, in either case.
pub open spec fn format_named(word: Seq<char>) -> Option<OutputFormat> {
    if lowered(word) == "text"@ {
        Some(OutputFormat::Text)
    } else if lowered(word) == "json"@ {
        Some(OutputFormat::Json)
    } else if lowered(word) == "csv"@ {
        Some(OutputFormat::Csv)
    } else {
        None
    }
}

fn to_lowered(s: &str) -> (r: String)
    ensures
        r@ == lowered(s@),
{
    let mut out = String::new();
    for c in it: s.chars()
        invariant
            it.seq() == s@,
            out@ == lowered(s@.take(it.index())),
    {
        out.push(to_ascii_lower(c));
        assert(out@ =~= lowered(s@.take(it.index() + 1)));
    }
    assert(s@.take(s@.len() as int) =~= s@);
    out
}

impl OutputFormat {
    /// Reads a format by its name, in either case.
    pub fn from_str(s: &str) -> (r: Result<OutputFormat, ArgsError>)
        ensures
            match format_named(s@) {
                Some(format) => r == Ok::<OutputFormat, ArgsError>(format),
                None => r is Err && r->Err_0@ == ArgsProblem::UnknownFormat(s@),
            },
    {
        let word = to_lowered(s);
        if same_text(word.as_str(), "text") {
            Ok(OutputFormat::Text)
        } else if same_text(word.as_str(), "json") {
            Ok(OutputFormat::Json)
        } else if same_text(word.as_str(), "csv") {
            Ok(OutputFormat::Csv)
        } else {
            Err(ArgsError::UnknownFormat(s.to_owned()))
        }
    }
}

/// Whether `s` starts with `prefix`.
pub open spec fn starts_with(s: Seq<char>, prefix: Seq<char>) -> bool {
    prefix.len() <= s.len() && s.take(prefix.len() as int) == prefix
}

/// What follows `prefix` in `s`, when `s` starts with it.
fn strip_prefix(s: &str, prefix: &str) -> (r: Option<String>)
    ensures
        r is Some <==> starts_with(s@, prefix@),
        r matches Some(rest) ==> rest@ == s@.skip(prefix@.len() as int),
{
    let chars = to_chars(s);
    let head = to_chars(prefix);
    if chars.len() < head.len() {
        return None;
    }
    for i in 0..head.len()
        invariant
            chars@ == s@,
            head@ == prefix@,
            head@.len() <= chars@.len(),
            forall|j: int| 0 <= j < i ==> chars@[j] == head@[j],
    {
        if chars[i] != head[i] {
            assert(s@.take(prefix@.len() as int)[i as int] != prefix@[i as int]);
            return None;
        }
    }
    assert(s@.take(prefix@.len() as int) =~= prefix@);
    let mut rest: Vec<char> = Vec::new();
    for i in head.len()..chars.len()
        invariant
            head@.len() <= chars@.len(),
            rest@ == chars@.subrange(head@.len() as int, i as int),
    {
        rest.push(chars[i]);
        assert(rest@ =~= chars@.subrange(head@.len() as int, i + 1));
    }
    assert(rest@ =~= s@.skip(prefix@.len() as int));
    Some(from_chars(&rest))
}

/// What the arguments behind `--once` say before the record type is looked up.
#[derive(Debug)]
pub struct OnceArgs {
    pub domain: String,
    pub record_type: Option<String>,
    pub format: OutputFormat,
}

/// The contents of an `OnceArgs`.
pub struct OnceArgsView {
    pub domain: Seq<char>,
    pub record_type: Option<Seq<char>>,
    pub format: OutputFormat,
}

impl View for OnceArgs {
    type V = OnceArgsView;

    open spec fn view(&self) -> OnceArgsView {
        OnceArgsView {
            domain: self.domain@,
            record_type: match self.record_type {
                Some(t) => Some(t@),
                None => None,
            },
            format: self.format,
        }
    }
}

/// Reads the arguments from the left: the last `--output` sets the format,
/// what starts with no dashes is positional, and the first fault ends it.
pub open spec fn scan(
    args: Seq<Seq<char>>,
    format: OutputFormat,
    positional: Seq<Seq<char>>,
) -> Result<(OutputFormat, Seq<Seq<char>>), ArgsProblem>
    decreases args.len(),
{
    if args.len() == 0 {
        Ok((format, positional))
    } else if args[0] == "--output"@ {
        if args.len() == 1 {
            Err(ArgsProblem::MissingValue)
        } else {
            match format_named(args[1]) {
                Some(format) => scan(args.skip(2), format, positional),
                None => Err(ArgsProblem::UnknownFormat(args[1])),
            }
        }
    } else if starts_with(args[0], "--output="@) {
        let value = args[0].skip("--output="@.len() as int);
        match format_named(value) {
            Some(format) => scan(args.skip(1), format, positional),
            None => Err(ArgsProblem::UnknownFormat(value)),
        }
    } else if starts_with(args[0], "--"@) {
        Err(ArgsProblem::UnknownFlag(args[0]))
    } else {
        scan(args.skip(1), format, positional.push(args[0]))
    }
}

/// The arguments behind `--once`: a domain, perhaps a record type, and
/// whatever else is positional is ignored.
pub open spec fn once_args(args: Seq<Seq<char>>) -> Result<OnceArgsView, ArgsProblem> {
    match scan(args, OutputFormat::Text, seq![]) {
        Err(problem) => Err(problem),
        Ok((format, positional)) => if positional.len() == 0 {
            Err(ArgsProblem::MissingDomain)
        } else {
            Ok(
                OnceArgsView {
                    domain: positional[0],
                    record_type: if positional.len() > 1 {
                        Some(positional[1])
                    } else {
                        None
                    },
                    format,
                },
            )
        },
    }
}

/// A result of `parse_once_args` by its contents.
pub open spec fn once_args_result(r: Result<OnceArgs, ArgsError>) -> Result<
    OnceArgsView,
    ArgsProblem,
> {
    match r {
        Ok(args) => Ok(args@),
        Err(err) => Err(err@),
    }
}

/// Reads the arguments behind `--once`.
pub fn parse_once_args(args: &[String]) -> (r: Result<OnceArgs, ArgsError>)
    ensures
        once_args_result(r) == once_args(texts(args@)),
{
    let ghost all = texts(args@);
    let mut format = OutputFormat::Text;
    let mut positional: Vec<String> = Vec::new();
    let mut i: usize = 0;
    assert(all.skip(0) =~= all);
    assert(texts(positional@) =~= seq![]);
    while i < args.len()
        invariant
            i <= args@.len(),
            all == texts(args@),
            scan(all.skip(i as int), format, texts(positional@)) == scan(
                all,
                OutputFormat::Text,
                seq![],
            ),
        decreases args@.len() - i,
    {
        let arg = args[i].as_str();
        assert(all.skip(i as int)[0] == arg@);
        assert(all.skip(i as int).skip(1) =~= all.skip(i + 1));
        if same_text(arg, "--output") {
            i += 1;
            if i >= args.len() {
                return Err(ArgsError::MissingValue);
            }
            assert(all.skip(i - 1)[1] == args@[i as int]@);
            assert(all.skip(i - 1).skip(2) =~= all.skip(i + 1));
            match OutputFormat::from_str(args[i].as_str()) {
                Ok(f) => {
                    format = f;
                },
                Err(err) => {
                    return Err(err);
                },
            }
        } else if let Some(value) = strip_prefix(arg, "--output=") {
            match OutputFormat::from_str(value.as_str()) {
                Ok(f) => {
                    format = f;
                },
                Err(err) => {
                    return Err(err);
                },
            }
        } else if strip_prefix(arg, "--").is_some() {
            return Err(ArgsError::UnknownFlag(arg.to_owned()));
        } else {
            let ghost before = texts(positional@);
            positional.push(arg.to_owned());
            assert(texts(positional@) =~= before.push(arg@));
        }
        i += 1;
    }
    if positional.len() == 0 {
        return Err(ArgsError::MissingDomain);
    }
    let domain = positional[0].clone();
    let record_type = if positional.len() > 1 {
        Some(positional[1].clone())
    } else {
        None
    };
    Ok(OnceArgs { domain, record_type, format })
}

/// What the program is to do.
#[derive(Debug)]
pub enum Command {
    /// Print the version.
    Version,
    /// Check once and print a report. `code` is the wanted record type.
    Once { domain: String, code: u16, format: OutputFormat },
    /// Open the table; with a domain, query it at once and watch.
    Watch { domain: String },
}

/// The contents of a `Command`.
pub enum CommandView {
    Version,
    Once { domain: Seq<char>, code: u16, format: OutputFormat },
    Watch { domain: Seq<char> },
}

impl View for Command {
    type V = CommandView;

    open spec fn view(&self) -> CommandView {
        match self {
            Command::Version => CommandView::Version,
            Command::Once { domain, code, format } => CommandView::Once {
                domain: domain@,
                code: *code,
                format: *format,
            },
            Command::Watch { domain } => CommandView::Watch { domain: domain@ },
        }
    }
}

/// A parsed command line by its contents.
pub open spec fn command_result(r: Result<Command, ArgsError>) -> Result<
    CommandView,
    ArgsProblem,
> {
    match r {
        Ok(command) => Ok(command@),
        Err(err) => Err(err@),
    }
}

/// The single check that arguments ask for, given what the lookup of their
/// record type returned. Without a record type the check is for `A`.
pub open spec fn once_command_of(args: OnceArgsView, lookup: Option<u16>) -> Result<
    CommandView,
    ArgsProblem,
> {
    match (args.record_type, lookup) {
        (Some(name), None) => Err(ArgsProblem::UnknownType(name)),
        (Some(_), Some(code)) => Ok(
            CommandView::Once { domain: args.domain, code, format: args.format },
        ),
        (None, _) => Ok(CommandView::Once { domain: args.domain, code: CODE_A, format: args.format }),
    }
}

/// Completes the arguments of a single check by what the lookup of their
/// record type returned.
pub fn once_command(args: OnceArgs, lookup: Option<u16>) -> (r: Result<Command, ArgsError>)
    ensures
        command_result(r) == once_command_of(args@, lookup),
{
    match args.record_type {
        Some(name) => match lookup {
            Some(code) => Ok(Command::Once { domain: args.domain, code, format: args.format }),
            None => Err(ArgsError::UnknownType(name)),
        },
        None => Ok(Command::Once { domain: args.domain, code: CODE_A, format: args.format }),
    }
}

/// What a command line asks for. The record type is looked up by its name in
/// upper case.
pub open spec fn command_of(args: Seq<Seq<char>>) -> Result<CommandView, ArgsProblem> {
    if args.len() > 0 && (args[0] == "--version"@ || args[0] == "-V"@) {
        Ok(CommandView::Version)
    } else if args.len() > 0 && args[0] == "--once"@ {
        match once_args(args.skip(1)) {
            Err(problem) => Err(problem),
            Ok(once) => once_command_of(
                once,
                match once.record_type {
                    Some(name) => record_code(uppercase(name)),
                    None => None,
                },
            ),
        }
    } else if args.len() > 0 {
        Ok(CommandView::Watch { domain: args[0] })
    } else {
        Ok(CommandView::Watch { domain: seq![] })
    }
}

/// The code of the record type that a command line names, when it is one that
/// the input field offers.
pub open spec fn names_offered_type(args: Seq<Seq<char>>) -> Option<u16> {
    if args.len() > 0 && args[0] == "--once"@ {
        match once_args(args.skip(1)) {
            Ok(OnceArgsView { record_type: Some(name), .. }) => offered_code(uppercase(name)),
            _ => None,
        }
    } else {
        None
    }
}

/// Reads the command line, without the program's name.
pub fn parse_args(args: &[String]) -> (r: Result<Command, ArgsError>)
    ensures
        command_result(r) == command_of(texts(args@)),
        names_offered_type(texts(args@)) matches Some(code) ==> command_result(r) matches Ok(
            CommandView::Once { code: asked, .. },
        ) && asked == code,
        args@.len() == 3 && args@[0]@ == "--once"@ && are_words(seq![args@[1]@, args@[2]@])
            && is_ascii_chars(args@[2]@) ==> (offered_code(
            args@[2]@.map_values(|c: char| ascii_upper(c)),
        ) matches Some(wanted) ==> (r matches Ok(Command::Once { domain, code, format }) && domain@
            == args@[1]@ && code == wanted && format == OutputFormat::Text)),
        args@.len() == 5 && args@[0]@ == "--once"@ && are_words(seq![args@[1]@, args@[2]@])
            && is_ascii_chars(args@[2]@) && args@[3]@ == "--output"@ ==> forall|asked: OutputFormat|
            #[trigger] spells(args@[4]@, asked) ==> (offered_code(
                args@[2]@.map_values(|c: char| ascii_upper(c)),
            ) matches Some(wanted) ==> (r matches Ok(Command::Once { domain, code, format })
                && domain@ == args@[1]@ && code == wanted && format == asked)),
{
    if args.len() == 0 {
        let domain = String::new();
        assert(domain@ =~= seq![]);
        return Ok(Command::Watch { domain });
    }
    let first = args[0].as_str();
    assert(texts(args@)[0] == first@);
    proof {
        reveal_strlit("--version");
        reveal_strlit("-V");
        reveal_strlit("--once");
        assert("--version"@.len() != "--once"@.len());
        assert("-V"@.len() != "--once"@.len());
    }
    if same_text(first, "--version") || same_text(first, "-V") {
        return Ok(Command::Version);
    }
    if !same_text(first, "--once") {
        return Ok(Command::Watch { domain: first.to_owned() });
    }
    let rest = slice_subrange(args, 1, args.len());
    assert(texts(rest@) =~= texts(args@).skip(1));
    proof {
        let all = texts(args@);
        if all.len() == 3 {
            assert(all[1] == args@[1]@ && all[2] == args@[2]@);
            lemma_two_words(all.skip(1));
        }
        if all.len() == 5 {
            assert(all[1] == args@[1]@ && all[2] == args@[2]@);
            assert(all[3] == args@[3]@ && all[4] == args@[4]@);
            assert(all.skip(1)[2] == args@[3]@ && all.skip(1)[3] == args@[4]@);
            lemma_two_words_and_output(all.skip(1));
        }
    }
    match parse_once_args(rest) {
        Err(err) => Err(err),
        Ok(once) => {
            let lookup = match &once.record_type {
                Some(name) => parse_record_type(name.as_str()),
                None => None,
            };
            once_command(once, lookup)
        },
    }
}

/// `--output x` and `--output=x` mean the same.
pub proof fn law_output_forms_agree(
    value: Seq<char>,
    rest: Seq<Seq<char>>,
    format: OutputFormat,
    positional: Seq<Seq<char>>,
)
    ensures
        scan(seq!["--output"@, value] + rest, format, positional) == scan(
            seq!["--output="@ + value] + rest,
            format,
            positional,
        ),
{
    let two = seq!["--output"@, value] + rest;
    let one = seq!["--output="@ + value] + rest;
    reveal_strlit("--output");
    reveal_strlit("--output=");
    assert(("--output="@ + value).take("--output="@.len() as int) =~= "--output="@);
    assert(("--output="@ + value).skip("--output="@.len() as int) =~= value);
    assert(("--output="@ + value).len() > "--output"@.len());
    assert(two.skip(2) =~= rest);
    assert(one.skip(1) =~= rest);
}

/// `--output` may stand before or behind a positional argument.
pub proof fn law_output_may_stand_anywhere(
    word: Seq<char>,
    value: Seq<char>,
    rest: Seq<Seq<char>>,
    format: OutputFormat,
    positional: Seq<Seq<char>>,
)
    requires
        !starts_with(word, "--"@),
    ensures
        scan(seq!["--output"@, value, word] + rest, format, positional) == scan(
            seq![word, "--output"@, value] + rest,
            format,
            positional,
        ),
{
    let before = seq!["--output"@, value, word] + rest;
    let behind = seq![word, "--output"@, value] + rest;
    reveal_strlit("--output");
    reveal_strlit("--output=");
    reveal_strlit("--");
    assert("--output"@.take(2) =~= "--"@);
    if starts_with(word, "--output="@) {
        assert(word.take(2) =~= word.take(9).take(2));
        assert("--output="@.take(2) =~= "--"@);
    }
    assert(before.skip(2) =~= seq![word] + rest);
    assert((seq![word] + rest).skip(1) =~= rest);
    assert(behind.skip(1) =~= seq!["--output"@, value] + rest);
    assert((seq!["--output"@, value] + rest).skip(2) =~= rest);
    reveal_with_fuel(scan, 3);
}

/// Arguments of which none starts with two dashes.
pub open spec fn are_words(args: Seq<Seq<char>>) -> bool {
    forall|k: int|
        0 <= k < args.len() ==> !((#[trigger] args[k]).len() >= 2 && args[k][0] == '-' && args[k][1]
            == '-')
}

/// A word names a format: its letters, in either case, are those of the
/// format's name.
pub open spec fn spells(word: Seq<char>, format: OutputFormat) -> bool {
    word.map_values(|c: char| ascii_lower(c)) == match format {
        OutputFormat::Text => "text"@,
        OutputFormat::Json => "json"@,
        OutputFormat::Csv => "csv"@,
    }
}

proof fn lemma_dashes(word: Seq<char>)
    ensures
        starts_with(word, "--"@) <==> word.len() >= 2 && word[0] == '-' && word[1] == '-',
        starts_with(word, "--output="@) ==> starts_with(word, "--"@),
        word == "--output"@ ==> starts_with(word, "--"@),
        word == "--output"@ ==> !starts_with(word, "--output="@),
{
    reveal_strlit("--");
    reveal_strlit("--output");
    reveal_strlit("--output=");
    if word.len() >= 2 && word[0] == '-' && word[1] == '-' {
        assert(word.take(2) =~= "--"@);
    }
    if starts_with(word, "--"@) {
        assert(word.take(2)[0] == '-' && word.take(2)[1] == '-');
    }
    if starts_with(word, "--output="@) {
        assert(word.take(9)[0] == '-' && word.take(9)[1] == '-');
        assert(word.take(2) =~= "--"@);
    }
}

proof fn lemma_format_names()
    ensures
        "text"@ != "json"@,
        "text"@ != "csv"@,
        "json"@ != "csv"@,
{
    reveal_strlit("text");
    reveal_strlit("json");
    reveal_strlit("csv");
    assert("text"@[0] == 't');
    assert("json"@[0] == 'j');
    assert("csv"@[0] == 'c');
}

/// A format is read from its name and from nothing else, in either case.
pub proof fn law_formats_have_names(word: Seq<char>, format: OutputFormat)
    ensures
        format_named(word) == Some(format) <==> spells(word, format),
        spells(word, format) <==> lowered(word) == (match format {
            OutputFormat::Text => "text"@,
            OutputFormat::Json => "json"@,
            OutputFormat::Csv => "csv"@,
        }),
{
    lemma_format_names();
    assert(lowered(word) =~= word.map_values(|c: char| ascii_lower(c)));
}

/// What is read behind arguments without a fault goes on where they end.
proof fn lemma_scan_append(
    a: Seq<Seq<char>>,
    b: Seq<Seq<char>>,
    format: OutputFormat,
    positional: Seq<Seq<char>>,
)
    ensures
        match scan(a, format, positional) {
            Ok((f, p)) => scan(a + b, format, positional) == scan(b, f, p),
            Err(ArgsProblem::MissingValue) => a.len() > 0 && a.last() == "--output"@,
            Err(problem) => scan(a + b, format, positional) == Err::<
                (OutputFormat, Seq<Seq<char>>),
                ArgsProblem,
            >(problem),
        },
    decreases a.len(),
{
    let all = a + b;
    if a.len() == 0 {
        assert(all =~= b);
    } else {
        assert(all[0] == a[0]);
        assert(all.skip(1) =~= a.skip(1) + b);
        if a[0] == "--output"@ {
            if a.len() > 1 {
                assert(all[1] == a[1]);
                assert(all.skip(2) =~= a.skip(2) + b);
                if format_named(a[1]) is Some {
                    lemma_scan_append(a.skip(2), b, format_named(a[1])->0, positional);
                }
            }
        } else if starts_with(a[0], "--output="@) {
            let value = a[0].skip("--output="@.len() as int);
            if format_named(value) is Some {
                lemma_scan_append(a.skip(1), b, format_named(value)->0, positional);
            }
        } else if !starts_with(a[0], "--"@) {
            lemma_scan_append(a.skip(1), b, format, positional.push(a[0]));
        }
    }
}

proof fn lemma_scan_words(
    words: Seq<Seq<char>>,
    format: OutputFormat,
    positional: Seq<Seq<char>>,
)
    requires
        are_words(words),
    ensures
        scan(words, format, positional) == Ok::<(OutputFormat, Seq<Seq<char>>), ArgsProblem>(
            (format, positional + words),
        ),
    decreases words.len(),
{
    if words.len() == 0 {
        assert(positional + words =~= positional);
    } else {
        let rest = words.skip(1);
        lemma_dashes(words[0]);
        assert forall|k: int| 0 <= k < rest.len() implies !((#[trigger] rest[k]).len() >= 2
            && rest[k][0] == '-' && rest[k][1] == '-') by {
            assert(rest[k] == words[k + 1]);
        }
        lemma_scan_words(rest, format, positional.push(words[0]));
        assert(positional.push(words[0]) + rest =~= positional + words);
    }
}

/// One `--output`, in either form.
proof fn lemma_scan_output(
    value: Seq<char>,
    b: Seq<Seq<char>>,
    format: OutputFormat,
    positional: Seq<Seq<char>>,
)
    ensures
        scan(seq!["--output"@, value] + b, format, positional) == (match format_named(value) {
            Some(f) => scan(b, f, positional),
            None => Err(ArgsProblem::UnknownFormat(value)),
        }),
        scan(seq!["--output="@ + value] + b, format, positional) == scan(
            seq!["--output"@, value] + b,
            format,
            positional,
        ),
{
    law_output_forms_agree(value, b, format, positional);
    assert((seq!["--output"@, value] + b).skip(2) =~= b);
}

proof fn lemma_once_is_not_version()
    ensures
        "--once"@ != "--version"@,
        "--once"@ != "-V"@,
{
    reveal_strlit("--version");
    reveal_strlit("-V");
    reveal_strlit("--once");
    assert("--version"@.len() == 9 && "-V"@.len() == 2 && "--once"@.len() == 6);
}

/// The first argument says what to do: print the version, check once, or watch
/// what it names. Without arguments nothing is named.
pub proof fn law_first_argument_decides(args: Seq<Seq<char>>)
    ensures
        args.len() == 0 ==> command_of(args) == Ok::<CommandView, ArgsProblem>(
            CommandView::Watch { domain: seq![] },
        ),
        args.len() > 0 && (args[0] == "--version"@ || args[0] == "-V"@) ==> command_of(args) == Ok::<
            CommandView,
            ArgsProblem,
        >(CommandView::Version),
        args.len() > 0 && args[0] != "--version"@ && args[0] != "-V"@ && args[0] != "--once"@
            ==> command_of(args) == Ok::<CommandView, ArgsProblem>(
            CommandView::Watch { domain: args[0] },
        ),
        args.len() > 0 && args[0] == "--once"@ ==> match command_of(args) {
            Ok(command) => command is Once,
            Err(_) => true,
        },
{
    lemma_once_is_not_version();
}

/// A single check is for the first word, of the record type that the second
/// names, or of type `A` without a second, and prints text; further words are
/// ignored. One `--output`, wherever it stands among the words, sets the format
/// and changes nothing else.
pub proof fn law_once_reads_words_and_format(
    a: Seq<Seq<char>>,
    b: Seq<Seq<char>>,
    value: Seq<char>,
    format: OutputFormat,
)
    requires
        are_words(a),
        are_words(b),
        spells(value, format),
    ensures
        command_of(seq!["--once"@] + (a + b)) == ({
            let words = a + b;
            if words.len() == 0 {
                Err::<CommandView, ArgsProblem>(ArgsProblem::MissingDomain)
            } else if words.len() == 1 {
                Ok(CommandView::Once { domain: words[0], code: 1, format: OutputFormat::Text })
            } else {
                match record_code(uppercase(words[1])) {
                    Some(code) => Ok(
                        CommandView::Once { domain: words[0], code, format: OutputFormat::Text },
                    ),
                    None => Err(ArgsProblem::UnknownType(words[1])),
                }
            }
        }),
        command_of(seq!["--once"@] + (a + (seq!["--output"@, value] + b))) == ({
            let words = a + b;
            if words.len() == 0 {
                Err::<CommandView, ArgsProblem>(ArgsProblem::MissingDomain)
            } else if words.len() == 1 {
                Ok(CommandView::Once { domain: words[0], code: 1, format: format })
            } else {
                match record_code(uppercase(words[1])) {
                    Some(code) => Ok(
                        CommandView::Once { domain: words[0], code, format: format },
                    ),
                    None => Err(ArgsProblem::UnknownType(words[1])),
                }
            }
        }),
        command_of(seq!["--once"@] + (a + (seq!["--output="@ + value] + b))) == ({
            let words = a + b;
            if words.len() == 0 {
                Err::<CommandView, ArgsProblem>(ArgsProblem::MissingDomain)
            } else if words.len() == 1 {
                Ok(CommandView::Once { domain: words[0], code: 1, format: format })
            } else {
                match record_code(uppercase(words[1])) {
                    Some(code) => Ok(
                        CommandView::Once { domain: words[0], code, format: format },
                    ),
                    None => Err(ArgsProblem::UnknownType(words[1])),
                }
            }
        }),
{
    let none = Seq::<Seq<char>>::empty();
    let text = OutputFormat::Text;
    let long = seq!["--output"@, value] + b;
    let short = seq!["--output="@ + value] + b;
    lemma_once_is_not_version();
    law_formats_have_names(value, format);
    lemma_scan_words(a, text, none);
    assert(none + a =~= a);
    lemma_scan_words(b, text, a);
    lemma_scan_words(b, format, a);
    lemma_scan_append(a, b, text, none);
    lemma_scan_append(a, long, text, none);
    lemma_scan_append(a, short, text, none);
    lemma_scan_output(value, b, text, a);
    assert((seq!["--once"@] + (a + b)).skip(1) =~= a + b);
    assert((seq!["--once"@] + (a + long)).skip(1) =~= a + long);
    assert((seq!["--once"@] + (a + short)).skip(1) =~= a + short);
}

/// The first fault from the left is what is reported, behind whatever is in
/// order.
pub proof fn law_first_fault_is_reported(
    a: Seq<Seq<char>>,
    b: Seq<Seq<char>>,
    flag: Seq<char>,
    value: Seq<char>,
)
    requires
        are_words(a) || command_of(seq!["--once"@] + a) is Ok,
    ensures
        flag.len() >= 2 && flag[0] == '-' && flag[1] == '-' && flag != "--output"@ && !(flag.len()
            >= 9 && flag.take(9) == "--output="@) ==> command_of(
            seq!["--once"@] + (a + (seq![flag] + b)),
        ) == Err::<CommandView, ArgsProblem>(ArgsProblem::UnknownFlag(flag)),
        command_of(seq!["--once"@] + (a + seq!["--output"@])) == Err::<CommandView, ArgsProblem>(
            ArgsProblem::MissingValue,
        ),
        !spells(value, OutputFormat::Text) && !spells(value, OutputFormat::Json) && !spells(
            value,
            OutputFormat::Csv,
        ) ==> command_of(seq!["--once"@] + (a + (seq!["--output"@, value] + b))) == Err::<
            CommandView,
            ArgsProblem,
        >(ArgsProblem::UnknownFormat(value)) && command_of(
            seq!["--once"@] + (a + (seq!["--output="@ + value] + b)),
        ) == Err::<CommandView, ArgsProblem>(ArgsProblem::UnknownFormat(value)),
{
    let none = Seq::<Seq<char>>::empty();
    let text = OutputFormat::Text;
    let once = seq!["--once"@];
    lemma_once_is_not_version();
    if are_words(a) {
        lemma_scan_words(a, text, none);
    }
    assert((once + a).skip(1) =~= a);
    let (f, p) = scan(a, text, none)->Ok_0;
    assert(scan(a, text, none) is Ok);
    reveal_strlit("--output=");
    lemma_dashes(flag);
    lemma_dashes("--output"@);
    law_formats_have_names(value, OutputFormat::Text);
    law_formats_have_names(value, OutputFormat::Json);
    law_formats_have_names(value, OutputFormat::Csv);
    lemma_scan_append(a, seq![flag] + b, text, none);
    lemma_scan_append(a, seq!["--output"@], text, none);
    lemma_scan_append(a, seq!["--output"@, value] + b, text, none);
    lemma_scan_append(a, seq!["--output="@ + value] + b, text, none);
    lemma_scan_output(value, b, f, p);
    assert((seq![flag] + b)[0] == flag);
    assert((once + (a + (seq![flag] + b))).skip(1) =~= a + (seq![flag] + b));
    assert((once + (a + seq!["--output"@])).skip(1) =~= a + seq!["--output"@]);
    assert((once + (a + (seq!["--output"@, value] + b))).skip(1) =~= a + (seq!["--output"@, value]
        + b));
    assert((once + (a + (seq!["--output="@ + value] + b))).skip(1) =~= a + (seq!["--output="@
        + value] + b));
}

/// An `--output` at the end sets the format, whatever was set before, and
/// changes neither the domain nor the record type.
pub proof fn law_last_output_wins(
    args: Seq<Seq<char>>,
    value: Seq<char>,
    format: OutputFormat,
    domain: Seq<char>,
    code: u16,
    before: OutputFormat,
)
    requires
        spells(value, format),
        command_of(seq!["--once"@] + args) == Ok::<CommandView, ArgsProblem>(
            CommandView::Once { domain, code, format: before },
        ),
    ensures
        command_of(seq!["--once"@] + (args + seq!["--output"@, value])) == Ok::<
            CommandView,
            ArgsProblem,
        >(CommandView::Once { domain, code, format }),
        command_of(seq!["--once"@] + (args + seq!["--output="@ + value])) == Ok::<
            CommandView,
            ArgsProblem,
        >(CommandView::Once { domain, code, format }),
{
    let none = Seq::<Seq<char>>::empty();
    let text = OutputFormat::Text;
    let once = seq!["--once"@];
    lemma_once_is_not_version();
    law_formats_have_names(value, format);
    assert((once + args).skip(1) =~= args);
    let (f, p) = scan(args, text, none)->Ok_0;
    lemma_scan_append(args, seq!["--output"@, value], text, none);
    lemma_scan_append(args, seq!["--output="@ + value], text, none);
    lemma_scan_output(value, none, f, p);
    assert(seq!["--output"@, value] + none =~= seq!["--output"@, value]);
    assert(seq!["--output="@ + value] + none =~= seq!["--output="@ + value]);
    assert((once + (args + seq!["--output"@, value])).skip(1) =~= args + seq!["--output"@, value]);
    assert((once + (args + seq!["--output="@ + value])).skip(1) =~= args + seq!["--output="@
        + value]);
}

/// Words leave the format alone.
proof fn lemma_scan_format(
    args: Seq<Seq<char>>,
    format: OutputFormat,
    p: Seq<Seq<char>>,
    q: Seq<Seq<char>>,
)
    ensures
        scan(args, format, p) is Ok <==> scan(args, format, q) is Ok,
        scan(args, format, p) is Ok ==> scan(args, format, p)->Ok_0.0 == scan(
            args,
            format,
            q,
        )->Ok_0.0,
    decreases args.len(),
{
    if args.len() > 0 {
        if args[0] == "--output"@ {
            if args.len() > 1 && format_named(args[1]) is Some {
                lemma_scan_format(args.skip(2), format_named(args[1])->0, p, q);
            }
        } else if starts_with(args[0], "--output="@) {
            let value = args[0].skip("--output="@.len() as int);
            if format_named(value) is Some {
                lemma_scan_format(args.skip(1), format_named(value)->0, p, q);
            }
        } else if !starts_with(args[0], "--"@) {
            lemma_scan_format(args.skip(1), format, p.push(args[0]), q.push(args[0]));
        }
    }
}

/// The format depends on `--output` alone: a word more or less, such as a
/// record type, never changes it.
pub proof fn law_words_never_change_the_format(
    a: Seq<Seq<char>>,
    word: Seq<char>,
    b: Seq<Seq<char>>,
)
    requires
        a.len() == 0 || a.last() != "--output"@,
        !(word.len() >= 2 && word[0] == '-' && word[1] == '-'),
    ensures
        match (
            command_of(seq!["--once"@] + (a + b)),
            command_of(seq!["--once"@] + (a + (seq![word] + b))),
        ) {
            (
                Ok(CommandView::Once { format: without, .. }),
                Ok(CommandView::Once { format: with, .. }),
            ) => without == with,
            _ => true,
        },
{
    let none = Seq::<Seq<char>>::empty();
    let text = OutputFormat::Text;
    let once = seq!["--once"@];
    let longer = seq![word] + b;
    lemma_once_is_not_version();
    lemma_dashes(word);
    assert((once + (a + b)).skip(1) =~= a + b);
    assert((once + (a + longer)).skip(1) =~= a + longer);
    lemma_scan_append(a, b, text, none);
    lemma_scan_append(a, longer, text, none);
    if scan(a, text, none) is Ok {
        let (f, p) = scan(a, text, none)->Ok_0;
        assert(longer[0] == word);
        assert(longer.skip(1) =~= b);
        lemma_scan_format(b, f, p, p.push(word));
    }
}

/// The check that arguments ask for keeps their domain and their format,
/// whatever the record type turns out to be.
pub proof fn law_check_keeps_domain_and_format(args: OnceArgsView, lookup: Option<u16>)
    ensures
        match once_command_of(args, lookup) {
            Ok(command) => {
                &&& args.record_type is None || lookup is Some
                &&& command matches CommandView::Once { domain, code, format } && domain
                    == args.domain && format == args.format && code == match (
                    args.record_type,
                    lookup,
                ) {
                    (Some(_), Some(found)) => found,
                    _ => 1,
                }
            },
            Err(problem) => args.record_type matches Some(name) && lookup is None && problem
                == ArgsProblem::UnknownType(name),
        },
{
}

/// The arguments of a single check are its first two words and its format.
pub proof fn law_arguments_are_words_and_format(
    a: Seq<Seq<char>>,
    b: Seq<Seq<char>>,
    value: Seq<char>,
    format: OutputFormat,
)
    requires
        are_words(a),
        are_words(b),
        spells(value, format),
        a.len() + b.len() > 0,
    ensures
        once_args(a + (seq!["--output"@, value] + b)) matches Ok(args) && args.domain == (a + b)[0]
            && args.format == format && (args.record_type is Some <==> a.len() + b.len() > 1) && (
        args.record_type matches Some(name) ==> name == (a + b)[1]),
        once_args(a + b) matches Ok(args) && args.domain == (a + b)[0] && args.format
            == OutputFormat::Text && (args.record_type is Some <==> a.len() + b.len() > 1) && (
        args.record_type matches Some(name) ==> name == (a + b)[1]),
{
    let none = Seq::<Seq<char>>::empty();
    let text = OutputFormat::Text;
    law_formats_have_names(value, format);
    lemma_scan_words(a, text, none);
    assert(none + a =~= a);
    lemma_scan_words(b, text, a);
    lemma_scan_words(b, format, a);
    lemma_scan_append(a, b, text, none);
    lemma_scan_append(a, seq!["--output"@, value] + b, text, none);
    lemma_scan_output(value, b, text, a);
}

proof fn lemma_two_words(args: Seq<Seq<char>>)
    requires
        args.len() == 2,
    ensures
        are_words(seq![args[0], args[1]]) ==> once_args(args) == Ok::<OnceArgsView, ArgsProblem>(
            OnceArgsView {
                domain: args[0],
                record_type: Some(args[1]),
                format: OutputFormat::Text,
            },
        ),
{
    let none = Seq::<Seq<char>>::empty();
    if are_words(seq![args[0], args[1]]) {
        assert(args =~= seq![args[0], args[1]]);
        lemma_scan_words(args, OutputFormat::Text, none);
        assert(none + args =~= args);
    }
}

proof fn lemma_two_words_and_output(args: Seq<Seq<char>>)
    requires
        args.len() == 4,
    ensures
        are_words(seq![args[0], args[1]]) && args[2] == "--output"@ ==> forall|asked: OutputFormat|
            #[trigger] spells(args[3], asked) ==> once_args(args) == Ok::<OnceArgsView, ArgsProblem>(
                OnceArgsView { domain: args[0], record_type: Some(args[1]), format: asked },
            ),
{
    let none = Seq::<Seq<char>>::empty();
    let words = seq![args[0], args[1]];
    if are_words(words) && args[2] == "--output"@ {
        assert forall|asked: OutputFormat| #[trigger] spells(args[3], asked) implies once_args(args)
            == Ok::<OnceArgsView, ArgsProblem>(
            OnceArgsView { domain: args[0], record_type: Some(args[1]), format: asked },
        ) by {
            law_arguments_are_words_and_format(words, none, args[3], asked);
            assert(words + (seq!["--output"@, args[3]] + none) =~= args);
            assert((words + none)[0] == args[0] && (words + none)[1] == args[1]);
        }
    }
}

/// What each problem says.
pub proof fn law_problems_are_explained(word: Seq<char>)
    ensures
        problem_text(ArgsProblem::MissingValue) == "--output requires a value\n"@
            + "usage: dnsglobe --once <domain> [type] [--output json|csv]"@,
        problem_text(ArgsProblem::UnknownFormat(word)) == "unknown output format: "@ + word
            + " (expected json or csv)"@,
        problem_text(ArgsProblem::UnknownFlag(word)) == "unknown flag: "@ + word + "\n"@
            + "usage: dnsglobe --once <domain> [type] [--output json|csv]"@,
        problem_text(ArgsProblem::MissingDomain)
            == "usage: dnsglobe --once <domain> [type] [--output json|csv]"@,
        problem_text(ArgsProblem::UnknownType(word)) == "unknown record type: "@ + word,
        problem_text(ArgsProblem::EmptyDomain) == "empty domain"@,
{
}

/// The contents of a command, of arguments and of an error are their fields.
pub proof fn law_contents_are_the_fields(command: Command, args: OnceArgs, err: ArgsError)
    ensures
        match command {
            Command::Version => command@ is Version,
            Command::Once { domain, code, format } => command@ == (CommandView::Once {
                domain: domain@,
                code,
                format,
            }),
            Command::Watch { domain } => command@ == (CommandView::Watch { domain: domain@ }),
        },
        args@.domain == args.domain@,
        args@.format == args.format,
        match args.record_type {
            Some(name) => args@.record_type == Some(name@),
            None => args@.record_type is None,
        },
        match err {
            ArgsError::MissingValue => err@ is MissingValue,
            ArgsError::UnknownFormat(word) => err@ == ArgsProblem::UnknownFormat(word@),
            ArgsError::UnknownFlag(word) => err@ == ArgsProblem::UnknownFlag(word@),
            ArgsError::MissingDomain => err@ is MissingDomain,
            ArgsError::UnknownType(word) => err@ == ArgsProblem::UnknownType(word@),
            ArgsError::EmptyDomain => err@ is EmptyDomain,
        },
{
}

} // verus!
