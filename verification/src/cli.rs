use vstd::prelude::*;
use crate::text::{
    chars_equal, chars_of, decimal, decimal_chars, is_white_space, opt_view, slice_chars,
    string_of, trim, trim_bounds, trim_end, trim_start,
};

verus! {

broadcast use vstd::string::group_string_axioms;

/// What a run does besides extracting.
#[derive(Clone, Copy, Debug, PartialEq, Eq, Structural)]
pub enum SpecialExecutionFlag {
    /// Extract the archive.
    Normal,
    /// Only say what an extraction would do.
    Dry,
    /// Only list the archive's entries.
    List,
}

/// A command line that cannot be run. The type is generic over the text it
/// quotes: `String` at run time, a sequence of characters in contracts.
#[derive(Debug, PartialEq, Eq)]
pub enum ArgError<S> {
    /// A flag that is not known.
    UnknownFlag(S),
    /// A second archive argument.
    ExtraArgument(S),
    /// The output flag (quoted) came last, without its directory.
    MissingOutputValue(S),
    /// No archive was named.
    MissingInput,
    /// `--here` together with an output directory.
    HereWithOutput,
    /// `--dry-run` together with `--list`.
    DryRunWithList,
}

/// What one command-line argument asks of the caller.
#[derive(Debug, PartialEq, Eq)]
pub enum ArgEvent<S> {
    /// Nothing: go on with the next argument.
    Continue,
    /// Print the usage and stop.
    Help,
    /// This argument names the archive: it must be an existing file.
    Input(S),
    /// This argument names the output directory: it must not be an
    /// existing non-directory.
    Output(S),
    /// The command line is refused.
    Failed(ArgError<S>),
}

/// A complete command line.
#[derive(Debug, PartialEq, Eq)]
pub struct Options<S> {
    pub input: S,
    pub output: Option<S>,
    pub here: bool,
    pub flag: SpecialExecutionFlag,
}

/// The state of the command-line parser after some of the arguments.
#[derive(Debug, PartialEq, Eq)]
pub struct ArgParser<S> {
    pub input: Option<S>,
    pub output: Option<S>,
    pub here: bool,
    pub dry: bool,
    pub list: bool,
    /// The output flag just seen, whose directory is the next argument.
    pub pending_output: Option<S>,
}

impl View for ArgError<String> {
    type V = ArgError<Seq<char>>;

    open spec fn view(&self) -> ArgError<Seq<char>> {
        match self {
            ArgError::UnknownFlag(s) => ArgError::UnknownFlag(s@),
            ArgError::ExtraArgument(s) => ArgError::ExtraArgument(s@),
            ArgError::MissingOutputValue(s) => ArgError::MissingOutputValue(s@),
            ArgError::MissingInput => ArgError::MissingInput,
            ArgError::HereWithOutput => ArgError::HereWithOutput,
            ArgError::DryRunWithList => ArgError::DryRunWithList,
        }
    }
}

impl View for ArgEvent<String> {
    type V = ArgEvent<Seq<char>>;

    open spec fn view(&self) -> ArgEvent<Seq<char>> {
        match self {
            ArgEvent::Continue => ArgEvent::Continue,
            ArgEvent::Help => ArgEvent::Help,
            ArgEvent::Input(s) => ArgEvent::Input(s@),
            ArgEvent::Output(s) => ArgEvent::Output(s@),
            ArgEvent::Failed(e) => ArgEvent::Failed(e@),
        }
    }
}

impl View for Options<String> {
    type V = Options<Seq<char>>;

    open spec fn view(&self) -> Options<Seq<char>> {
        Options {
            input: self.input@,
            output: opt_view(self.output),
            here: self.here,
            flag: self.flag,
        }
    }
}

impl View for ArgParser<String> {
    type V = ArgParser<Seq<char>>;

    open spec fn view(&self) -> ArgParser<Seq<char>> {
        ArgParser {
            input: opt_view(self.input),
            output: opt_view(self.output),
            here: self.here,
            dry: self.dry,
            list: self.list,
            pending_output: opt_view(self.pending_output),
        }
    }
}

/// The parser before any argument.
pub open spec fn initial_state() -> ArgParser<Seq<char>> {
    ArgParser { input: None, output: None, here: false, dry: false, list: false, pending_output: None }
}

/// The flags that ask for the usage.
pub open spec fn is_help_flag(arg: Seq<char>) -> bool {
    arg == "-h"@ || arg == "-?"@ || arg == "--help"@
}

/// The flags that take an output directory.
pub open spec fn is_output_flag(arg: Seq<char>) -> bool {
    arg == "-o"@ || arg == "--output"@
}

/// An argument that looks like a flag: it starts with a dash and is not the
/// single dash.
pub open spec fn looks_like_flag(arg: Seq<char>) -> bool {
    arg.len() > 0 && arg[0] == '-' && arg != "-"@
}

/// The parser's state and event after the argument `arg`.
pub open spec fn parse_step(s: ArgParser<Seq<char>>, arg: Seq<char>) -> (ArgParser<Seq<char>>, ArgEvent<Seq<char>>) {
    if s.pending_output is Some {
        (ArgParser { output: Some(arg), pending_output: None, ..s }, ArgEvent::Output(arg))
    } else if is_help_flag(arg) {
        (s, ArgEvent::Help)
    } else if arg == "--here"@ {
        (ArgParser { here: true, ..s }, ArgEvent::Continue)
    } else if arg == "--dry-run"@ {
        (ArgParser { dry: true, ..s }, ArgEvent::Continue)
    } else if arg == "--list"@ {
        (ArgParser { list: true, ..s }, ArgEvent::Continue)
    } else if is_output_flag(arg) {
        (ArgParser { pending_output: Some(arg), ..s }, ArgEvent::Continue)
    } else if looks_like_flag(arg) {
        (s, ArgEvent::Failed(ArgError::UnknownFlag(arg)))
    } else if s.input is Some {
        (s, ArgEvent::Failed(ArgError::ExtraArgument(arg)))
    } else {
        (ArgParser { input: Some(arg), ..s }, ArgEvent::Input(arg))
    }
}

/// The command line that the parser's state amounts to once every argument
/// has been read, or why there is none. The checks come in this order.
pub open spec fn finish_state(s: ArgParser<Seq<char>>) -> Result<Options<Seq<char>>, ArgError<Seq<char>>> {
    if s.pending_output is Some {
        Err(ArgError::MissingOutputValue(s.pending_output->0))
    } else if s.input is None {
        Err(ArgError::MissingInput)
    } else if s.here && s.output is Some {
        Err(ArgError::HereWithOutput)
    } else if s.dry && s.list {
        Err(ArgError::DryRunWithList)
    } else {
        Ok(
            Options {
                input: s.input->0,
                output: s.output,
                here: s.here,
                flag: if s.dry {
                    SpecialExecutionFlag::Dry
                } else if s.list {
                    SpecialExecutionFlag::List
                } else {
                    SpecialExecutionFlag::Normal
                },
            },
        )
    }
}

/// Each flag does what the usage says, whatever was read before it (no
/// output flag waiting for its directory): `--here`, `--dry-run` and
/// `--list` switch on their own setting and change nothing else; `-o` and
/// `--output` make the next argument the output directory; `-h`, `-?` and
/// `--help` ask for the usage and change nothing; and an output flag takes
/// the next argument as its directory, whatever that argument is.
pub proof fn lemma_flags_take_effect(s: ArgParser<Seq<char>>, arg: Seq<char>)
    ensures
        s.pending_output is None ==> {
            let (t, e) = parse_step(s, "--here"@);
            &&& t.here && e == ArgEvent::<Seq<char>>::Continue
            &&& t.input == s.input && t.output == s.output && t.dry == s.dry && t.list == s.list
            &&& t.pending_output is None
        },
        s.pending_output is None ==> {
            let (t, e) = parse_step(s, "--dry-run"@);
            &&& t.dry && e == ArgEvent::<Seq<char>>::Continue
            &&& t.input == s.input && t.output == s.output && t.here == s.here && t.list == s.list
            &&& t.pending_output is None
        },
        s.pending_output is None ==> {
            let (t, e) = parse_step(s, "--list"@);
            &&& t.list && e == ArgEvent::<Seq<char>>::Continue
            &&& t.input == s.input && t.output == s.output && t.here == s.here && t.dry == s.dry
            &&& t.pending_output is None
        },
        s.pending_output is None ==> {
            let (t, e) = parse_step(s, "-o"@);
            &&& t.pending_output == Some("-o"@) && e == ArgEvent::<Seq<char>>::Continue
            &&& t.input == s.input && t.output == s.output
        },
        s.pending_output is None ==> {
            let (t, e) = parse_step(s, "--output"@);
            &&& t.pending_output == Some("--output"@) && e == ArgEvent::<Seq<char>>::Continue
            &&& t.input == s.input && t.output == s.output
        },
        s.pending_output is None ==> parse_step(s, "-h"@) == (s, ArgEvent::<Seq<char>>::Help),
        s.pending_output is None ==> parse_step(s, "-?"@) == (s, ArgEvent::<Seq<char>>::Help),
        s.pending_output is None ==> parse_step(s, "--help"@) == (s, ArgEvent::<Seq<char>>::Help),
        s.pending_output is Some ==> {
            let (t, e) = parse_step(s, arg);
            &&& t.output == Some(arg) && t.pending_output is None && e == ArgEvent::Output(arg)
            &&& t.input == s.input && t.here == s.here && t.dry == s.dry && t.list == s.list
        },
{
    reveal_strlit("--here");
    reveal_strlit("--dry-run");
    reveal_strlit("--list");
    reveal_strlit("-o");
    reveal_strlit("--output");
    reveal_strlit("-h");
    reveal_strlit("-?");
    reveal_strlit("--help");
    assert("--here"@[4] != "--help"@[4]);
    assert("--list"@[2] != "--help"@[2]);
    assert("--list"@[2] != "--here"@[2]);
    assert("-o"@[1] != "-h"@[1]);
    assert("-o"@[1] != "-?"@[1]);
    assert("-?"@[1] != "-h"@[1]);
    assert("--output"@.len() == 8 && "--dry-run"@.len() == 9 && "--here"@.len() == 6);
    assert("--output"@ != "--dry-run"@);
    assert("--output"@ != "--here"@ && "--output"@ != "--help"@ && "--output"@ != "--list"@);
    assert(is_output_flag("--output"@));
}

/// An argument that is not a flag names the archive when none has been
/// named yet, and is refused as an extra argument otherwise.
pub proof fn lemma_plain_argument_names_archive(s: ArgParser<Seq<char>>, arg: Seq<char>)
    requires
        s.pending_output is None,
        arg.len() == 0 || arg[0] != '-' || arg == "-"@,
    ensures
        s.input is None ==> parse_step(s, arg) == (
            ArgParser { input: Some(arg), ..s },
            ArgEvent::<Seq<char>>::Input(arg),
        ),
        s.input is Some ==> parse_step(s, arg) == (
            s,
            ArgEvent::Failed(ArgError::<Seq<char>>::ExtraArgument(arg)),
        ),
{
    reveal_strlit("--here");
    reveal_strlit("--dry-run");
    reveal_strlit("--list");
    reveal_strlit("-o");
    reveal_strlit("--output");
    reveal_strlit("-h");
    reveal_strlit("-?");
    reveal_strlit("--help");
    reveal_strlit("-");
    if arg.len() > 0 && arg[0] == '-' {
        assert(arg == "-"@);
        assert(arg.len() == 1);
    }
}

/// A command line is accepted exactly when it names an archive, leaves no
/// output flag without its directory, and combines neither `--here` with
/// an output directory nor `--dry-run` with `--list`; what is accepted is
/// what was given: the archive, the output directory, `--here`, and a dry
/// run or a listing exactly when asked for.
pub proof fn lemma_finish_accepts(s: ArgParser<Seq<char>>)
    ensures
        finish_state(s) is Ok <==> (s.input is Some && s.pending_output is None && !(s.here
            && s.output is Some) && !(s.dry && s.list)),
        finish_state(s) matches Ok(o) ==> {
            &&& Some(o.input) == s.input
            &&& o.output == s.output
            &&& o.here == s.here
            &&& (o.flag == SpecialExecutionFlag::Dry <==> s.dry)
            &&& (o.flag == SpecialExecutionFlag::List <==> s.list)
        },
{
}

/// The flags are sticky: once `--here`, `--dry-run`, `--list` or an output
/// directory has been given, no later argument takes it back; and a command
/// line that holds both `--here` and an output directory, or both
/// `--dry-run` and `--list`, is refused.
pub proof fn lemma_conflicting_flags_refused(s: ArgParser<Seq<char>>, arg: Seq<char>)
    ensures
        ({
            let t = parse_step(s, arg).0;
            &&& s.here ==> t.here
            &&& s.dry ==> t.dry
            &&& s.list ==> t.list
            &&& s.output is Some ==> t.output is Some
        }),
        s.here && s.output is Some ==> finish_state(s) is Err,
        s.dry && s.list ==> finish_state(s) is Err,
{
}

fn same_text(a: &str, b: &str) -> (r: bool)
    ensures
        r == (a@ == b@),
{
    chars_equal(&chars_of(a), &chars_of(b))
}

fn copy_opt(s: &Option<String>) -> (r: Option<String>)
    ensures
        opt_view(r) == opt_view(*s),
{
    match s {
        Some(s) => Some(String::from_str(s.as_str())),
        None => None,
    }
}

impl ArgError<String> {
    /// Whether the usage is printed after the error: for every error but a
    /// missing output directory.
    pub fn shows_usage(&self) -> (r: bool)
        ensures
            r == !(self is MissingOutputValue),
    {
        !matches!(self, ArgError::MissingOutputValue(_))
    }
}

impl ArgParser<String> {
    /// The parser before any argument.
    pub fn new() -> (r: Self)
        ensures
            r@ == initial_state(),
    {
        ArgParser { input: None, output: None, here: false, dry: false, list: false, pending_output: None }
    }

    /// Reads one argument.
    pub fn step(&mut self, arg: &str) -> (r: ArgEvent<String>)
        ensures
            (final(self)@, r@) == parse_step(old(self)@, arg@),
    {
        let owned = String::from_str(arg);
        if self.pending_output.is_some() {
            self.pending_output = None;
            self.output = Some(String::from_str(arg));
            return ArgEvent::Output(owned);
        }
        if same_text(arg, "-h") || same_text(arg, "-?") || same_text(arg, "--help") {
            return ArgEvent::Help;
        }
        if same_text(arg, "--here") {
            self.here = true;
            return ArgEvent::Continue;
        }
        if same_text(arg, "--dry-run") {
            self.dry = true;
            return ArgEvent::Continue;
        }
        if same_text(arg, "--list") {
            self.list = true;
            return ArgEvent::Continue;
        }
        if same_text(arg, "-o") || same_text(arg, "--output") {
            self.pending_output = Some(owned);
            return ArgEvent::Continue;
        }
        let cs = chars_of(arg);
        if cs.len() > 0 && cs[0] == '-' && !same_text(arg, "-") {
            return ArgEvent::Failed(ArgError::UnknownFlag(owned));
        }
        if self.input.is_some() {
            return ArgEvent::Failed(ArgError::ExtraArgument(owned));
        }
        self.input = Some(String::from_str(arg));
        ArgEvent::Input(owned)
    }

    /// The command line, once every argument has been read.
    pub fn finish(&self) -> (r: Result<Options<String>, ArgError<String>>)
        ensures
            r matches Ok(o) ==> finish_state(self@) == Ok::<Options<Seq<char>>, ArgError<Seq<char>>>(o@),
            r matches Err(e) ==> finish_state(self@) == Err::<Options<Seq<char>>, ArgError<Seq<char>>>(e@),
    {
        if let Some(flag) = &self.pending_output {
            return Err(ArgError::MissingOutputValue(String::from_str(flag.as_str())));
        }
        let input = match &self.input {
            Some(i) => String::from_str(i.as_str()),
            None => {
                return Err(ArgError::MissingInput);
            },
        };
        if self.here && self.output.is_some() {
            return Err(ArgError::HereWithOutput);
        }
        if self.dry && self.list {
            return Err(ArgError::DryRunWithList);
        }
        let flag = if self.dry {
            SpecialExecutionFlag::Dry
        } else if self.list {
            SpecialExecutionFlag::List
        } else {
            SpecialExecutionFlag::Normal
        };
        Ok(Options { input, output: copy_opt(&self.output), here: self.here, flag })
    }
}


/// The reply to the question whether to extract into a directory that
/// already holds files.
#[derive(Clone, Copy, Debug, PartialEq, Eq, Structural)]
pub enum Answer {
    Proceed,
    Abort,
    AskAgain,
}

/// The reply that an answer line gives: once trimmed of white space and
/// lowered in case, "y" proceeds and "n" or nothing aborts; anything else
/// asks again. Only "Y" and "N" lower to "y" and "n", and a longer text
/// never lowers to one character.
pub open spec fn answer_of(line: Seq<char>) -> Answer {
    let t = trim(line);
    if t == "y"@ || t == "Y"@ {
        Answer::Proceed
    } else if t == "n"@ || t == "N"@ || t.len() == 0 {
        Answer::Abort
    } else {
        Answer::AskAgain
    }
}

proof fn lemma_trim_start_white(p: Seq<char>, x: Seq<char>)
    requires
        forall|i: int| 0 <= i < p.len() ==> is_white_space(#[trigger] p[i]),
    ensures
        trim_start(p + x) == trim_start(x),
    decreases p.len(),
{
    if p.len() > 0 {
        assert((p + x)[0] == p[0]);
        assert((p + x).drop_first() =~= p.drop_first() + x);
        assert forall|i: int| 0 <= i < p.drop_first().len() implies is_white_space(
            #[trigger] p.drop_first()[i],
        ) by {
            assert(p.drop_first()[i] == p[i + 1]);
        }
        lemma_trim_start_white(p.drop_first(), x);
    } else {
        assert(p + x =~= x);
    }
}

proof fn lemma_trim_end_white(m: Seq<char>, q: Seq<char>)
    requires
        forall|i: int| 0 <= i < q.len() ==> is_white_space(#[trigger] q[i]),
        m.len() > 0 ==> !is_white_space(m.last()),
    ensures
        trim_end(m + q) == m,
    decreases q.len(),
{
    if q.len() > 0 {
        assert((m + q).last() == q.last());
        assert((m + q).drop_last() =~= m + q.drop_last());
        assert forall|i: int| 0 <= i < q.drop_last().len() implies is_white_space(
            #[trigger] q.drop_last()[i],
        ) by {
            assert(q.drop_last()[i] == q[i]);
        }
        lemma_trim_end_white(m, q.drop_last());
    } else {
        assert(m + q =~= m);
        if m.len() == 0 {
            assert(m =~= Seq::<char>::empty());
        }
    }
}

/// Trimming removes exactly the white space around a text that neither
/// starts nor ends with white space.
proof fn lemma_trim_surrounded(p: Seq<char>, m: Seq<char>, q: Seq<char>)
    requires
        forall|i: int| 0 <= i < p.len() ==> is_white_space(#[trigger] p[i]),
        forall|i: int| 0 <= i < q.len() ==> is_white_space(#[trigger] q[i]),
        m.len() > 0 ==> !is_white_space(m[0]) && !is_white_space(m.last()),
    ensures
        trim(p + m + q) == m,
{
    assert(p + m + q =~= p + (m + q));
    lemma_trim_start_white(p, m + q);
    if m.len() > 0 {
        assert((m + q)[0] == m[0]);
        assert(trim_start(m + q) == m + q);
    } else {
        assert(m + q =~= q);
        lemma_trim_start_white(q, Seq::<char>::empty());
        assert(q + Seq::<char>::empty() =~= q);
        assert(trim_start(Seq::<char>::empty()) == Seq::<char>::empty());
    }
    lemma_trim_end_white(m, q);
    if m.len() == 0 {
        lemma_trim_end_white(Seq::<char>::empty(), Seq::<char>::empty());
    }
}

/// The reply is read from the word between any white space: "y" or "Y"
/// proceeds, "n", "N" or no word at all aborts, and any other word asks
/// again.
pub proof fn lemma_answer_words(p: Seq<char>, word: Seq<char>, q: Seq<char>)
    requires
        forall|i: int| 0 <= i < p.len() ==> is_white_space(#[trigger] p[i]),
        forall|i: int| 0 <= i < q.len() ==> is_white_space(#[trigger] q[i]),
        word.len() > 0 ==> !is_white_space(word[0]) && !is_white_space(word.last()),
    ensures
        word == "y"@ || word == "Y"@ ==> answer_of(p + word + q) == Answer::Proceed,
        word == "n"@ || word == "N"@ || word.len() == 0 ==> answer_of(p + word + q) == Answer::Abort,
        word != "y"@ && word != "Y"@ && word != "n"@ && word != "N"@ && word.len() > 0
            ==> answer_of(p + word + q) == Answer::AskAgain,
{
    lemma_trim_surrounded(p, word, q);
    reveal_strlit("y");
    reveal_strlit("Y");
    reveal_strlit("n");
    reveal_strlit("N");
    assert("n"@[0] != "y"@[0] && "n"@[0] != "Y"@[0] && "N"@[0] != "y"@[0] && "N"@[0] != "Y"@[0]);
    if word.len() == 0 {
        assert(word != "y"@ && word != "Y"@);
    }
}

/// Reads the reply to the question whether to go on with a non-empty
/// destination directory.
pub fn overwrite_answer(line: &str) -> (r: Answer)
    ensures
        r == answer_of(line@),
{
    let cs = chars_of(line);
    let (a, b) = trim_bounds(&cs);
    let t = slice_chars(&cs, a, b);
    if chars_equal(&t, &chars_of("y")) || chars_equal(&t, &chars_of("Y")) {
        Answer::Proceed
    } else if chars_equal(&t, &chars_of("n")) || chars_equal(&t, &chars_of("N")) || t.len() == 0 {
        Answer::Abort
    } else {
        Answer::AskAgain
    }
}

/// The line that a dry run prints.
pub open spec fn dry_run_text(count: nat, dest: Seq<char>, exists: bool, strip_root: bool) -> Seq<char> {
    "Would extract "@ + decimal(count) + " entries into "@ + dest + (if exists {
        " (exists)"@
    } else {
        ""@
    }) + (if strip_root {
        ", stripping common root"@
    } else {
        ""@
    })
}

/// What a dry run reports: how many entries would be extracted, where,
/// whether that directory exists already and whether the common root is
/// dropped.
pub fn dry_run_message(count: usize, dest: &str, exists: bool, strip_root: bool) -> (r: String)
    ensures
        r@ == dry_run_text(count as nat, dest@, exists, strip_root),
{
    let mut r = String::from_str("Would extract ");
    let digits = string_of(&decimal_chars(count as u64));
    r.append(digits.as_str());
    r.append(" entries into ");
    r.append(dest);
    if exists {
        r.append(" (exists)");
    } else {
        r.append("");
    }
    if strip_root {
        r.append(", stripping common root");
    } else {
        r.append("");
    }
    r
}

} // verus!
