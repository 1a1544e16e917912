//! The command line of the program, and the lines of its interactive mode.

use crate::text::{chars_of, decimal, decimal_text, join, joined, str_eq, texts, trim, trimmed};
use crate::tokenizer::Tokenizer;
use crate::tools::opt_text;
use vstd::prelude::*;

verus! {

/// The options of the program.
pub struct Opts {
    pub query: Option<String>,
    pub tools_path: Option<String>,
    /// A file whose text is the list of tools, word for word.
    pub tools_raw_path: Option<String>,
    pub model_dir: Option<String>,
    pub repl: bool,
    pub dry_run: bool,
    pub assume_yes: bool,
    pub raw: bool,
    pub no_constrain: bool,
    pub timing: bool,
    /// The size of the shortlist of tools; zero for no shortlist.
    pub top_k: usize,
    pub verify_tokenizer: Option<String>,
    /// A file whose lines are encoded and shown as token ids.
    pub tokenize: Option<String>,
}

/// Why the arguments were refused.
#[derive(Debug)]
pub enum UsageError {
    /// Help was asked for.
    Help,
    /// The size of the shortlist is missing or not a number.
    TopK,
    /// A flag is not known.
    UnknownFlag(String),
}

/// An `Opts`, as a mathematical value.
pub struct Settings {
    pub query: Option<Seq<char>>,
    pub tools_path: Option<Seq<char>>,
    pub tools_raw_path: Option<Seq<char>>,
    pub model_dir: Option<Seq<char>>,
    pub repl: bool,
    pub dry_run: bool,
    pub assume_yes: bool,
    pub raw: bool,
    pub no_constrain: bool,
    pub timing: bool,
    pub top_k: usize,
    pub verify_tokenizer: Option<Seq<char>>,
    pub tokenize: Option<Seq<char>>,
}

/// A `UsageError`, as a mathematical value.
pub enum Refusal {
    Help,
    TopK,
    UnknownFlag(Seq<char>),
}

impl View for Opts {
    type V = Settings;

    open spec fn view(&self) -> Settings {
        Settings {
            query: opt_text(self.query),
            tools_path: opt_text(self.tools_path),
            tools_raw_path: opt_text(self.tools_raw_path),
            model_dir: opt_text(self.model_dir),
            repl: self.repl,
            dry_run: self.dry_run,
            assume_yes: self.assume_yes,
            raw: self.raw,
            no_constrain: self.no_constrain,
            timing: self.timing,
            top_k: self.top_k,
            verify_tokenizer: opt_text(self.verify_tokenizer),
            tokenize: opt_text(self.tokenize),
        }
    }
}

impl View for UsageError {
    type V = Refusal;

    open spec fn view(&self) -> Refusal {
        match self {
            UsageError::Help => Refusal::Help,
            UsageError::TopK => Refusal::TopK,
            UsageError::UnknownFlag(s) => Refusal::UnknownFlag(s@),
        }
    }
}

/// The settings without any argument.
pub open spec fn default_settings() -> Settings {
    Settings {
        query: None,
        tools_path: None,
        tools_raw_path: None,
        model_dir: None,
        repl: false,
        dry_run: false,
        assume_yes: false,
        raw: false,
        no_constrain: false,
        timing: false,
        top_k: 6,
        verify_tokenizer: None,
        tokenize: None,
    }
}

/// The value of a sequence of decimal digits.
pub open spec fn digits_value(s: Seq<char>) -> nat
    decreases s.len(),
{
    if s.len() == 0 {
        0
    } else {
        (10 * digits_value(s.drop_last()) + (s.last() as int - '0' as int)) as nat
    }
}

/// Is it one or more decimal digits?
pub open spec fn is_digits(s: Seq<char>) -> bool {
    s.len() > 0 && forall|i: int| 0 <= i < s.len() ==> '0' <= #[trigger] s[i] <= '9'
}

/// The digits of a numeral that may have a plus sign in front.
pub open spec fn unsigned_part(s: Seq<char>) -> Seq<char> {
    if s.len() > 0 && s[0] == '+' {
        s.skip(1)
    } else {
        s
    }
}

/// The number that a text stands for: digits, with or without a plus sign in
/// front, whose value fits.
pub open spec fn number_in(s: Seq<char>) -> Option<usize> {
    let digits = unsigned_part(s);
    if is_digits(digits) && digits_value(digits) <= usize::MAX {
        Some(digits_value(digits) as usize)
    } else {
        None
    }
}

/// A longer sequence of digits has no smaller value.
proof fn lemma_digits_grow(s: Seq<char>, n: int)
    requires
        0 <= n <= s.len(),
        forall|i: int| 0 <= i < s.len() ==> '0' <= #[trigger] s[i] <= '9',
    ensures
        digits_value(s.take(n)) <= digits_value(s),
    decreases s.len() - n,
{
    if n < s.len() {
        lemma_digits_grow(s, n + 1);
        assert(s.take(n + 1).drop_last() =~= s.take(n));
        assert(s.take(n + 1).last() == s[n]);
    } else {
        assert(s.take(n) =~= s);
    }
}

/// Reads a number.
pub fn parse_number(s: &str) -> (r: Option<usize>)
    ensures
        r == number_in(s@),
{
    let cs = chars_of(s);
    let n: usize = cs.len();
    let start: usize = if n > 0 && cs[0] == '+' {
        1
    } else {
        0
    };
    let ghost digits = unsigned_part(s@);
    assert(start == 0 ==> digits =~= cs@.skip(0));
    if start == n {
        return None;
    }
    let mut value: usize = 0;
    assert(digits.take(0) =~= Seq::empty());
    for i in start..n
        invariant
            n == cs@.len(),
            start <= n,
            digits == unsigned_part(s@),
            digits == cs@.skip(start as int),
            number_in(s@) == (if is_digits(digits) && digits_value(digits) <= usize::MAX {
                Some(digits_value(digits) as usize)
            } else {
                None::<usize>
            }),
            forall|j: int| 0 <= j < i - start ==> '0' <= #[trigger] digits[j] <= '9',
            value == digits_value(digits.take(i - start)),
    {
        let c = cs[i];
        assert(digits[i - start] == c);
        if c < '0' || '9' < c {
            return None;
        }
        let d: usize = (c as u32 - 48) as usize;
        let ghost longer = digits.take(i + 1 - start);
        assert(longer.drop_last() =~= digits.take(i - start));
        assert(longer.last() == c);
        match value.checked_mul(10) {
            Some(v) => match v.checked_add(d) {
                Some(v) => {
                    value = v;
                },
                None => {
                    proof {
                        if is_digits(digits) {
                            lemma_digits_grow(digits, i + 1 - start);
                        }
                    }
                    return None;
                },
            },
            None => {
                proof {
                    if is_digits(digits) {
                        lemma_digits_grow(digits, i + 1 - start);
                    }
                }
                return None;
            },
        }
    }
    assert(digits.take(digits.len() as int) =~= digits);
    Some(value)
}

/// What comes after a flag with a value: nothing where the flag is the last
/// argument.
pub open spec fn value_after(args: Seq<Seq<char>>) -> Option<Seq<char>> {
    if args.len() > 1 {
        Some(args[1])
    } else {
        None
    }
}

/// The arguments after a flag and its value.
pub open spec fn after_value(args: Seq<Seq<char>>) -> Seq<Seq<char>> {
    if args.len() > 1 {
        args.skip(2)
    } else {
        Seq::empty()
    }
}

/// The settings after one more argument, and how many arguments it took, or
/// why the arguments are refused.
pub open spec fn one_argument(s: Settings, args: Seq<Seq<char>>) -> Result<
    (Settings, bool),
    Refusal,
> {
    let arg = args[0];
    if arg == "--tools"@ {
        Ok((Settings { tools_path: value_after(args), ..s }, true))
    } else if arg == "--tools-raw"@ {
        Ok((Settings { tools_raw_path: value_after(args), ..s }, true))
    } else if arg == "--model-dir"@ {
        Ok((Settings { model_dir: value_after(args), ..s }, true))
    } else if arg == "--repl"@ {
        Ok((Settings { repl: true, ..s }, false))
    } else if arg == "--dry-run"@ {
        Ok((Settings { dry_run: true, ..s }, false))
    } else if arg == "-y"@ || arg == "--yes"@ {
        Ok((Settings { assume_yes: true, ..s }, false))
    } else if arg == "--raw"@ {
        Ok((Settings { raw: true, ..s }, false))
    } else if arg == "--no-constrain"@ {
        Ok((Settings { no_constrain: true, ..s }, false))
    } else if arg == "--top-k"@ {
        match value_after(args) {
            Some(v) => match number_in(v) {
                Some(k) => Ok((Settings { top_k: k, ..s }, true)),
                None => Err(Refusal::TopK),
            },
            None => Err(Refusal::TopK),
        }
    } else if arg == "--time"@ {
        Ok((Settings { timing: true, ..s }, false))
    } else if arg == "verify-tokenizer"@ {
        Ok((Settings { verify_tokenizer: value_after(args), ..s }, true))
    } else if arg == "tokenize"@ {
        Ok((Settings { tokenize: value_after(args), ..s }, true))
    } else if arg == "-h"@ || arg == "--help"@ {
        Err(Refusal::Help)
    } else if arg.len() > 0 && arg[0] == '-' {
        Err(Refusal::UnknownFlag(arg))
    } else {
        Ok((Settings { query: Some(arg), ..s }, false))
    }
}

/// The settings after all arguments, taken one after the other. Later ones win
/// over earlier ones, and the first one that is refused decides.
pub open spec fn all_arguments(s: Settings, args: Seq<Seq<char>>) -> Result<Settings, Refusal>
    decreases args.len(),
{
    if args.len() == 0 {
        Ok(s)
    } else {
        match one_argument(s, args) {
            Ok((next, true)) => all_arguments(next, after_value(args)),
            Ok((next, false)) => all_arguments(next, args.skip(1)),
            Err(e) => Err(e),
        }
    }
}

/// The value after the flag at `i`.
fn value_at(args: &Vec<String>, i: usize) -> (r: Option<String>)
    requires
        i < args@.len(),
    ensures
        opt_text(r) == value_after(texts(args@).skip(i as int)),
{
    if args.len() - i > 1 {
        Some(args[i + 1].clone())
    } else {
        None
    }
}

/// Takes the argument at `i`. Says whether it took a value too.
fn take_argument(opts: &mut Opts, args: &Vec<String>, i: usize) -> (r: Result<bool, UsageError>)
    requires
        i < args@.len(),
    ensures
        match one_argument(old(opts)@, texts(args@).skip(i as int)) {
            Ok((s, two)) => r == Ok::<bool, UsageError>(two) && final(opts)@ == s,
            Err(e) => r matches Err(f) && f@ == e,
        },
{
    let arg = args[i].as_str();
    assert(texts(args@).skip(i as int)[0] == arg@);
    if str_eq(arg, "--tools") {
        opts.tools_path = value_at(args, i);
        Ok(true)
    } else if str_eq(arg, "--tools-raw") {
        opts.tools_raw_path = value_at(args, i);
        Ok(true)
    } else if str_eq(arg, "--model-dir") {
        opts.model_dir = value_at(args, i);
        Ok(true)
    } else if str_eq(arg, "--repl") {
        opts.repl = true;
        Ok(false)
    } else if str_eq(arg, "--dry-run") {
        opts.dry_run = true;
        Ok(false)
    } else if str_eq(arg, "-y") || str_eq(arg, "--yes") {
        opts.assume_yes = true;
        Ok(false)
    } else if str_eq(arg, "--raw") {
        opts.raw = true;
        Ok(false)
    } else if str_eq(arg, "--no-constrain") {
        opts.no_constrain = true;
        Ok(false)
    } else if str_eq(arg, "--top-k") {
        match value_at(args, i) {
            Some(v) => match parse_number(v.as_str()) {
                Some(k) => {
                    opts.top_k = k;
                    Ok(true)
                },
                None => Err(UsageError::TopK),
            },
            None => Err(UsageError::TopK),
        }
    } else if str_eq(arg, "--time") {
        opts.timing = true;
        Ok(false)
    } else if str_eq(arg, "verify-tokenizer") {
        opts.verify_tokenizer = value_at(args, i);
        Ok(true)
    } else if str_eq(arg, "tokenize") {
        opts.tokenize = value_at(args, i);
        Ok(true)
    } else if str_eq(arg, "-h") || str_eq(arg, "--help") {
        Err(UsageError::Help)
    } else {
        let cs = chars_of(arg);
        if cs.len() > 0 && cs[0] == '-' {
            Err(UsageError::UnknownFlag(args[i].clone()))
        } else {
            opts.query = Some(args[i].clone());
            Ok(false)
        }
    }
}

/// Reads the arguments of the program, without its name.
pub fn parse_args(args: &Vec<String>) -> (r: Result<Opts, UsageError>)
    ensures
        match all_arguments(default_settings(), texts(args@)) {
            Ok(s) => r matches Ok(opts) && opts@ == s,
            Err(e) => r matches Err(f) && f@ == e,
        },
{
    let mut opts = Opts {
        query: None,
        tools_path: None,
        tools_raw_path: None,
        model_dir: None,
        repl: false,
        dry_run: false,
        assume_yes: false,
        raw: false,
        no_constrain: false,
        timing: false,
        top_k: 6,
        verify_tokenizer: None,
        tokenize: None,
    };
    let ghost all = texts(args@);
    let n: usize = args.len();
    let mut i: usize = 0;
    assert(all.skip(0) =~= all);
    while i < n
        invariant
            n == args@.len(),
            i <= n,
            all == texts(args@),
            all_arguments(default_settings(), all) == all_arguments(opts@, all.skip(i as int)),
        decreases n - i,
    {
        let ghost rest = all.skip(i as int);
        match take_argument(&mut opts, args, i) {
            Ok(true) => {
                if n - i > 1 {
                    assert(rest.skip(2) =~= all.skip(i + 2));
                    i = i + 2;
                } else {
                    assert(after_value(rest) =~= all.skip(i + 1));
                    i = i + 1;
                }
            },
            Ok(false) => {
                assert(rest.skip(1) =~= all.skip(i + 1));
                i = i + 1;
            },
            Err(e) => {
                return Err(e);
            },
        }
    }
    Ok(opts)
}

/// Where a file or directory is looked for.
#[derive(Debug)]
pub enum Location {
    /// At this path.
    At(String),
    /// At a path inside the program's home directory.
    InHome { home: String, sub: String },
}

/// A `Location`, as a mathematical value.
pub enum Place {
    At(Seq<char>),
    InHome { home: Seq<char>, sub: Seq<char> },
}

impl View for Location {
    type V = Place;

    open spec fn view(&self) -> Place {
        match self {
            Location::At(p) => Place::At(p@),
            Location::InHome { home, sub } => Place::InHome { home: home@, sub: sub@ },
        }
    }
}

/// Where a file or directory is looked for.
pub open spec fn place_of(
    base: Option<Seq<char>>,
    home: Option<Seq<char>>,
    sub: Seq<char>,
    fallback: Seq<char>,
) -> Place {
    match (base, home) {
        (Some(p), _) => Place::At(p),
        (None, Some(h)) => Place::InHome { home: h, sub },
        (None, None) => Place::At(fallback),
    }
}

/// Decides where a file or directory is looked for: where the options say, or
/// else inside the home directory, or else at the fallback.
pub fn resolve(base: Option<String>, home: Option<String>, env_sub: &str, fallback: &str) -> (r:
    Location)
    ensures
        match (base, home) {
            (Some(p), _) => r == Location::At(p),
            (None, Some(h)) => r matches Location::InHome { home: d, sub } && d == h && sub@
                == env_sub@,
            (None, None) => r matches Location::At(p) && p@ == fallback@,
        },
        r@ == place_of(opt_text(base), opt_text(home), env_sub@, fallback@),
{
    match base {
        Some(p) => Location::At(p),
        None => match home {
            Some(home) => Location::InHome { home, sub: env_sub.to_owned() },
            None => Location::At(fallback.to_owned()),
        },
    }
}

/// Is a list of this many tools shortened to this size?
pub open spec fn is_shortened(raw_tools: bool, top_k: int, tools: int, has_head: bool) -> bool {
    !raw_tools && top_k > 0 && tools > top_k && has_head
}

/// Is the prompt's list of tools shortened? It is where it is not given word
/// for word, a size is set, there are more tools than that, and the model can
/// embed.
pub fn use_retrieval(raw_tools: bool, top_k: usize, tools: usize, has_head: bool) -> (r: bool)
    ensures
        r == (!raw_tools && top_k > 0 && tools > top_k && has_head),
        r == is_shortened(raw_tools, top_k as int, tools as int, has_head),
{
    !raw_tools && top_k > 0 && tools > top_k && has_head
}

/// What a line of the interactive mode asks for.
#[derive(Debug)]
pub enum ReplInput {
    /// Nothing.
    Skip,
    /// To leave.
    Quit,
    Request(String),
}

/// A `ReplInput`, as a mathematical value.
pub enum Asked {
    Nothing,
    ToLeave,
    Request(Seq<char>),
}

impl View for ReplInput {
    type V = Asked;

    open spec fn view(&self) -> Asked {
        match self {
            ReplInput::Skip => Asked::Nothing,
            ReplInput::Quit => Asked::ToLeave,
            ReplInput::Request(q) => Asked::Request(q@),
        }
    }
}

/// What a line of the interactive mode asks for.
pub open spec fn asked(line: Seq<char>) -> Asked {
    let s = trimmed(line);
    if s.len() == 0 {
        Asked::Nothing
    } else if is_quit(s) {
        Asked::ToLeave
    } else {
        Asked::Request(s)
    }
}

/// Is it one of the words to leave with?
pub open spec fn is_quit(s: Seq<char>) -> bool {
    s == "q"@ || s == "quit"@ || s == "exit"@
}

/// Reads a line of the interactive mode; white space around it does not count.
pub fn read_line(line: &str) -> (r: ReplInput)
    ensures
        ({
            let s = trimmed(line@);
            if s.len() == 0 {
                r is Skip
            } else if is_quit(s) {
                r is Quit
            } else {
                r matches ReplInput::Request(q) && q@ == s
            }
        }),
        r@ == asked(line@),
{
    let s = trim(line);
    proof {
        reveal_strlit("q");
        reveal_strlit("quit");
        reveal_strlit("exit");
    }
    if s.as_str().is_empty() {
        ReplInput::Skip
    } else if str_eq(s.as_str(), "q") || str_eq(s.as_str(), "quit") || str_eq(s.as_str(), "exit") {
        ReplInput::Quit
    } else {
        ReplInput::Request(s)
    }
}

/// The numerals of the ids.
pub open spec fn numerals(ids: Seq<u32>) -> Seq<Seq<char>> {
    ids.map_values(|id: u32| decimal(id as nat))
}

/// The token ids of a line of text, in decimal, with a space between each two.
pub fn token_line(tok: &Tokenizer, line: &str) -> (r: String)
    ensures
        r@ == joined(numerals(tok@.encoded(line@)), ' '),
{
    let ids = tok.encode(line);
    let mut parts: Vec<String> = Vec::new();
    for i in 0..ids.len()
        invariant
            texts(parts@) == numerals(ids@).take(i as int),
    {
        let ghost before = texts(parts@);
        let part = decimal_text(ids[i] as u64);
        parts.push(part);
        assert(texts(parts@) =~= before.push(decimal(ids@[i as int] as nat)));
        assert(numerals(ids@).take(i + 1) =~= numerals(ids@).take(i as int).push(
            numerals(ids@)[i as int],
        ));
    }
    assert(numerals(ids@).take(ids@.len() as int) =~= numerals(ids@));
    join(&parts, ' ')
}

} // verus!
