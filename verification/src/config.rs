//! The options of a search and how they are read from command-line
//! arguments.

use vstd::prelude::*;
use vstd::string::StringExecFns;
use crate::candidate::{Candidate, CaseSensitivity, Query, ScoredPath, TypeFilter, fold};
use crate::align::smaller;
use crate::order::{ranked, views};
use crate::rank::is_ranking;
use crate::search::{candidate_views, scored_all, search};
use crate::text::{chars_of, first_char, same_text};

verus! {

/// The number of results where the arguments give none.
pub const DEFAULT_NUM: usize = 10;

/// The options of a search.
#[derive(Debug)]
pub struct Config {
    pub query: String,
    pub root: String,
    pub num: usize,
    pub files_only: bool,
    pub dirs_only: bool,
    pub case: CaseSensitivity,
    pub parallel: bool,
    pub help: bool,
    pub version: bool,
}

/// The options, with their texts as sequences of characters.
pub ghost struct ConfigView {
    pub query: Seq<char>,
    pub root: Seq<char>,
    pub num: usize,
    pub files_only: bool,
    pub dirs_only: bool,
    pub case: CaseSensitivity,
    pub parallel: bool,
    pub help: bool,
    pub version: bool,
}

impl View for Config {
    type V = ConfigView;

    open spec fn view(&self) -> ConfigView {
        ConfigView {
            query: self.query@,
            root: self.root@,
            num: self.num,
            files_only: self.files_only,
            dirs_only: self.dirs_only,
            case: self.case,
            parallel: self.parallel,
            help: self.help,
            version: self.version,
        }
    }
}

/// What the arguments read so far have set.
pub ghost struct Parsed {
    pub query: Option<Seq<char>>,
    pub root: Option<Seq<char>>,
    pub num: usize,
    pub files_only: bool,
    pub dirs_only: bool,
    pub case: CaseSensitivity,
    pub parallel: bool,
    pub help: bool,
    pub version: bool,
}

/// The options before any argument is read.
pub open spec fn defaults() -> Parsed {
    Parsed {
        query: None,
        root: None,
        num: DEFAULT_NUM,
        files_only: false,
        dirs_only: false,
        case: CaseSensitivity::Insensitive,
        parallel: true,
        help: false,
        version: false,
    }
}

/// The value of a decimal digit.
pub open spec fn digit_value(c: char) -> Option<int> {
    if c == '0' {
        Some(0)
    } else if c == '1' {
        Some(1)
    } else if c == '2' {
        Some(2)
    } else if c == '3' {
        Some(3)
    } else if c == '4' {
        Some(4)
    } else if c == '5' {
        Some(5)
    } else if c == '6' {
        Some(6)
    } else if c == '7' {
        Some(7)
    } else if c == '8' {
        Some(8)
    } else if c == '9' {
        Some(9)
    } else {
        None
    }
}

/// The number that a sequence of decimal digits denotes, if all of its
/// characters are digits. The empty sequence denotes zero.
pub open spec fn digits_value(digits: Seq<char>) -> Option<int>
    decreases digits.len(),
{
    if digits.len() == 0 {
        Some(0)
    } else {
        match (digits_value(digits.drop_last()), digit_value(digits.last())) {
            (Some(value), Some(digit)) => Some(10 * value + digit),
            _ => None,
        }
    }
}

/// The digits of `text`: what follows its plus sign, if it begins with one.
pub open spec fn digits_of(text: Seq<char>) -> Seq<char> {
    if text.len() > 0 && text[0] == '+' {
        text.drop_first()
    } else {
        text
    }
}

/// The count that `text` denotes: decimal digits, at least one, after an
/// optional plus sign, with a value that a `usize` holds.
pub open spec fn count_value(text: Seq<char>) -> Option<usize> {
    let digits = digits_of(text);
    if digits.len() == 0 {
        None
    } else {
        match digits_value(digits) {
            Some(value) => if value <= usize::MAX {
                Some(value as usize)
            } else {
                None
            },
            None => None,
        }
    }
}

/// The value of the decimal digit `c`.
fn digit_of(c: char) -> (digit: Option<usize>)
    ensures
        match digit {
            Some(d) => digit_value(c) == Some(d as int) && d <= 9,
            None => digit_value(c) is None,
        },
{
    match c {
        '0' => Some(0),
        '1' => Some(1),
        '2' => Some(2),
        '3' => Some(3),
        '4' => Some(4),
        '5' => Some(5),
        '6' => Some(6),
        '7' => Some(7),
        '8' => Some(8),
        '9' => Some(9),
        _ => None,
    }
}

/// Digits denote at least what any of their prefixes denotes, and where a
/// prefix denotes nothing they denote nothing.
proof fn lemma_digits_value_grows(digits: Seq<char>, n: int)
    requires
        0 <= n <= digits.len(),
    ensures
        match digits_value(digits) {
            Some(value) => digits_value(digits.take(n)) matches Some(part) && 0 <= part <= value,
            None => true,
        },
    decreases digits.len() - n,
{
    if n == digits.len() {
        assert(digits.take(n) =~= digits);
        lemma_digits_value_nonnegative(digits);
    } else {
        lemma_digits_value_grows(digits.drop_last(), n);
        assert(digits.drop_last().take(n) =~= digits.take(n));
    }
}

/// Digits denote no negative number.
proof fn lemma_digits_value_nonnegative(digits: Seq<char>)
    ensures
        digits_value(digits) matches Some(value) ==> value >= 0,
    decreases digits.len(),
{
    if digits.len() > 0 {
        lemma_digits_value_nonnegative(digits.drop_last());
    }
}

/// Reads a count as `usize::from_str` does: decimal digits after an
/// optional plus sign.
pub fn parse_count(text: &str) -> (count: Option<usize>)
    ensures
        count == count_value(text@),
{
    let chars: Vec<char> = chars_of(text);
    let start: usize = if chars.len() > 0 && chars[0] == '+' {
        1
    } else {
        0
    };
    if start == chars.len() {
        return None;
    }
    let ghost digits = chars@.skip(start as int);
    let mut value: usize = 0;
    let mut i: usize = start;
    while i < chars.len()
        invariant
            start <= i <= chars@.len(),
            start < chars@.len(),
            digits == chars@.skip(start as int),
            digits == digits_of(text@),
            digits_value(digits.take(i - start)) == Some(value as int),
        decreases chars@.len() - i,
    {
        let ghost seen = digits.take(i - start);
        let ghost next = digits.take(i - start + 1);
        assert(next.drop_last() =~= seen);
        proof {
            lemma_digits_value_grows(digits, i - start + 1);
        }
        match digit_of(chars[i]) {
            None => {
                return None;
            },
            Some(digit) => {
                if value > (usize::MAX - digit) / 10 {
                    return None;
                }
                value = 10 * value + digit;
            },
        }
        i += 1;
    }
    assert(digits.take(i - start) =~= digits);
    Some(value)
}

/// The views of a sequence of texts.
pub open spec fn texts(args: Seq<String>) -> Seq<Seq<char>> {
    args.map_values(|arg: String| arg@)
}

/// Whether `arg` has the form of an option: it begins with `-`.
pub open spec fn is_option(arg: Seq<char>) -> bool {
    arg.len() > 0 && arg[0] == '-'
}

/// Reads the arguments from place `i` on, with `state` set by those before.
/// A flag sets its option; `-n` takes the next argument as the count,
/// whatever its form. Any other argument that begins with `-` is an option
/// that is not known, and is refused. Of the arguments that are no options
/// the first is the query, the second the root, and a third is refused.
pub open spec fn parse_from(args: Seq<Seq<char>>, i: int, state: Parsed) -> Result<
    Parsed,
    Seq<char>,
>
    decreases args.len() - i,
{
    if i < 0 || i >= args.len() {
        Ok(state)
    } else {
        let arg = args[i];
        if arg == "-h"@ || arg == "--help"@ {
            parse_from(args, i + 1, Parsed { help: true, ..state })
        } else if arg == "-v"@ || arg == "--version"@ {
            parse_from(args, i + 1, Parsed { version: true, ..state })
        } else if arg == "-n"@ || arg == "--num"@ {
            if i + 1 >= args.len() {
                Err("Expected a number after --num"@)
            } else {
                match count_value(args[i + 1]) {
                    Some(num) => parse_from(args, i + 2, Parsed { num, ..state }),
                    None => Err("Invalid number for --num"@),
                }
            }
        } else if arg == "--files-only"@ {
            parse_from(args, i + 1, Parsed { files_only: true, ..state })
        } else if arg == "--dirs-only"@ {
            parse_from(args, i + 1, Parsed { dirs_only: true, ..state })
        } else if arg == "-i"@ || arg == "--ignore-case"@ {
            parse_from(args, i + 1, Parsed { case: CaseSensitivity::Insensitive, ..state })
        } else if arg == "-s"@ || arg == "--case-sensitive"@ {
            parse_from(args, i + 1, Parsed { case: CaseSensitivity::Sensitive, ..state })
        } else if arg == "--no-parallel"@ {
            parse_from(args, i + 1, Parsed { parallel: false, ..state })
        } else if is_option(arg) {
            Err("Unknown argument: "@ + arg)
        } else if state.query is None {
            parse_from(args, i + 1, Parsed { query: Some(arg), ..state })
        } else if state.root is None {
            parse_from(args, i + 1, Parsed { root: Some(arg), ..state })
        } else {
            Err("Unknown argument: "@ + arg)
        }
    }
}

/// The options that the arguments have set, once all are read. A request
/// for help or for the version needs no query; otherwise the query must be
/// there, and the root is the current directory where none was given.
pub open spec fn finish(state: Parsed) -> Result<ConfigView, Seq<char>> {
    if state.help || state.version {
        Ok(
            ConfigView {
                query: Seq::empty(),
                root: Seq::empty(),
                num: state.num,
                files_only: state.files_only,
                dirs_only: state.dirs_only,
                case: state.case,
                parallel: state.parallel,
                help: state.help,
                version: state.version,
            },
        )
    } else {
        match state.query {
            None => Err("Missing query argument. Use -h for help."@),
            Some(query) => Ok(
                ConfigView {
                    query,
                    root: match state.root {
                        Some(root) => root,
                        None => "."@,
                    },
                    num: state.num,
                    files_only: state.files_only,
                    dirs_only: state.dirs_only,
                    case: state.case,
                    parallel: state.parallel,
                    help: state.help,
                    version: state.version,
                },
            ),
        }
    }
}

/// The options that the arguments of a command line denote, or the message
/// that tells what is wrong with them. The first argument is the name of
/// the program and is not read.
pub open spec fn parse_args(args: Seq<Seq<char>>) -> Result<ConfigView, Seq<char>> {
    match parse_from(args, 1, defaults()) {
        Ok(state) => finish(state),
        Err(message) => Err(message),
    }
}

/// Whether `first` is the character `-`.
fn is_dash(first: Option<char>) -> (dash: bool)
    ensures
        dash == (first == Some('-')),
{
    match first {
        Some(c) => c == '-',
        None => false,
    }
}

/// The view of the outcome of reading arguments.
pub open spec fn outcome_view(outcome: Result<Config, String>) -> Result<ConfigView, Seq<char>> {
    match outcome {
        Ok(config) => Ok(config@),
        Err(message) => Err(message@),
    }
}

/// The view of an optional text.
pub open spec fn text_view(text: Option<String>) -> Option<Seq<char>> {
    match text {
        Some(text) => Some(text@),
        None => None,
    }
}

impl Config {
    /// Reads the options from the arguments of a command line, the name of
    /// the program first.
    pub fn from_args(args: &Vec<String>) -> (outcome: Result<Config, String>)
        ensures
            outcome_view(outcome) == parse_args(texts(args@)),
    {
        let ghost all = texts(args@);
        let mut query: Option<String> = None;
        let mut root: Option<String> = None;
        let mut num: usize = DEFAULT_NUM;
        let mut files_only: bool = false;
        let mut dirs_only: bool = false;
        let mut case: CaseSensitivity = CaseSensitivity::Insensitive;
        let mut parallel: bool = true;
        let mut help: bool = false;
        let mut version: bool = false;
        let mut i: usize = 1;
        while i < args.len()
            invariant
                1 <= i,
                all == texts(args@),
                parse_from(all, 1, defaults()) == parse_from(
                    all,
                    i as int,
                    Parsed {
                        query: text_view(query),
                        root: text_view(root),
                        num,
                        files_only,
                        dirs_only,
                        case,
                        parallel,
                        help,
                        version,
                    },
                ),
            decreases args@.len() - i,
        {
            let arg: &str = args[i].as_str();
            if same_text(arg, "-h") || same_text(arg, "--help") {
                help = true;
                i += 1;
            } else if same_text(arg, "-v") || same_text(arg, "--version") {
                version = true;
                i += 1;
            } else if same_text(arg, "-n") || same_text(arg, "--num") {
                if i + 1 >= args.len() {
                    return Err(String::from_str("Expected a number after --num"));
                }
                match parse_count(args[i + 1].as_str()) {
                    Some(count) => {
                        num = count;
                        i += 2;
                    },
                    None => {
                        return Err(String::from_str("Invalid number for --num"));
                    },
                }
            } else if same_text(arg, "--files-only") {
                files_only = true;
                i += 1;
            } else if same_text(arg, "--dirs-only") {
                dirs_only = true;
                i += 1;
            } else if same_text(arg, "-i") || same_text(arg, "--ignore-case") {
                case = CaseSensitivity::Insensitive;
                i += 1;
            } else if same_text(arg, "-s") || same_text(arg, "--case-sensitive") {
                case = CaseSensitivity::Sensitive;
                i += 1;
            } else if same_text(arg, "--no-parallel") {
                parallel = false;
                i += 1;
            } else if is_dash(first_char(arg)) {
                return Err(String::from_str("Unknown argument: ").concat(arg));
            } else if query.is_none() {
                query = Some(args[i].clone());
                i += 1;
            } else if root.is_none() {
                root = Some(args[i].clone());
                i += 1;
            } else {
                return Err(String::from_str("Unknown argument: ").concat(arg));
            }
        }
        if help || version {
            return Ok(
                Config {
                    query: String::new(),
                    root: String::new(),
                    num,
                    files_only,
                    dirs_only,
                    case,
                    parallel,
                    help,
                    version,
                },
            );
        }
        let query: String = match query {
            Some(query) => query,
            None => {
                return Err(String::from_str("Missing query argument. Use -h for help."));
            },
        };
        let root: String = match root {
            Some(root) => root,
            None => String::from_str("."),
        };
        Ok(Config { query, root, num, files_only, dirs_only, case, parallel, help, version })
    }

    /// The kinds of entries that these options admit.
    pub fn type_filter(&self) -> (filter: TypeFilter)
        ensures
            filter == (TypeFilter { files_only: self.files_only, dirs_only: self.dirs_only }),
    {
        TypeFilter { files_only: self.files_only, dirs_only: self.dirs_only }
    }

    /// The query of these options, folded as their case mode asks.
    pub fn query(&self) -> (query: Query)
        ensures
            query.needle() == fold(self.case, self.query@),
            query.case() == self.case,
    {
        Query::new(self.query.as_str(), self.case)
    }

    /// Searches the candidates as these options say: scores them for the
    /// query, in parallel or not, keeps those of an admitted kind, and
    /// returns the `num` best, best first.
    pub fn search(&self, candidates: &Vec<Candidate>) -> (results: Vec<ScoredPath>)
        ensures
            is_ranking(
                views(results@),
                scored_all(
                    candidate_views(candidates@),
                    fold(self.case, self.query@),
                    self.case,
                    TypeFilter { files_only: self.files_only, dirs_only: self.dirs_only },
                ),
                self.num as nat,
            ),
            ranked(views(results@)),
            results@.len() == smaller(
                self.num as int,
                scored_all(
                    candidate_views(candidates@),
                    fold(self.case, self.query@),
                    self.case,
                    TypeFilter { files_only: self.files_only, dirs_only: self.dirs_only },
                ).len() as int,
            ),
    {
        let query: Query = self.query();
        search(candidates, &query, self.type_filter(), self.num, self.parallel)
    }
}

} // verus!
