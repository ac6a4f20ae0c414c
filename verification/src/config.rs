//! What to search for and where, as the command line says it.

use vstd::prelude::*;
use vstd::slice::slice_subrange;
use vstd::string::StringExecFns;

verus! {

/// The settings of one run.
#[derive(Debug, PartialEq, Eq)]
pub struct Config {
    /// The text to search for, taken literally.
    pub pattern: String,
    /// The file to search in.
    pub file_path: String,
    /// Whether to ignore letter case.
    pub case_insensitive: bool,
    /// Whether to show the number of each matching line.
    pub print_line_index: bool,
}

/// What a `Config` stands for.
pub struct ConfigView {
    pub pattern: Seq<char>,
    pub file_path: Seq<char>,
    pub case_insensitive: bool,
    pub print_line_index: bool,
}

impl View for Config {
    type V = ConfigView;

    open spec fn view(&self) -> ConfigView {
        ConfigView {
            pattern: self.pattern@,
            file_path: self.file_path@,
            case_insensitive: self.case_insensitive,
            print_line_index: self.print_line_index,
        }
    }
}

/// What `getopts` makes of the arguments `args` when two optional flags that
/// take no argument have been declared, each with a short name, a long name
/// and a description: the message of its failure, or whether the first flag
/// was given, whether the second was, and the free arguments in order.
pub uninterp spec fn flag_matches(
    first_short: Seq<char>,
    first_long: Seq<char>,
    first_description: Seq<char>,
    second_short: Seq<char>,
    second_long: Seq<char>,
    second_description: Seq<char>,
    args: Seq<Seq<char>>,
) -> Result<(bool, bool, Seq<Seq<char>>), Seq<char>>;

/// A name that `getopts` takes for the short form of a flag and finds again
/// when asked for it: a single ASCII character.
pub open spec fn short_name_ok(name: Seq<char>) -> bool {
    name.len() == 1 && (name[0] as u32) < 128
}

/// A name that `getopts` takes for the long form of a flag: none, or more
/// than one character.
pub open spec fn long_name_ok(name: Seq<char>) -> bool {
    name.len() != 1
}

/// The outcome of a parse as mathematical values.
pub open spec fn parsed_view(parsed: Result<(bool, bool, Vec<String>), String>) -> Result<
    (bool, bool, Seq<Seq<char>>),
    Seq<char>,
> {
    match parsed {
        Ok((first, second, free)) => Ok((first, second, free.deep_view())),
        Err(message) => Err(message@),
    }
}

/// Calls `getopts::Options::parse` on `args`. The two flags are handed to it
/// as a `getopts::Options` on which `optflag` has declared them, and its
/// result comes back as plain values: from a `getopts::Matches` what
/// `opt_present` says of each short name and the field `free`, from a
/// `getopts::Fail` its `Display` text.
///
/// The contract names the outcome and says nothing of what it holds. The
/// `requires` keeps to names with which `optflag`, `parse` and `opt_present`
/// do not panic.
#[verifier::external_body]
fn parse_flags(
    first_short: &str,
    first_long: &str,
    first_description: &str,
    second_short: &str,
    second_long: &str,
    second_description: &str,
    args: &[String],
) -> (parsed: Result<(bool, bool, Vec<String>), String>)
    requires
        short_name_ok(first_short@),
        long_name_ok(first_long@),
        short_name_ok(second_short@),
        long_name_ok(second_long@),
    ensures
        parsed_view(parsed) == flag_matches(
            first_short@,
            first_long@,
            first_description@,
            second_short@,
            second_long@,
            second_description@,
            args.deep_view(),
        ),
{
    let mut options = getopts::Options::new();
    options.optflag(first_short, first_long, first_description);
    options.optflag(second_short, second_long, second_description);
    match options.parse(args) {
        Ok(matches) => Ok(
            (matches.opt_present(first_short), matches.opt_present(second_short), matches.free),
        ),
        Err(fail) => Err(fail.to_string()),
    }
}

/// What `getopts` makes of the arguments of this program: `-i` asks to ignore
/// letter case, `-n` to show line numbers.
pub open spec fn command_line(args: Seq<Seq<char>>) -> Result<
    (bool, bool, Seq<Seq<char>>),
    Seq<char>,
> {
    flag_matches(
        "i"@,
        "ignore case"@,
        "Case insensitive pattern matching."@,
        "n"@,
        "line number"@,
        "Show the line number."@,
        args,
    )
}

/// The settings that a parsed command line gives, or the message that says
/// what is wrong with it. The free arguments are the pattern and the file
/// path, no fewer and no more.
pub open spec fn settings(parsed: Result<(bool, bool, Seq<Seq<char>>), Seq<char>>) -> Result<
    ConfigView,
    Seq<char>,
> {
    match parsed {
        Err(message) => Err("Not valid params "@ + message),
        Ok((case_insensitive, print_line_index, free)) => {
            if free.len() == 0 {
                Err("Didn't get a pattern string"@)
            } else if free.len() == 1 {
                Err("Didn't get a file path"@)
            } else if free.len() > 2 {
                Err("Got more than a pattern and a file path"@)
            } else {
                Ok(
                    ConfigView {
                        pattern: free[0],
                        file_path: free[1],
                        case_insensitive,
                        print_line_index,
                    },
                )
            }
        },
    }
}

/// A `Config` or an error message as mathematical values.
pub open spec fn outcome_view(outcome: Result<Config, String>) -> Result<ConfigView, Seq<char>> {
    match outcome {
        Ok(config) => Ok(config@),
        Err(message) => Err(message@),
    }
}

impl Config {
    /// Reads the settings from the arguments of the program. The first
    /// argument is the program's own name and is passed over.
    pub fn new(args: &[String]) -> (outcome: Result<Config, String>)
        requires
            args@.len() >= 1,
        ensures
            outcome_view(outcome) == settings(command_line(args.deep_view().skip(1))),
    {
        proof {
            reveal_strlit("i");
            reveal_strlit("ignore case");
            reveal_strlit("n");
            reveal_strlit("line number");
        }
        let given = slice_subrange(args, 1, args.len());
        assert(given.deep_view() =~= args.deep_view().skip(1));
        let parsed = parse_flags(
            "i",
            "ignore case",
            "Case insensitive pattern matching.",
            "n",
            "line number",
            "Show the line number.",
            given,
        );
        Config::from_parsed(parsed)
    }

    /// Makes the settings of what the command line held: whether each of the
    /// two flags was given and the free arguments, or the parser's message.
    pub fn from_parsed(parsed: Result<(bool, bool, Vec<String>), String>) -> (outcome: Result<
        Config,
        String,
    >)
        ensures
            outcome_view(outcome) == settings(parsed_view(parsed)),
    {
        match parsed {
            Err(message) => {
                let mut text = "Not valid params ".to_owned();
                text.append(message.as_str());
                Err(text)
            },
            Ok((case_insensitive, print_line_index, free)) => {
                let mut free = free;
                let ghost given = free.deep_view();
                if free.len() == 0 {
                    Err("Didn't get a pattern string".to_owned())
                } else if free.len() == 1 {
                    Err("Didn't get a file path".to_owned())
                } else if free.len() > 2 {
                    Err("Got more than a pattern and a file path".to_owned())
                } else {
                    let file_path = free.pop().unwrap();
                    let pattern = free.pop().unwrap();
                    assert(file_path@ == given[1]);
                    assert(pattern@ == given[0]);
                    Ok(Config { pattern, file_path, case_insensitive, print_line_index })
                }
            },
        }
    }
}

} // verus!
