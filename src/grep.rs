use vstd::prelude::*;
use colored::Colorize;
use regex::{Regex, RegexBuilder};

verus! {

#[verifier::external_type_specification]
#[verifier::external_body]
pub struct ExRegex(Regex);

#[verifier::external_type_specification]
#[verifier::external_body]
pub struct ExRegexError(regex::Error);

/// Options of a line search over files.
pub struct GrepConfig {
    pub pattern: String,
    pub files: Vec<String>,
    pub ignore_case: bool,
    pub line_number: bool,
    pub invert_match: bool,
    pub recursive: bool,
    pub print_filename: bool,
    pub colored_output: bool,
}

/// Why a search could not run.
#[derive(PartialEq, Eq, Debug, Clone, Copy)]
pub enum GrepError {
    /// The pattern could not be compiled into a matcher.
    BadPattern,
}

pub open spec fn digit(d: nat) -> char {
    seq!['0', '1', '2', '3', '4', '5', '6', '7', '8', '9'][d as int]
}

/// The decimal digits of `n`, without sign or leading zeros.
pub open spec fn decimal(n: nat) -> Seq<char>
    decreases n,
{
    if n < 10 {
        seq![digit(n)]
    } else {
        decimal(n / 10) + seq![digit(n % 10)]
    }
}

/// The report of line `index` (0-based): the file name and the 1-based line number when
/// asked for, each followed by `": "`, then the text.
pub open spec fn report(print_filename: bool, line_number: bool, filename: Seq<char>, index: int, text: Seq<char>) -> Seq<char> {
    (if print_filename {
        filename + seq![':', ' ']
    } else {
        Seq::empty()
    }) + (if line_number {
        decimal((index + 1) as nat) + seq![':', ' ']
    } else {
        Seq::empty()
    }) + text
}

/// `out` is the report of one of the first `n` lines of `filename`, with some text.
pub open spec fn reports_a_line(config: &GrepConfig, filename: Seq<char>, n: int, out: Seq<char>) -> bool {
    exists|i: int, text: Seq<char>|
        0 <= i < n && out == #[trigger] report(config.print_filename, config.line_number, filename, i, text)
}

/// Relies on `usize`'s `to_string`: its decimal digits.
#[verifier::external_body]
fn decimal_string(n: usize) -> (r: String)
    ensures
        r@ == decimal(n as nat),
{
    n.to_string()
}

/// Relies on `regex::escape` and `RegexBuilder::build`: a matcher for `pattern` taken
/// literally, ignoring case when asked; the builder's error when it cannot be built.
#[verifier::external_body]
fn compile_literal(pattern: &str, ignore_case: bool) -> (r: Result<Regex, regex::Error>) {
    RegexBuilder::new(&regex::escape(pattern)).case_insensitive(ignore_case).build()
}

/// Relies on `Regex::is_match`: whether `re` matches somewhere in `line`.
#[verifier::external_body]
fn regex_is_match(re: &Regex, line: &str) -> (r: bool) {
    re.is_match(line)
}

/// Relies on `Regex::replace_all` and `colored`'s `red`: `line` with every match of `re`
/// wrapped in the escape codes for red text.
#[verifier::external_body]
fn highlight(re: &Regex, line: &str) -> (r: String) {
    re.replace_all(line, |caps: &regex::Captures| caps[0].red().to_string()).to_string()
}

/// The line to report for line `index` (0-based) of `filename`, given whether the matcher
/// found the pattern in it and the highlighted form of the line; `None` when the line
/// is not selected (a match is selected, or a non-match under inverted matching).
pub fn select_line(
    config: &GrepConfig,
    filename: &str,
    index: usize,
    line: &str,
    is_match: bool,
    highlighted: &str,
) -> (r: Option<String>)
    requires
        index < usize::MAX,
    ensures
        r is Some <==> is_match != config.invert_match,
        r matches Some(out) ==> out@ == report(
            config.print_filename,
            config.line_number,
            filename@,
            index as int,
            if config.colored_output {
                highlighted@
            } else {
                line@
            },
        ),
{
    if is_match == config.invert_match {
        return None;
    }
    proof {
        reveal_strlit(": ");
    }
    let mut out = String::new();
    if config.print_filename {
        out.append(filename);
        out.append(": ");
    }
    if config.line_number {
        let number = decimal_string(index + 1);
        out.append(number.as_str());
        out.append(": ");
    }
    if config.colored_output {
        out.append(highlighted);
    } else {
        out.append(line);
    }
    assert(out@ =~= report(
        config.print_filename,
        config.line_number,
        filename@,
        index as int,
        if config.colored_output {
            highlighted@
        } else {
            line@
        },
    ));
    Some(out)
}

/// Searches the lines of `filename` for the configured pattern and appends a report for
/// each selected line, in order. Fails, appending nothing, when the pattern cannot be
/// compiled.
pub fn search_lines(filename: &str, lines: &Vec<String>, config: &GrepConfig, results: &mut Vec<String>) -> (r:
    Result<(), GrepError>)
    requires
        lines.len() < usize::MAX,
    ensures
        r is Err ==> final(results)@ == old(results)@,
        old(results)@.len() <= final(results)@.len() <= old(results)@.len() + lines.len(),
        final(results)@.subrange(0, old(results)@.len() as int) == old(results)@,
        forall|k: int|
            old(results)@.len() <= k < final(results)@.len() ==> reports_a_line(
                config,
                filename@,
                lines.len() as int,
                #[trigger] final(results)@[k]@,
            ),
{
    let re = match compile_literal(config.pattern.as_str(), config.ignore_case) {
        Ok(re) => re,
        Err(_) => {
            return Err(GrepError::BadPattern);
        },
    };
    let mut i: usize = 0;
    while i < lines.len()
        invariant
            lines.len() < usize::MAX,
            i <= lines.len(),
            old(results)@.len() <= results@.len() <= old(results)@.len() + i,
            results@.subrange(0, old(results)@.len() as int) == old(results)@,
            forall|k: int|
                old(results)@.len() <= k < results@.len() ==> reports_a_line(
                    config,
                    filename@,
                    lines.len() as int,
                    #[trigger] results@[k]@,
                ),
        decreases lines.len() - i,
    {
        let line = lines[i].as_str();
        let is_match = regex_is_match(&re, line);
        let highlighted = if config.colored_output && is_match != config.invert_match {
            highlight(&re, line)
        } else {
            String::new()
        };
        match select_line(config, filename, i, line, is_match, highlighted.as_str()) {
            Some(out) => {
                let ghost text = if config.colored_output {
                    highlighted@
                } else {
                    line@
                };
                let ghost prev = results@;
                results.push(out);
                assert(results@.subrange(0, old(results)@.len() as int) =~= prev.subrange(
                    0,
                    old(results)@.len() as int,
                ));
                assert forall|k: int| old(results)@.len() <= k < results@.len() implies reports_a_line(
                    config,
                    filename@,
                    lines.len() as int,
                    #[trigger] results@[k]@,
                ) by {
                    if k < prev.len() {
                        assert(results@[k] == prev[k]);
                    } else {
                        assert(results@[k]@ == report(
                            config.print_filename,
                            config.line_number,
                            filename@,
                            i as int,
                            text,
                        ));
                    }
                }
            },
            None => {},
        }
        i = i + 1;
    }
    Ok(())
}

} // verus!
