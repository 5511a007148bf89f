//! What is done with one file: its bytes go to the formatter, and the answer
//! decides whether the file is written back.

use vstd::prelude::*;

use vstd::string::StringExecFns;

use crate::report::ActionError;
use crate::state::Outcome;
use crate::syntax::{
    finds_odd_space, nests_within, parse_events, parsed, stops_on_space, within_depth, MAX_DEPTH,
};

verus! {

/// How the formatted text is indented.
#[derive(Clone, Copy, Debug)]
pub enum Indentation {
    /// This many spaces for each level.
    Spaces(u8),
    /// One tab for each level.
    Tabs,
}

/// Settings for the metadata section of a rule.
#[derive(Clone, Copy, Debug)]
pub struct MetaConfig {
    pub align_values: bool,
}

/// Settings for the patterns section of a rule.
#[derive(Clone, Copy, Debug)]
pub struct PatternsConfig {
    pub align_values: bool,
}

/// Settings for the body of a rule.
#[derive(Clone, Copy, Debug)]
pub struct RuleConfig {
    pub indent_section_headers: bool,
    pub indent_section_contents: bool,
    /// Spaces for each level; `0` asks for tabs.
    pub indent_spaces: u8,
    pub newline_before_curly_brace: bool,
    pub empty_line_before_section_header: bool,
    pub empty_line_after_section_header: bool,
}

/// The formatter's part of the configuration.
#[derive(Clone, Copy, Debug)]
pub struct FmtConfig {
    pub meta: MetaConfig,
    pub patterns: PatternsConfig,
    pub rule: RuleConfig,
}

/// The configuration of the tool, as far as formatting reads it.
#[derive(Clone, Copy, Debug)]
pub struct Config {
    pub fmt: FmtConfig,
}

/// Everything the formatter is told before it sees a file.
#[derive(Clone, Copy, Debug)]
pub struct FormatOptions {
    /// Columns that a tab in the input stands for.
    pub tab_size: usize,
    pub align_metadata: bool,
    pub align_patterns: bool,
    pub indent_section_headers: bool,
    pub indent_section_contents: bool,
    pub indentation: Indentation,
    pub newline_before_curly_brace: bool,
    pub empty_line_before_section_header: bool,
    pub empty_line_after_section_header: bool,
}

/// The indentation that a number of spaces asks for: tabs for `0`.
pub open spec fn indentation_of(indent_spaces: u8) -> Indentation {
    if indent_spaces == 0 {
        Indentation::Tabs
    } else {
        Indentation::Spaces(indent_spaces)
    }
}

impl FormatOptions {
    /// The options that a tab size and a configuration stand for.
    pub open spec fn of(tab_size: usize, config: Config) -> FormatOptions {
        FormatOptions {
            tab_size,
            align_metadata: config.fmt.meta.align_values,
            align_patterns: config.fmt.patterns.align_values,
            indent_section_headers: config.fmt.rule.indent_section_headers,
            indent_section_contents: config.fmt.rule.indent_section_contents,
            indentation: indentation_of(config.fmt.rule.indent_spaces),
            newline_before_curly_brace: config.fmt.rule.newline_before_curly_brace,
            empty_line_before_section_header: config.fmt.rule.empty_line_before_section_header,
            empty_line_after_section_header: config.fmt.rule.empty_line_after_section_header,
        }
    }

    /// Whether the formatter can take an input of `len` bytes. Its parser
    /// numbers the bytes in 32 bits and takes no input of `u32::MAX` bytes or
    /// more. The formatter counts columns in a machine word: every byte may
    /// be a tab, the count may run one tab past the end, and it has to fit.
    pub open spec fn fits(self, len: nat) -> bool {
        len < 0xFFFF_FFFF && (self.tab_size + 1) * (len + 1) <= usize::MAX
    }

    /// Reads the options off the command line's tab size and the
    /// configuration.
    pub fn from_config(tab_size: usize, config: &Config) -> (options: FormatOptions)
        ensures
            options == Self::of(tab_size, *config),
    {
        let rule = &config.fmt.rule;
        FormatOptions {
            tab_size,
            align_metadata: config.fmt.meta.align_values,
            align_patterns: config.fmt.patterns.align_values,
            indent_section_headers: rule.indent_section_headers,
            indent_section_contents: rule.indent_section_contents,
            indentation: if rule.indent_spaces == 0 {
                Indentation::Tabs
            } else {
                Indentation::Spaces(rule.indent_spaces)
            },
            newline_before_curly_brace: rule.newline_before_curly_brace,
            empty_line_before_section_header: rule.empty_line_before_section_header,
            empty_line_after_section_header: rule.empty_line_after_section_header,
        }
    }

    /// Tells whether an input of `len` bytes fits, see [`Self::fits`].
    pub fn admits(&self, len: usize) -> (yes: bool)
        ensures
            yes == self.fits(len as nat),
    {
        if len >= 0xFFFF_FFFF {
            return false;
        }
        let width = match self.tab_size.checked_add(1) {
            Some(width) => width,
            None => {
                assert(!self.fits(len as nat)) by (nonlinear_arith)
                    requires
                        self.tab_size + 1 > usize::MAX,
                        self.fits(len as nat) ==> (self.tab_size + 1) * (len + 1) <= usize::MAX,
                ;
                return false;
            },
        };
        width.checked_mul(len + 1).is_some()
    }
}

/// Whether the formatter can be handed `input`: it fits, see
/// [`FormatOptions::fits`]; the white space between its tokens is made of
/// spaces and tabs, see [`stops_on_space`]; and it nests no deeper than
/// [`MAX_DEPTH`] nodes.
pub open spec fn takes(options: FormatOptions, input: Seq<u8>) -> bool {
    &&& options.fits(input.len())
    &&& !stops_on_space(input, parsed(input))
    &&& nests_within(parsed(input), parsed(input).len() as int, MAX_DEPTH as nat)
}

/// What the formatter makes of `input` under `options`: the formatted text,
/// or the words with which it refuses the input.
pub uninterp spec fn formatted(options: FormatOptions, input: Seq<u8>) -> Result<
    Seq<u8>,
    Seq<char>,
>;

/// Calls `yara_x_fmt::Formatter::format` on a formatter built from `options`,
/// reading `input` and writing to a buffer; an error is handed on as the
/// words that its `Display` gives. The answer is a function of the options
/// and the input, named by [`formatted`]; as the formatter documents, the
/// flag says whether the output differs from the input. The parser refuses,
/// by stopping the program, an input of `u32::MAX` bytes or more, and the
/// formatter adds up columns in a machine word, a tab size for each tab,
/// hence the bounds on the length. Its parser takes the no-break space and
/// its like for white space between tokens, and the formatter stops the
/// program on such white space outside an error node, hence the second
/// bound. It keeps the level of indentation in sixteen bits, raises it
/// inside a node and lowers it before the node ends, hence the bound on
/// nesting. How deep an input may nest before the parser runs out of stack
/// is not known, and is not excluded.
#[verifier::external_body]
fn run_formatter(options: &FormatOptions, input: &[u8]) -> (r: Result<(bool, Vec<u8>), String>)
    requires
        takes(*options, input@),
    ensures
        match r {
            Ok((changed, output)) => formatted(*options, input@) == Ok::<Seq<u8>, Seq<char>>(
                output@,
            ) && changed == (output@ != input@),
            Err(words) => formatted(*options, input@) == Err::<Seq<u8>, Seq<char>>(words@),
        },
{
    let indentation = match options.indentation {
        Indentation::Spaces(n) => yara_x_fmt::Indentation::Spaces(n as usize),
        Indentation::Tabs => yara_x_fmt::Indentation::Tabs,
    };
    let base = yara_x_fmt::Formatter::new().input_tab_size(options.tab_size).indentation(indentation);
    let formatter = base.align_metadata(options.align_metadata).align_patterns(options.align_patterns)
        .indent_section_headers(options.indent_section_headers).indent_section_contents(options.indent_section_contents)
        .newline_before_curly_brace(options.newline_before_curly_brace)
        .empty_line_before_section_header(options.empty_line_before_section_header)
        .empty_line_after_section_header(options.empty_line_after_section_header);
    let mut output = Vec::new();
    match formatter.format(input, &mut output) {
        Ok(changed) => Ok((changed, output)),
        Err(err) => Err(err.to_string()),
    }
}

/// What is left to do with a file once the formatter has answered.
#[derive(Debug)]
pub enum Formatted {
    /// Nothing is written; the file ends with this result.
    Done(Result<bool, ActionError>),
    /// The file has to be replaced by these bytes, and ends as changed once
    /// they are written.
    Rewrite(Vec<u8>),
}

/// What follows from the formatter's answer: a file is written back only
/// when the formatter changed it and the run is not a check; an error and an
/// unchanged file end as they are.
pub fn decide(check_mode: bool, answer: Result<(bool, Vec<u8>), ActionError>) -> (next: Formatted)
    ensures
        match answer {
            Ok((true, output)) => if check_mode {
                next == Formatted::Done(Ok(true))
            } else {
                next == Formatted::Rewrite(output)
            },
            Ok((false, _)) => next == Formatted::Done(Ok(false)),
            Err(err) => next == Formatted::Done(Err(err)),
        },
{
    match answer {
        Ok((changed, output)) => {
            if changed && !check_mode {
                Formatted::Rewrite(output)
            } else {
                Formatted::Done(Ok(changed))
            }
        },
        Err(err) => Formatted::Done(Err(err)),
    }
}

/// Formats the bytes of one file and says what is left to do with it.
///
/// A file that the formatter leaves as it is ends unchanged. One it changes
/// ends changed in check mode and is to be rewritten, with the formatter's
/// output, otherwise. One it refuses ends with the formatter's words as the
/// error.
pub fn format_file(options: &FormatOptions, check_mode: bool, input: &[u8]) -> (next: Formatted)
    requires
        takes(*options, input@),
    ensures
        match formatted(*options, input@) {
            Err(words) => next matches Formatted::Done(Err(err)) && err.message@ == words
                && err.cause is None,
            Ok(output) => if output == input@ {
                next == Formatted::Done(Ok(false))
            } else if check_mode {
                next == Formatted::Done(Ok(true))
            } else {
                next matches Formatted::Rewrite(bytes) && bytes@ == output
            },
        },
{
    let answer = match run_formatter(options, input) {
        Ok(pair) => Ok(pair),
        Err(words) => Err(ActionError::plain(words)),
    };
    decide(check_mode, answer)
}

/// How a file with these bytes ends: failed where the formatter cannot be
/// handed it or refuses it, unchanged where the formatter leaves it as it
/// is, else changed.
pub open spec fn verdict(options: FormatOptions, input: Seq<u8>) -> Outcome {
    if !takes(options, input) {
        Outcome::Failed
    } else {
        match formatted(options, input) {
            Err(_) => Outcome::Failed,
            Ok(output) => if output == input {
                Outcome::Unchanged
            } else {
                Outcome::Changed
            },
        }
    }
}

/// The words of the error with which a file with these bytes fails; empty
/// where it does not fail.
pub open spec fn failure_words(options: FormatOptions, input: Seq<u8>) -> Seq<char> {
    if !options.fits(input.len()) {
        "the file is too long for the formatter"@
    } else if stops_on_space(input, parsed(input)) {
        "the file holds white space between tokens that is neither space nor tab"@
    } else if !nests_within(parsed(input), parsed(input).len() as int, MAX_DEPTH as nat) {
        "the file nests deeper than the formatter can count"@
    } else {
        match formatted(options, input) {
            Err(words) => words,
            Ok(_) => Seq::empty(),
        }
    }
}

/// Formats the bytes of one file, as [`format_file`] does, whatever they
/// are. The file is parsed first, and ends with an error of the library's
/// own, without reaching the formatter, where the formatter would stop the
/// program: where the file is too long, where white space between its tokens
/// holds a no-break space or its like, and where it nests deeper than
/// [`MAX_DEPTH`] nodes. Such white space inside a comment, a string or a
/// part that does not parse is no hindrance.
pub fn process_file(options: &FormatOptions, check_mode: bool, input: &[u8]) -> (next: Formatted)
    ensures
        match verdict(*options, input@) {
            Outcome::Failed => next matches Formatted::Done(Err(err)) && err.message@
                == failure_words(*options, input@) && err.cause is None,
            Outcome::Unchanged => next == Formatted::Done(Ok(false)),
            Outcome::Changed => if check_mode {
                next == Formatted::Done(Ok(true))
            } else {
                next matches Formatted::Rewrite(bytes) && Ok::<Seq<u8>, Seq<char>>(bytes@)
                    == formatted(*options, input@)
            },
        },
{
    if !options.admits(input.len()) {
        return refused("the file is too long for the formatter");
    }
    let events = parse_events(input);
    if finds_odd_space(input, &events) {
        refused("the file holds white space between tokens that is neither space nor tab")
    } else if !within_depth(&events, MAX_DEPTH) {
        refused("the file nests deeper than the formatter can count")
    } else {
        format_file(options, check_mode, input)
    }
}

fn refused(words: &str) -> (next: Formatted)
    ensures
        next matches Formatted::Done(Err(err)) && err.message@ == words@ && err.cause is None,
{
    Formatted::Done(Err(ActionError::plain(String::from_str(words))))
}

} // verus!
