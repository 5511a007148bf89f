//! The lines that a run reports: one for each file, one for each directory
//! that could not be listed, and the summary of the counters.

use vstd::prelude::*;
use vstd::string::StringExecFns;

use crate::console::{
    colored, is_painted, line_of, lines_of, lines_rows, paint_bold, span_text, spans_text,
    stdout_is_tty, unstyled_span, Tone,
};
use crate::state::{FmtState, Outcome};
use crate::text::{all_plain, decimal, decimal_digits, lemma_decimal_is_plain, lemma_plain_concat};

verus! {

/// A status event on its way to the terminal. The engine never reads the text.
#[derive(Debug)]
pub enum Message {
    Info(String),
    Error(String),
}

impl Message {
    /// The text that the message carries.
    pub open spec fn text(self) -> Seq<char> {
        match self {
            Message::Info(text) => text@,
            Message::Error(text) => text@,
        }
    }

    /// The text that the message carries.
    pub fn as_str(&self) -> (text: &str)
        ensures
            text@ == self.text(),
    {
        match self {
            Message::Info(text) => text.as_str(),
            Message::Error(text) => text.as_str(),
        }
    }
}

/// Why a file could not be processed: what went wrong and, where another
/// failure lies underneath, that failure's own words.
#[derive(Debug)]
pub struct ActionError {
    pub message: String,
    pub cause: Option<String>,
}

impl ActionError {
    /// The error in full: the message, then the cause after a colon.
    pub open spec fn full(self) -> Seq<char> {
        match self.cause {
            Some(cause) => self.message@ + ": "@ + cause@,
            None => self.message@,
        }
    }

    /// The error as a report shows it: on a terminal the message alone,
    /// anywhere else in full.
    pub open spec fn detail(self, interactive: bool) -> Seq<char> {
        if interactive {
            self.message@
        } else {
            self.full()
        }
    }

    /// The error of a file that could not be read, with the reader's own
    /// words as the cause.
    pub fn unreadable(path: &str, cause: String) -> (err: ActionError)
        ensures
            err.message@ == "can not read `"@ + path@ + "`"@,
            err.cause == Some(cause),
    {
        let mut message = String::from_str("can not read `");
        message.append(path);
        message.append("`");
        ActionError { message, cause: Some(cause) }
    }

    /// An error that stands for itself.
    pub fn plain(message: String) -> (err: ActionError)
        ensures
            err.message == message,
            err.cause is None,
    {
        ActionError { message, cause: None }
    }

    /// The words for a report.
    pub fn describe(&self, interactive: bool) -> (words: String)
        ensures
            words@ == self.detail(interactive),
    {
        let mut words = self.message.clone();
        if !interactive {
            if let Some(cause) = &self.cause {
                words.append(": ");
                words.append(cause.as_str());
            }
        }
        words
    }
}

/// The counter that a file falls under: an error counts as failed, `true` as
/// changed, `false` as unchanged.
pub open spec fn outcome_of(result: Result<bool, ActionError>) -> Outcome {
    match result {
        Ok(true) => Outcome::Changed,
        Ok(false) => Outcome::Unchanged,
        Err(_) => Outcome::Failed,
    }
}

/// The words of the error under `result`, empty where there is none.
pub open spec fn detail_of(result: Result<bool, ActionError>, interactive: bool) -> Seq<char> {
    match result {
        Ok(_) => Seq::empty(),
        Err(err) => err.detail(interactive),
    }
}

/// The word between the brackets of a status line.
pub open spec fn status_label(outcome: Outcome, check_mode: bool) -> Seq<char> {
    match outcome {
        Outcome::Unchanged => "OK"@,
        Outcome::Changed => if check_mode {
            "NEED FMT"@
        } else {
            "MODIFIED"@
        },
        Outcome::Failed => "FAIL"@,
    }
}

/// The colour of the word between the brackets.
pub open spec fn status_tone(outcome: Outcome) -> Tone {
    match outcome {
        Outcome::Unchanged => Tone::Green,
        Outcome::Changed => Tone::Yellow,
        Outcome::Failed => Tone::Red,
    }
}

/// A status line around the label as shown: `[ LABEL ] path`, with the label
/// `OK` set to the right, and with the error's words on a second line.
pub open spec fn status_text(
    shown: Seq<char>,
    outcome: Outcome,
    path: Seq<char>,
    detail: Seq<char>,
) -> Seq<char> {
    match outcome {
        Outcome::Unchanged => "[   "@ + shown + " ] "@ + path,
        Outcome::Changed => "[ "@ + shown + " ] "@ + path,
        Outcome::Failed => "[ "@ + shown + " ] "@ + path + "\n"@ + detail,
    }
}

/// `line` is the status line of a file that ended with `outcome`, its label
/// bare or in colour.
pub open spec fn is_status_line(
    line: Seq<char>,
    outcome: Outcome,
    check_mode: bool,
    path: Seq<char>,
    detail: Seq<char>,
) -> bool {
    let label = status_label(outcome, check_mode);
    line == status_text(label, outcome, path, detail) || line == status_text(
        colored(label, status_tone(outcome)),
        outcome,
        path,
        detail,
    )
}

/// The status line of one file.
pub fn status_line(outcome: Outcome, check_mode: bool, path: &str, detail: &str) -> (line: String)
    ensures
        is_status_line(line@, outcome, check_mode, path@, detail@),
{
    let (lead, label, tone) = match outcome {
        Outcome::Unchanged => ("[   ", "OK", Tone::Green),
        Outcome::Changed => if check_mode {
            ("[ ", "NEED FMT", Tone::Yellow)
        } else {
            ("[ ", "MODIFIED", Tone::Yellow)
        },
        Outcome::Failed => ("[ ", "FAIL", Tone::Red),
    };
    let shown = paint_bold(label, tone);
    let mut line = String::from_str(lead);
    line.append(shown.as_str());
    line.append(" ] ");
    line.append(path);
    if let Outcome::Failed = outcome {
        line.append("\n");
        line.append(detail);
    }
    assert(line@ =~= status_text(shown@, outcome, path@, detail@));
    line
}

/// Counts one file and words its status line. `result` is what processing the
/// file came to; `interactive` says whether the report goes to a terminal.
/// The line of a file that failed is an error message, every other line an
/// information.
pub fn conclude(
    state: &mut FmtState,
    path: &str,
    result: &Result<bool, ActionError>,
    interactive: bool,
) -> (message: Message)
    ensures
        *final(state) == old(state).recorded(outcome_of(*result)),
        message is Error <==> outcome_of(*result) == Outcome::Failed,
        is_status_line(
            message.text(),
            outcome_of(*result),
            old(state).check_mode,
            path@,
            detail_of(*result, interactive),
        ),
{
    let check_mode = state.check_mode;
    match result {
        Ok(true) => {
            state.record(Outcome::Changed);
            Message::Info(status_line(Outcome::Changed, check_mode, path, ""))
        },
        Ok(false) => {
            state.record(Outcome::Unchanged);
            Message::Info(status_line(Outcome::Unchanged, check_mode, path, ""))
        },
        Err(err) => {
            state.record(Outcome::Failed);
            let words = err.describe(interactive);
            Message::Error(status_line(Outcome::Failed, check_mode, path, words.as_str()))
        },
    }
}

/// Counts one file and words its status line, as [`conclude`] does, after
/// asking whether the standard output is a terminal. Whatever the answer, the
/// file is counted once, the line names it, and the line of a file that
/// failed is an error message.
pub fn report_outcome(state: &mut FmtState, path: &str, result: &Result<bool, ActionError>) -> (message:
    Message)
    ensures
        *final(state) == old(state).recorded(outcome_of(*result)),
        message is Error <==> outcome_of(*result) == Outcome::Failed,
        is_status_line(
            message.text(),
            outcome_of(*result),
            old(state).check_mode,
            path@,
            detail_of(*result, true),
        ) || is_status_line(
            message.text(),
            outcome_of(*result),
            old(state).check_mode,
            path@,
            detail_of(*result, false),
        ),
{
    let interactive = stdout_is_tty();
    conclude(state, path, result, interactive)
}

/// `line` reports a directory that could not be listed: `error: ` and the
/// failure's words, the first word bare or in colour.
pub open spec fn is_error_line(line: Seq<char>, words: Seq<char>) -> bool {
    line == "error:"@ + " "@ + words || line == colored("error:"@, Tone::Red) + " "@ + words
}

/// The message for a directory that could not be listed.
pub fn error_line(words: &str) -> (message: Message)
    ensures
        message is Error,
        is_error_line(message.text(), words@),
{
    let mut line = paint_bold("error:", Tone::Red);
    line.append(" ");
    line.append(words);
    Message::Error(line)
}

/// The words for a directory that could not be listed: its path and, where
/// the failure has words of its own, those after a colon.
pub open spec fn unlisted_words(path: Seq<char>, cause: Option<Seq<char>>) -> Seq<char> {
    match cause {
        Some(cause) => "can not list `"@ + path + "`: "@ + cause,
        None => "can not list `"@ + path + "`"@,
    }
}

/// The words of a failure that may be missing.
pub open spec fn cause_text(cause: Option<&str>) -> Option<Seq<char>> {
    match cause {
        Some(cause) => Some(cause@),
        None => None,
    }
}

/// The message for a directory that could not be listed.
pub fn unlisted_line(path: &str, cause: Option<&str>) -> (message: Message)
    ensures
        message is Error,
        is_error_line(message.text(), unlisted_words(path@, cause_text(cause))),
{
    let mut words = String::from_str("can not list `");
    words.append(path);
    match cause {
        Some(cause) => {
            words.append("`: ");
            words.append(cause);
        },
        None => {
            words.append("`");
        },
    }
    error_line(words.as_str())
}

impl FmtState {
    /// The first part of the summary.
    pub open spec fn ok_text(self) -> Seq<char> {
        decimal_digits(self.files_ok as nat) + " file(s) ok. "@
    }

    /// The second part of the summary.
    pub open spec fn modified_text(self) -> Seq<char> {
        (if self.check_mode {
            "need formatting"@
        } else {
            "modified"@
        }) + ": "@ + decimal_digits(self.files_modified as nat) + ". "@
    }

    /// The third part of the summary.
    pub open spec fn errors_text(self) -> Seq<char> {
        "errors: "@ + decimal_digits(self.errors as nat) + "."@
    }

    /// `row` is the summary of these counters: the three parts in green,
    /// yellow and red, each bare or in colour.
    pub open spec fn is_summary(self, row: Seq<char>) -> bool {
        exists|a: Seq<char>, b: Seq<char>, c: Seq<char>|
            #![trigger is_painted(a, self.ok_text(), Tone::Green), is_painted(b, self.modified_text(), Tone::Yellow), is_painted(c, self.errors_text(), Tone::Red)]
            {
                &&& is_painted(a, self.ok_text(), Tone::Green)
                &&& is_painted(b, self.modified_text(), Tone::Yellow)
                &&& is_painted(c, self.errors_text(), Tone::Red)
                &&& row == a + b + c
            }
    }

    /// Draws the summary: one line that holds the three counters. The area
    /// and the mode are not looked at, so the last drawing of a run shows the
    /// counters as they ended. The drawing never fails.
    pub fn draw_unchecked(
        &self,
        _dimensions: superconsole::Dimensions,
        _mode: superconsole::DrawMode,
    ) -> (r: Result<superconsole::Lines, anyhow::Error>)
        ensures
            r matches Ok(lines) && lines_rows(lines).len() == 1 && self.is_summary(
                lines_rows(lines)[0],
            ),
    {
        let mut ok = decimal(self.files_ok);
        ok.append(" file(s) ok. ");
        let mut modified = String::from_str(
            if self.check_mode {
                "need formatting"
            } else {
                "modified"
            },
        );
        modified.append(": ");
        modified.append(decimal(self.files_modified).as_str());
        modified.append(". ");
        let mut errors = String::from_str("errors: ");
        errors.append(decimal(self.errors).as_str());
        errors.append(".");
        proof {
            self.lemma_parts_are_plain();
            assert(ok@ =~= self.ok_text());
            assert(modified@ =~= self.modified_text());
            assert(errors@ =~= self.errors_text());
        }
        let first = match painted_span(ok.as_str(), Tone::Green) {
            Ok(span) => span,
            Err(err) => {
                return Err(err);
            },
        };
        let second = match painted_span(modified.as_str(), Tone::Yellow) {
            Ok(span) => span,
            Err(err) => {
                return Err(err);
            },
        };
        let third = match painted_span(errors.as_str(), Tone::Red) {
            Ok(span) => span,
            Err(err) => {
                return Err(err);
            },
        };
        let mut spans: Vec<superconsole::Span> = Vec::new();
        spans.push(first);
        spans.push(second);
        spans.push(third);
        proof {
            reveal_with_fuel(spans_text, 4);
            assert(spans@.drop_last().drop_last().drop_last() =~= Seq::empty());
            assert(spans_text(spans@) =~= span_text(first) + span_text(second) + span_text(third));
        }
        let line = line_of(spans);
        let mut rows: Vec<superconsole::Line> = Vec::new();
        rows.push(line);
        let block = lines_of(rows);
        proof {
            assert(is_painted(span_text(first), self.ok_text(), Tone::Green));
            assert(is_painted(span_text(second), self.modified_text(), Tone::Yellow));
            assert(is_painted(span_text(third), self.errors_text(), Tone::Red));
        }
        Ok(block)
    }

    proof fn lemma_parts_are_plain(self)
        ensures
            all_plain(self.ok_text()),
            all_plain(self.modified_text()),
            all_plain(self.errors_text()),
    {
        reveal_strlit(" file(s) ok. ");
        reveal_strlit("need formatting");
        reveal_strlit("modified");
        reveal_strlit(": ");
        reveal_strlit(". ");
        reveal_strlit("errors: ");
        reveal_strlit(".");
        lemma_decimal_is_plain(self.files_ok as nat);
        lemma_decimal_is_plain(self.files_modified as nat);
        lemma_decimal_is_plain(self.errors as nat);
        lemma_plain_concat(decimal_digits(self.files_ok as nat), " file(s) ok. "@);
        let head = if self.check_mode {
            "need formatting"@
        } else {
            "modified"@
        };
        lemma_plain_concat(head, ": "@);
        lemma_plain_concat(head + ": "@, decimal_digits(self.files_modified as nat));
        lemma_plain_concat(head + ": "@ + decimal_digits(self.files_modified as nat), ". "@);
        lemma_plain_concat("errors: "@, decimal_digits(self.errors as nat));
        lemma_plain_concat("errors: "@ + decimal_digits(self.errors as nat), "."@);
    }
}

/// A span that holds `text` as painted. A plain text always gives one.
fn painted_span(text: &str, tone: Tone) -> (r: Result<superconsole::Span, anyhow::Error>)
    ensures
        all_plain(text@) ==> r is Ok,
        r matches Ok(span) ==> is_painted(span_text(span), text@, tone),
{
    let shown = paint_bold(text, tone);
    proof {
        if all_plain(text@) {
            lemma_plain_concat(crate::console::sgr_prefix(tone), text@);
            lemma_plain_concat(
                crate::console::sgr_prefix(tone) + text@,
                crate::console::sgr_reset(),
            );
        }
    }
    unstyled_span(shown.as_str())
}

} // verus!
