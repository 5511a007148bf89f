//! The terminal crates that the reports are written with: `yansi` colours a
//! piece of text, `superconsole` holds the lines of the live summary.

use crossterm::tty::IsTty;
use vstd::prelude::*;
use yansi::Paint;

use crate::text::all_plain;

verus! {

/// The colours the reports use.
#[derive(Clone, Copy, Debug, PartialEq, Eq, Structural)]
pub enum Tone {
    Green,
    Yellow,
    Red,
}

/// The escape sequence that switches to bold text in the colour of `tone`.
pub open spec fn sgr_prefix(tone: Tone) -> Seq<char> {
    seq![
        '\x1B',
        '[',
        '1',
        ';',
        '3',
        match tone {
            Tone::Red => '1',
            Tone::Green => '2',
            Tone::Yellow => '3',
        },
        'm',
    ]
}

/// The escape sequence that switches every attribute off.
pub open spec fn sgr_reset() -> Seq<char> {
    seq!['\x1B', '[', '0', 'm']
}

/// `text` between the escape sequences that show it bold and in colour.
pub open spec fn colored(text: Seq<char>, tone: Tone) -> Seq<char> {
    sgr_prefix(tone) + text + sgr_reset()
}

/// `shown` is `text` as the terminal layer hands it back: bare where styling
/// is switched off, between escape sequences where it is on.
pub open spec fn is_painted(shown: Seq<char>, text: Seq<char>, tone: Tone) -> bool {
    shown == text || shown == colored(text, tone)
}

/// Calls `yansi::Paint::paint` and `bold` on `text` and renders the result.
/// Whether yansi styles at all is a switch of the process, so the contract
/// allows both renderings: the text alone, or the text after the sequence for
/// bold and the foreground colour and before the reset sequence.
#[verifier::external_body]
pub(crate) fn paint_bold(text: &str, tone: Tone) -> (shown: String)
    ensures
        is_painted(shown@, text@, tone),
{
    let color = match tone {
        Tone::Green => yansi::Color::Green,
        Tone::Yellow => yansi::Color::Yellow,
        Tone::Red => yansi::Color::Red,
    };
    text.paint(color).bold().to_string()
}

/// Calls crossterm's `IsTty::is_tty` on the standard output. The answer
/// depends on how the process was started, so nothing is claimed of it.
#[verifier::external_body]
pub(crate) fn stdout_is_tty() -> bool {
    std::io::stdout().is_tty()
}

/// `superconsole::Span`, a piece of text of one style; opaque here, see
/// [`span_text`].
#[verifier::external_type_specification]
#[verifier::external_body]
pub struct ExSpan(superconsole::Span);

/// `superconsole::Line`, one line of spans; opaque here, see [`line_text`].
#[verifier::external_type_specification]
#[verifier::external_body]
pub struct ExLine(superconsole::Line);

/// `superconsole::Lines`, a block of lines; opaque here, see [`lines_rows`].
#[verifier::external_type_specification]
#[verifier::external_body]
pub struct ExLines(superconsole::Lines);

/// `superconsole::Dimensions`, the area to draw in; carried through unread.
#[verifier::external_type_specification]
#[verifier::external_body]
pub struct ExDimensions(superconsole::Dimensions);

/// `superconsole::DrawMode`, which says whether a drawing is the last one;
/// carried through unread.
#[verifier::external_type_specification]
#[verifier::external_body]
pub struct ExDrawMode(superconsole::DrawMode);

/// `anyhow::Error`, the error of the console crate; carried through unread.
#[verifier::external_type_specification]
#[verifier::external_body]
pub struct ExError(anyhow::Error);

/// The text that a span holds.
pub uninterp spec fn span_text(span: superconsole::Span) -> Seq<char>;

/// The text of a line: what its spans hold, from the first to the last.
pub uninterp spec fn line_text(line: superconsole::Line) -> Seq<char>;

/// The texts of the lines that a block holds, from the top down.
pub uninterp spec fn lines_rows(lines: superconsole::Lines) -> Seq<Seq<char>>;

/// What `spans` hold, joined in order.
pub open spec fn spans_text(spans: Seq<superconsole::Span>) -> Seq<char>
    decreases spans.len(),
{
    if spans.len() == 0 {
        Seq::empty()
    } else {
        spans_text(spans.drop_last()) + span_text(spans.last())
    }
}

/// Calls `superconsole::Span::new_unstyled`, which keeps the text as it is
/// and refuses one that holds white space other than the space. Of the texts
/// it accepts the contract names only those made of plain characters.
#[verifier::external_body]
pub(crate) fn unstyled_span(text: &str) -> (r: Result<superconsole::Span, anyhow::Error>)
    ensures
        all_plain(text@) ==> r is Ok,
        r matches Ok(span) ==> span_text(span) == text@,
{
    superconsole::Span::new_unstyled(text)
}

/// Calls `superconsole::Line::from_iter`, which appends the spans in order,
/// dropping empty ones and merging neighbours of one style: the text of the
/// line is the texts of the spans joined.
#[verifier::external_body]
pub(crate) fn line_of(spans: Vec<superconsole::Span>) -> (line: superconsole::Line)
    ensures
        line_text(line) == spans_text(spans@),
{
    superconsole::Line::from_iter(spans)
}

/// Builds a `superconsole::Lines` that holds the given lines, top down.
#[verifier::external_body]
pub(crate) fn lines_of(lines: Vec<superconsole::Line>) -> (block: superconsole::Lines)
    ensures
        lines_rows(block) == lines@.map_values(|line: superconsole::Line| line_text(line)),
{
    superconsole::Lines(lines)
}

} // verus!
