//! What the parser makes of a source, as far as the formatter's limits
//! depend on it: the events of the syntax tree, each with its sort, the kind
//! it names where that matters here, and the bytes it spans.
//!
//! The formatter reads the same events. It stops the program on white space
//! between tokens that is neither a space nor a tab, and it counts its level
//! of indentation in sixteen bits. Both can be told from the events before
//! the formatter is called.

use vstd::prelude::*;
use yara_x_parser::cst::{CSTStream, Event as Parsed, SyntaxKind};
use yara_x_parser::Parser;

verus! {

/// What an event says.
#[derive(Clone, Copy, Debug, PartialEq, Eq, Structural)]
pub enum Sort {
    /// A node of the syntax tree begins.
    Begin,
    /// A node of the syntax tree ends.
    End,
    /// A token: a word, a mark, a comment, white space.
    Token,
    /// A message of the parser.
    Error,
}

/// The kinds of nodes and tokens that are told apart here.
#[derive(Clone, Copy, Debug, PartialEq, Eq, Structural)]
pub enum Kind {
    /// A run of white space between tokens.
    Whitespace,
    /// A part of the source that could not be parsed.
    Error,
    /// Any other kind.
    Other,
}

/// One event of the parser.
#[derive(Clone, Copy, Debug)]
pub struct Event {
    pub sort: Sort,
    pub kind: Kind,
    /// The position of the first byte that the event spans.
    pub start: usize,
    /// The position behind the last byte that the event spans.
    pub end: usize,
}

/// The events that the parser gives for `input`, in their order.
pub uninterp spec fn parsed(input: Seq<u8>) -> Seq<Event>;

/// Runs `yara_x_parser::Parser` over `input` and reads the events off
/// `yara_x_parser::cst::CSTStream`, as the formatter does: each event with
/// its sort, its span, and its kind as far as [`Kind`] tells kinds apart.
/// The events are a function of the input, named by [`parsed`]. The parser
/// stops the program on an input of `u32::MAX` bytes or more.
#[verifier::external_body]
pub(crate) fn parse_events(input: &[u8]) -> (events: Vec<Event>)
    requires
        input@.len() < 0xFFFF_FFFF,
    ensures
        events@ == parsed(input@),
{
    let mut events = Vec::new();
    for found in CSTStream::from(Parser::new(input)) {
        let (sort, kind, span) = match found {
            Parsed::Begin { kind, span } => (Sort::Begin, kind, span),
            Parsed::End { kind, span } => (Sort::End, kind, span),
            Parsed::Token { kind, span } => (Sort::Token, kind, span),
            Parsed::Error { span, .. } => (Sort::Error, SyntaxKind::ERROR, span),
        };
        let kind = match kind { SyntaxKind::WHITESPACE => Kind::Whitespace, SyntaxKind::ERROR => Kind::Error, _ => Kind::Other };
        events.push(Event { sort, kind, start: span.start(), end: span.end() });
    }
    events
}

/// How many error nodes are open before the event at `upto`, as the
/// formatter counts them: it hands the bytes of an error node on as they
/// are and skips every event up to the end of that node, counting only the
/// error nodes that begin and end on the way.
pub open spec fn skipping(events: Seq<Event>, upto: int) -> nat
    decreases upto,
{
    if upto <= 0 {
        0
    } else {
        let before = skipping(events, upto - 1);
        let event = events[upto - 1];
        if event.kind == Kind::Error && event.sort == Sort::Begin {
            before + 1
        } else if before > 0 && event.kind == Kind::Error && event.sort == Sort::End {
            (before - 1) as nat
        } else {
            before
        }
    }
}

/// Whether `byte` is a space or a tab.
pub open spec fn is_blank(byte: u8) -> bool {
    byte == 0x20 || byte == 0x09
}

/// Whether `event` is white space between tokens that holds a byte other
/// than a space and a tab. An event that spans no part of the input counts
/// as such.
pub open spec fn odd_space(input: Seq<u8>, event: Event) -> bool {
    &&& event.sort == Sort::Token
    &&& event.kind == Kind::Whitespace
    &&& (event.start > event.end || event.end > input.len() || exists|k: int|
        event.start <= k < event.end && !is_blank(#[trigger] input[k]))
}

/// Whether the formatter comes upon white space that it cannot take: an
/// event outside every error node that is [`odd_space`].
pub open spec fn stops_on_space(input: Seq<u8>, events: Seq<Event>) -> bool {
    exists|i: int|
        0 <= i < events.len() && skipping(events, i) == 0 && odd_space(input, #[trigger] events[i])
}

/// How many nodes are open after the first `upto` events, outside error
/// nodes.
pub open spec fn open_nodes(events: Seq<Event>, upto: int) -> nat
    decreases upto,
{
    if upto <= 0 {
        0
    } else {
        let before = open_nodes(events, upto - 1);
        let event = events[upto - 1];
        if skipping(events, upto - 1) > 0 || event.kind == Kind::Error {
            before
        } else if event.sort == Sort::Begin {
            before + 1
        } else if event.sort == Sort::End && before > 0 {
            (before - 1) as nat
        } else {
            before
        }
    }
}

/// Whether at most `limit` nodes are open at any time within the first
/// `upto` events.
pub open spec fn nests_within(events: Seq<Event>, upto: int, limit: nat) -> bool {
    forall|i: int| 0 <= i <= upto ==> #[trigger] open_nodes(events, i) <= limit
}

/// The deepest nesting that the formatter is handed. The parser turns every
/// node in which it fails into an error node, so a node that is none has
/// been parsed to its end. The formatter raises its level after a mark that
/// opens the inside of such a node (a brace, a parenthesis, the colon of a
/// section, the word `with`) and lowers it again before the matching mark or
/// the end of the node. A node holds at most two such marks open at once
/// (the word `with` and the parenthesis behind it), so the level stays
/// within twice the number of open nodes, and with this limit within
/// sixteen bits.
pub const MAX_DEPTH: usize = 16383;

/// Tells whether the formatter would come upon white space that it cannot
/// take, see [`stops_on_space`].
pub fn finds_odd_space(input: &[u8], events: &Vec<Event>) -> (found: bool)
    ensures
        found == stops_on_space(input@, events@),
{
    let mut skipped: usize = 0;
    let mut i: usize = 0;
    while i < events.len()
        invariant
            i <= events.len(),
            skipped == skipping(events@, i as int),
            skipped <= i,
            forall|j: int|
                0 <= j < i ==> !(skipping(events@, j) == 0 && odd_space(
                    input@,
                    #[trigger] events@[j],
                )),
        decreases events.len() - i,
    {
        let event = events[i];
        if skipped == 0 && is_whitespace(&event) {
            if space_is_odd(input, &event) {
                assert(skipping(events@, i as int) == 0 && odd_space(input@, events@[i as int]));
                return true;
            }
        }
        if is_error(&event, Sort::Begin) {
            skipped += 1;
        } else if skipped > 0 && is_error(&event, Sort::End) {
            skipped -= 1;
        }
        i += 1;
    }
    false
}

fn is_whitespace(event: &Event) -> (yes: bool)
    ensures
        yes == (event.sort == Sort::Token && event.kind == Kind::Whitespace),
{
    match (event.sort, event.kind) {
        (Sort::Token, Kind::Whitespace) => true,
        _ => false,
    }
}

fn is_error(event: &Event, sort: Sort) -> (yes: bool)
    requires
        sort == Sort::Begin || sort == Sort::End,
    ensures
        yes == (event.kind == Kind::Error && event.sort == sort),
{
    match (event.kind, event.sort, sort) {
        (Kind::Error, Sort::Begin, Sort::Begin) => true,
        (Kind::Error, Sort::End, Sort::End) => true,
        _ => false,
    }
}

fn is_node(event: &Event, sort: Sort) -> (yes: bool)
    requires
        sort == Sort::Begin || sort == Sort::End,
    ensures
        yes == (event.kind != Kind::Error && event.sort == sort),
{
    match (event.kind, event.sort, sort) {
        (Kind::Error, _, _) => false,
        (_, Sort::Begin, Sort::Begin) => true,
        (_, Sort::End, Sort::End) => true,
        _ => false,
    }
}

fn space_is_odd(input: &[u8], event: &Event) -> (odd: bool)
    requires
        event.sort == Sort::Token && event.kind == Kind::Whitespace,
    ensures
        odd == odd_space(input@, *event),
{
    if event.start > event.end || event.end > input.len() {
        return true;
    }
    let mut k: usize = event.start;
    while k < event.end
        invariant
            event.sort == Sort::Token && event.kind == Kind::Whitespace,
            event.start <= k <= event.end <= input@.len(),
            forall|j: int| event.start <= j < k ==> is_blank(#[trigger] input@[j]),
        decreases event.end - k,
    {
        if input[k] != 0x20 && input[k] != 0x09 {
            assert(!is_blank(input@[k as int]));
            return true;
        }
        k += 1;
    }
    false
}

/// Tells whether at most `limit` nodes are open at any time, see
/// [`nests_within`].
pub fn within_depth(events: &Vec<Event>, limit: usize) -> (yes: bool)
    ensures
        yes == nests_within(events@, events@.len() as int, limit as nat),
{
    let mut skipped: usize = 0;
    let mut open: usize = 0;
    let mut i: usize = 0;
    while i < events.len()
        invariant
            i <= events.len(),
            skipped == skipping(events@, i as int),
            skipped <= i,
            open == open_nodes(events@, i as int),
            open <= i,
            nests_within(events@, i as int, limit as nat),
        decreases events.len() - i,
    {
        let event = events[i];
        if skipped == 0 {
            if is_node(&event, Sort::Begin) {
                open += 1;
            } else if open > 0 && is_node(&event, Sort::End) {
                open -= 1;
            }
        }
        if is_error(&event, Sort::Begin) {
            skipped += 1;
        } else if skipped > 0 && is_error(&event, Sort::End) {
            skipped -= 1;
        }
        i += 1;
        if open > limit {
            assert(open_nodes(events@, i as int) > limit);
            return false;
        }
    }
    true
}

} // verus!
