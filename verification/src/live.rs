//! The reporter: the one consumer of the message bus, which decides what is
//! drawn and when the summary is drawn for the last time.

use vstd::prelude::*;

use crate::bus::{Bus, Taken};
use crate::console::stdout_is_tty;
use crate::report::Message;

verus! {

/// Where the report goes.
#[derive(Clone, Copy, Debug, PartialEq, Eq, Structural)]
pub enum Surface {
    /// A terminal, on which the summary is redrawn while the work goes on.
    Terminal,
    /// Anything else: lines are printed one after the other.
    Plain,
}

/// How the summary is drawn.
#[derive(Clone, Copy, Debug, PartialEq, Eq, Structural)]
pub enum RenderMode {
    /// While the work goes on.
    Normal,
    /// Once, when the work is over.
    Final,
}

/// One thing to put on the surface.
#[derive(Debug)]
pub enum Draw {
    /// The text of a message, on a line of its own.
    Line(Message),
    /// The summary of the counters as they stand.
    Summary(RenderMode),
}

/// The state of the reporter.
#[derive(Debug)]
pub struct LiveReporter {
    pub surface: Surface,
    /// Whether the summary has been drawn for the last time.
    pub finished: bool,
}

impl LiveReporter {
    /// What one turn draws, given what the reporter finds on the bus.
    ///
    /// A message is put on a line and, on a terminal, the summary is redrawn
    /// under it. An empty bus that is still open is a tick: the terminal
    /// redraws the summary, a plain surface shows nothing. An empty bus
    /// that is closed ends the report with the last summary. After that
    /// nothing is drawn.
    pub open spec fn draws(self, queued: Seq<Message>, closed: bool) -> Seq<Draw> {
        if self.finished {
            Seq::empty()
        } else if queued.len() > 0 {
            if self.surface == Surface::Terminal {
                seq![Draw::Line(queued[0]), Draw::Summary(RenderMode::Normal)]
            } else {
                seq![Draw::Line(queued[0])]
            }
        } else if closed {
            seq![Draw::Summary(RenderMode::Final)]
        } else if self.surface == Surface::Terminal {
            seq![Draw::Summary(RenderMode::Normal)]
        } else {
            Seq::empty()
        }
    }

    /// A reporter that has drawn nothing yet.
    pub fn new(surface: Surface) -> (reporter: LiveReporter)
        ensures
            reporter.surface == surface,
            !reporter.finished,
    {
        LiveReporter { surface, finished: false }
    }

    /// A reporter for the standard output: it redraws on a terminal and
    /// prints line by line anywhere else. Whether the standard output is a
    /// terminal is asked of the system, so the reporter is one of the two
    /// that [`Self::facing`] makes.
    pub fn for_stdout() -> (reporter: LiveReporter)
        ensures
            !reporter.finished,
            reporter.surface == Self::surface_for(true) || reporter.surface == Self::surface_for(
                false,
            ),
    {
        Self::facing(stdout_is_tty())
    }

    /// The surface behind a standard output that is a terminal, or is not.
    pub open spec fn surface_for(terminal: bool) -> Surface {
        if terminal {
            Surface::Terminal
        } else {
            Surface::Plain
        }
    }

    /// A reporter that has drawn nothing yet, for a standard output that is
    /// a terminal, or is not.
    pub fn facing(terminal: bool) -> (reporter: LiveReporter)
        ensures
            reporter.surface == Self::surface_for(terminal),
            !reporter.finished,
    {
        let surface = if terminal {
            Surface::Terminal
        } else {
            Surface::Plain
        };
        LiveReporter { surface, finished: false }
    }

    /// Takes one turn: looks at the bus, takes the oldest message if there
    /// is one, and says what to draw. The last summary is drawn exactly when
    /// the bus is found closed and empty for the first time, so it shows the
    /// counters as they ended; a finished reporter leaves the bus alone.
    pub fn turn(&mut self, bus: &mut Bus<Message>) -> (out: Vec<Draw>)
        ensures
            out@ == old(self).draws(old(bus).queued(), old(bus).closed()),
            final(self).surface == old(self).surface,
            final(self).finished == (old(self).finished || (old(bus).queued().len() == 0 && old(bus).closed())),
            final(bus).limit() == old(bus).limit(),
            final(bus).closed() == old(bus).closed(),
            final(bus).queued() == if old(self).finished || old(bus).queued().len() == 0 {
                old(bus).queued()
            } else {
                old(bus).queued().drop_first()
            },
    {
        let mut out: Vec<Draw> = Vec::new();
        if self.finished {
            return out;
        }
        match bus.recv() {
            Taken::Item(message) => {
                out.push(Draw::Line(message));
                if let Surface::Terminal = self.surface {
                    out.push(Draw::Summary(RenderMode::Normal));
                }
            },
            Taken::Empty => {
                if let Surface::Terminal = self.surface {
                    out.push(Draw::Summary(RenderMode::Normal));
                }
            },
            Taken::Done => {
                out.push(Draw::Summary(RenderMode::Final));
                self.finished = true;
            },
        }
        assert(out@ =~= old(self).draws(old(bus).queued(), old(bus).closed()));
        out
    }
}

/// The last summary is drawn once: a turn draws it exactly when an
/// unfinished reporter finds the bus closed and empty, that turn finishes the
/// reporter, and a finished reporter draws nothing, whatever the bus holds.
pub proof fn lemma_last_summary_is_drawn_once(
    reporter: LiveReporter,
    queued: Seq<Message>,
    closed: bool,
)
    ensures
        reporter.draws(queued, closed).contains(Draw::Summary(RenderMode::Final)) <==> (
        !reporter.finished && queued.len() == 0 && closed),
        reporter.finished ==> reporter.draws(queued, closed).len() == 0,
{
    let out = reporter.draws(queued, closed);
    if !reporter.finished && queued.len() == 0 && closed {
        assert(out[0] == Draw::Summary(RenderMode::Final));
    }
    if out.contains(Draw::Summary(RenderMode::Final)) {
        let k = choose|k: int| 0 <= k < out.len() && out[k] == Draw::Summary(RenderMode::Final);
        assert(out[k] == Draw::Summary(RenderMode::Final));
    }
}

} // verus!
