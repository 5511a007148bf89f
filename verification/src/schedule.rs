//! The decisions of the scheduler: how many workers run, what a worker does
//! next, and what an undelivered message means.

use vstd::prelude::*;

use crate::bus::{Bus, Refused, Taken};
use crate::report::Message;
use crate::traverse::WorkItem;

verus! {

/// The number of workers for a request: the number asked for, else the
/// number of processors, and never less than one.
pub open spec fn workers_for(threads: Option<u8>, processors: nat) -> nat {
    match threads {
        Some(n) => if n == 0 {
            1
        } else {
            n as nat
        },
        None => if processors == 0 {
            1
        } else {
            processors
        },
    }
}

/// The number of workers to run.
pub fn worker_count(threads: Option<u8>, processors: usize) -> (count: usize)
    ensures
        count == workers_for(threads, processors as nat),
        count >= 1,
{
    match threads {
        Some(n) => if n == 0 {
            1
        } else {
            n as usize
        },
        None => if processors == 0 {
            1
        } else {
            processors
        },
    }
}

/// How the work is run.
#[derive(Clone, Copy, Debug, PartialEq, Eq, Structural)]
pub enum Pool {
    /// On the calling thread alone.
    Serial,
    /// On this many worker threads, at least two.
    Parallel(usize),
}

/// One worker runs on the calling thread; more get a thread each.
pub fn pool_for(workers: usize) -> (pool: Pool)
    ensures
        pool == if workers <= 1 {
            Pool::Serial
        } else {
            Pool::Parallel(workers)
        },
{
    if workers <= 1 {
        Pool::Serial
    } else {
        Pool::Parallel(workers)
    }
}

/// Where a worker stands.
#[derive(Clone, Copy, Debug, PartialEq, Eq, Structural)]
pub enum Stage {
    /// Not yet initialised.
    Fresh,
    /// Initialised and taking files.
    Running,
    /// Finalised; nothing is left to do.
    Finished,
}

/// What a worker does next.
#[derive(Debug)]
pub enum Step {
    /// Run the initialisation.
    Init,
    /// Run the action on this file.
    Action(WorkItem),
    /// No file waits, but more may come: try again later.
    Wait,
    /// No file is left: run the finalisation.
    Finalize,
    /// The worker is through.
    Stop,
}

/// One worker of the pool. It is initialised once before its first file,
/// runs the action once on each file it claims, and is finalised once when
/// the source has nothing more to give.
#[derive(Debug)]
pub struct Worker {
    pub stage: Stage,
    /// The number of files this worker has claimed; it wraps around.
    pub claimed: usize,
}

impl Worker {
    /// A worker that has done nothing yet.
    pub fn new() -> (worker: Worker)
        ensures
            worker.stage == Stage::Fresh,
            worker.claimed == 0,
    {
        Worker { stage: Stage::Fresh, claimed: 0 }
    }

    /// What a worker at `stage` does next before a source that holds
    /// `queued` and is closed or not: the stage it goes to, what is left in
    /// the source, and the step it takes.
    pub open spec fn next(stage: Stage, queued: Seq<WorkItem>, closed: bool) -> (
        Stage,
        Seq<WorkItem>,
        Step,
    ) {
        match stage {
            Stage::Fresh => (Stage::Running, queued, Step::Init),
            Stage::Running => if queued.len() > 0 {
                (Stage::Running, queued.drop_first(), Step::Action(queued[0]))
            } else if closed {
                (Stage::Finished, queued, Step::Finalize)
            } else {
                (Stage::Running, queued, Step::Wait)
            },
            Stage::Finished => (Stage::Finished, queued, Step::Stop),
        }
    }

    /// Says what the worker does next, claiming a file from `source` when
    /// it is running. Each file of the source goes to the one worker that
    /// claims it.
    pub fn step(&mut self, source: &mut Bus<WorkItem>) -> (next: Step)
        ensures
            final(source).limit() == old(source).limit(),
            final(source).closed() == old(source).closed(),
            (final(self).stage, final(source).queued(), next) == Self::next(
                old(self).stage,
                old(source).queued(),
                old(source).closed(),
            ),
            final(self).claimed == if next is Action {
                old(self).claimed.wrapping_add(1)
            } else {
                old(self).claimed
            },
    {
        match self.stage {
            Stage::Fresh => {
                self.stage = Stage::Running;
                Step::Init
            },
            Stage::Running => match source.recv() {
                Taken::Item(item) => {
                    self.claimed = self.claimed.wrapping_add(1);
                    Step::Action(item)
                },
                Taken::Empty => Step::Wait,
                Taken::Done => {
                    self.stage = Stage::Finished;
                    Step::Finalize
                },
            },
            Stage::Finished => Step::Stop,
        }
    }
}

/// One move in the life of a pool.
pub enum Turn {
    /// The worker with this number takes its next step.
    Work(int),
    /// The walk hands a file to the source.
    Feed(WorkItem),
    /// The walk closes the source.
    Close,
}

/// A pool at work, as far as the files go: where each worker stands, the
/// files that wait in the source, whether the source is closed, every file
/// that the source ever took, and the files claimed so far, each with the
/// number of the worker that claimed it.
pub struct Crew {
    pub stages: Seq<Stage>,
    pub queued: Seq<WorkItem>,
    pub closed: bool,
    pub fed: Seq<WorkItem>,
    pub claimed: Seq<(int, WorkItem)>,
}

impl Crew {
    /// The files claimed so far, in the order they were claimed.
    pub open spec fn items(self) -> Seq<WorkItem> {
        self.claimed.map_values(|claim: (int, WorkItem)| claim.1)
    }

    /// The pool after one move. A worker steps as [`Worker::next`] says; a
    /// closed source takes no file.
    pub open spec fn moved(self, turn: Turn) -> Crew {
        match turn {
            Turn::Work(who) => if 0 <= who < self.stages.len() {
                let (stage, queued, step) = Worker::next(self.stages[who], self.queued, self.closed);
                Crew {
                    stages: self.stages.update(who, stage),
                    queued,
                    claimed: match step {
                        Step::Action(item) => self.claimed.push((who, item)),
                        _ => self.claimed,
                    },
                    ..self
                }
            } else {
                self
            },
            Turn::Feed(item) => if self.closed {
                self
            } else {
                Crew { queued: self.queued.push(item), fed: self.fed.push(item), ..self }
            },
            Turn::Close => Crew { closed: true, ..self },
        }
    }

    /// The pool after these moves, in their order.
    pub open spec fn ran(self, turns: Seq<Turn>) -> Crew
        decreases turns.len(),
    {
        if turns.len() == 0 {
            self
        } else {
            self.ran(turns.drop_last()).moved(turns.last())
        }
    }

    /// Nothing is lost and nothing is made: the files claimed, followed by
    /// the files that wait, are the files that the source took, in order.
    pub open spec fn balanced(self) -> bool {
        self.items() + self.queued == self.fed
    }

    /// A worker is through only when the source is closed and empty.
    pub open spec fn settled(self) -> bool {
        (exists|who: int| 0 <= who < self.stages.len() && self.stages[who] == Stage::Finished)
            ==> self.closed && self.queued.len() == 0
    }

    /// Whether every worker is through.
    pub open spec fn all_finished(self) -> bool {
        forall|who: int| 0 <= who < self.stages.len() ==> self.stages[who] == Stage::Finished
    }
}

proof fn lemma_move_keeps(crew: Crew, turn: Turn)
    requires
        crew.balanced(),
        crew.settled(),
    ensures
        crew.moved(turn).balanced(),
        crew.moved(turn).settled(),
{
    let next = crew.moved(turn);
    match turn {
        Turn::Work(who) => {
            if 0 <= who < crew.stages.len() {
                let step = Worker::next(crew.stages[who], crew.queued, crew.closed).2;
                if step is Action {
                    assert(crew.stages[who] == Stage::Running);
                    assert(next.items() =~= crew.items().push(crew.queued[0]));
                    assert(next.items() + next.queued =~= crew.items() + crew.queued);
                    assert forall|other: int| 0 <= other < next.stages.len() implies next.stages[other]
                        != Stage::Finished by {
                        if other != who {
                            assert(crew.stages[other] == next.stages[other]);
                        }
                    }
                } else {
                    assert(next.items() =~= crew.items());
                    if exists|other: int|
                        0 <= other < next.stages.len() && next.stages[other] == Stage::Finished {
                        let other = choose|other: int|
                            0 <= other < next.stages.len() && next.stages[other]
                                == Stage::Finished;
                        if other != who {
                            assert(crew.stages[other] == Stage::Finished);
                        }
                    }
                }
            }
        },
        Turn::Feed(item) => {
            if !crew.closed {
                assert(next.items() + next.queued =~= (crew.items() + crew.queued).push(item));
                assert forall|other: int| 0 <= other < next.stages.len() implies next.stages[other]
                    != Stage::Finished by {
                    assert(next.stages[other] == crew.stages[other]);
                }
            }
        },
        Turn::Close => {
            if exists|other: int|
                0 <= other < next.stages.len() && next.stages[other] == Stage::Finished {
                let other = choose|other: int|
                    0 <= other < next.stages.len() && next.stages[other] == Stage::Finished;
                assert(crew.stages[other] == Stage::Finished);
            }
        },
    }
}

/// Whatever the number of workers and however their steps interleave with
/// each other and with the walk, every file that the source takes is claimed
/// at most once, in the order the source took it; and once a worker is
/// through, nothing is left to claim. When all workers are through, the files
/// claimed are exactly the files that the source took.
pub proof fn lemma_each_file_is_claimed_once(start: Crew, turns: Seq<Turn>)
    requires
        start.balanced(),
        start.settled(),
    ensures
        start.ran(turns).balanced(),
        start.ran(turns).settled(),
        start.ran(turns).all_finished() && start.stages.len() > 0 ==> start.ran(turns).items()
            == start.ran(turns).fed,
        start.ran(turns).stages.len() == start.stages.len(),
    decreases turns.len(),
{
    if turns.len() > 0 {
        lemma_each_file_is_claimed_once(start, turns.drop_last());
        lemma_move_keeps(start.ran(turns.drop_last()), turns.last());
    }
    let end = start.ran(turns);
    if end.all_finished() && start.stages.len() > 0 {
        assert(end.stages[0] == Stage::Finished);
        assert(end.items() + end.queued =~= end.items());
    }
}

/// The files that a pool works through do not depend on the number of its
/// workers nor on how their steps interleave: two pools that are through and
/// were handed the same files have claimed the same files, in the same
/// order.
pub proof fn lemma_pools_agree(one: Crew, turns: Seq<Turn>, other: Crew, moves: Seq<Turn>)
    requires
        one.balanced() && one.settled() && one.stages.len() > 0,
        other.balanced() && other.settled() && other.stages.len() > 0,
        one.ran(turns).all_finished(),
        other.ran(moves).all_finished(),
        one.ran(turns).fed == other.ran(moves).fed,
    ensures
        one.ran(turns).items() == other.ran(moves).items(),
{
    lemma_each_file_is_claimed_once(one, turns);
    lemma_each_file_is_claimed_once(other, moves);
}

/// The one failure that ends a walk: the reporter is gone, so no message can
/// be delivered any more.
#[derive(Clone, Copy, Debug, PartialEq, Eq, Structural)]
pub enum WalkError {
    Disconnected,
}

/// Hands `message` to the bus. A full bus gives the message back, for the
/// sender to wait and try again; a closed bus ends the walk.
pub fn post(bus: &mut Bus<Message>, message: Message) -> (posted: Result<Option<Message>, WalkError>)
    ensures
        final(bus).limit() == old(bus).limit(),
        final(bus).closed() == old(bus).closed(),
        if old(bus).closed() {
            posted == Err::<Option<Message>, WalkError>(WalkError::Disconnected) && final(bus).queued() == old(bus).queued()
        } else if old(bus).queued().len() >= old(bus).limit() {
            posted == Ok::<Option<Message>, WalkError>(Some(message)) && final(bus).queued()
                == old(bus).queued()
        } else {
            posted == Ok::<Option<Message>, WalkError>(None) && final(bus).queued() == old(bus).queued().push(message)
        },
{
    match bus.send(message) {
        Ok(()) => Ok(None),
        Err(Refused::Full(message)) => Ok(Some(message)),
        Err(Refused::Closed(_)) => Err(WalkError::Disconnected),
    }
}

} // verus!
