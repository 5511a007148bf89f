//! The counters of a run and the exit status they lead to.

use vstd::prelude::*;

verus! {

/// How the processing of one file ended.
#[derive(Clone, Copy, Debug, PartialEq, Eq, Structural)]
pub enum Outcome {
    /// The file was already formatted.
    Unchanged,
    /// The file was rewritten or, in check mode, would have been.
    Changed,
    /// The file could not be read or formatted.
    Failed,
}

/// The aggregate of a run: how many files ended in each way.
///
/// Each counter wraps around on overflow, as an atomic counter does.
#[derive(Debug)]
pub struct FmtState {
    /// Whether files are only checked, never written.
    pub check_mode: bool,
    /// Files that were already formatted.
    pub files_ok: usize,
    /// Files that were rewritten or, in check mode, need formatting.
    pub files_modified: usize,
    /// Files that could not be processed.
    pub errors: usize,
}

impl FmtState {
    /// The state after one more file ended with `outcome`.
    pub open spec fn recorded(self, outcome: Outcome) -> FmtState {
        match outcome {
            Outcome::Unchanged => FmtState { files_ok: self.files_ok.wrapping_add(1), ..self },
            Outcome::Changed => FmtState {
                files_modified: self.files_modified.wrapping_add(1),
                ..self
            },
            Outcome::Failed => FmtState { errors: self.errors.wrapping_add(1), ..self },
        }
    }

    /// The state after files ended with `outcomes`, one after the other.
    pub open spec fn tally(self, outcomes: Seq<Outcome>) -> FmtState
        decreases outcomes.len(),
    {
        if outcomes.len() == 0 {
            self
        } else {
            self.tally(outcomes.drop_last()).recorded(outcomes.last())
        }
    }

    /// A state with every counter at zero.
    pub fn new(check_mode: bool) -> (state: Self)
        ensures
            state == (FmtState { check_mode, files_ok: 0, files_modified: 0, errors: 0 }),
    {
        FmtState { check_mode, files_ok: 0, files_modified: 0, errors: 0 }
    }

    /// Counts one more file under the counter that `outcome` names.
    pub fn record(&mut self, outcome: Outcome)
        ensures
            *final(self) == old(self).recorded(outcome),
    {
        match outcome {
            Outcome::Unchanged => {
                self.files_ok = self.files_ok.wrapping_add(1);
            },
            Outcome::Changed => {
                self.files_modified = self.files_modified.wrapping_add(1);
            },
            Outcome::Failed => {
                self.errors = self.errors.wrapping_add(1);
            },
        }
    }

    /// A copy of the counters as they stand.
    pub fn snapshot(&self) -> (copy: Self)
        ensures
            copy == *self,
    {
        FmtState {
            check_mode: self.check_mode,
            files_ok: self.files_ok,
            files_modified: self.files_modified,
            errors: self.errors,
        }
    }
}

/// What a walk hands back: the aggregate, and the directories that could not
/// be listed, which are counted apart from the files that failed.
#[derive(Debug)]
pub struct WalkResult {
    pub state: FmtState,
    pub walker_errors: usize,
}

/// The exit status of a run that ended with these counts.
pub open spec fn exit_status(errors: nat, walker_errors: nat, modified: nat) -> int {
    if errors > 0 || walker_errors > 0 || modified > 0 {
        1
    } else {
        0
    }
}

/// Exit status of a finished run: `0` when no file failed, no directory
/// failed to list and no file was modified or needs formatting, else `1`.
pub fn exit_code(result: &WalkResult) -> (code: i32)
    ensures
        code == exit_status(
            result.state.errors as nat,
            result.walker_errors as nat,
            result.state.files_modified as nat,
        ),
        code == 0 <==> result.state.errors == 0 && result.walker_errors == 0
            && result.state.files_modified == 0,
        code == 0 || code == 1,
{
    if result.state.errors > 0 || result.walker_errors > 0 || result.state.files_modified > 0 {
        1
    } else {
        0
    }
}

/// How often `which` occurs among `outcomes`.
pub open spec fn occurrences(outcomes: Seq<Outcome>, which: Outcome) -> nat {
    outcomes.to_multiset().count(which)
}

/// The counters do not depend on the order in which files end: two runs whose
/// outcomes are the same up to order leave the same state.
pub proof fn lemma_tally_ignores_order(state: FmtState, first: Seq<Outcome>, second: Seq<Outcome>)
    requires
        first.to_multiset() == second.to_multiset(),
    ensures
        state.tally(first) == state.tally(second),
{
    let step = |s: FmtState, o: Outcome| s.recorded(o);
    lemma_tally_is_fold(state, first);
    lemma_tally_is_fold(state, second);
    assert(vstd::seq_lib::commutative_foldl(step));
    vstd::seq_lib::lemma_fold_left_permutation(first, second, step, state);
}

proof fn lemma_tally_is_fold(state: FmtState, outcomes: Seq<Outcome>)
    ensures
        state.tally(outcomes) == outcomes.fold_left(
            state,
            |s: FmtState, o: Outcome| s.recorded(o),
        ),
    decreases outcomes.len(),
{
    if outcomes.len() > 0 {
        lemma_tally_is_fold(state, outcomes.drop_last());
    }
}

/// Starting from zero, each counter ends at the number of files that ended
/// that way, and the mode is kept. In particular a file that fails adds one to
/// `errors` and takes nothing from the other counters.
pub proof fn lemma_tally_counts(check_mode: bool, outcomes: Seq<Outcome>)
    requires
        outcomes.len() <= usize::MAX,
    ensures
        ({
            let end = (FmtState { check_mode, files_ok: 0, files_modified: 0, errors: 0 }).tally(
                outcomes,
            );
            &&& end.check_mode == check_mode
            &&& end.files_ok == occurrences(outcomes, Outcome::Unchanged)
            &&& end.files_modified == occurrences(outcomes, Outcome::Changed)
            &&& end.errors == occurrences(outcomes, Outcome::Failed)
            &&& end.files_ok + end.files_modified + end.errors == outcomes.len()
        }),
    decreases outcomes.len(),
{
    broadcast use vstd::seq_lib::group_to_multiset_ensures;

    if outcomes.len() > 0 {
        lemma_tally_counts(check_mode, outcomes.drop_last());
        assert(outcomes == outcomes.drop_last().push(outcomes.last()));
    }
}

} // verus!
