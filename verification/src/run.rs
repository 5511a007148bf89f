//! A whole run: from the arguments of the command to the counters, the
//! messages and the exit status.

use vstd::prelude::*;
use vstd::string::StringExecFns;

use crate::format::{
    failure_words, formatted, process_file, verdict, Config, FormatOptions, Formatted,
};
use crate::glob::PatternSet;
use crate::report::{
    is_error_line, is_status_line, outcome_of, report_outcome, unlisted_line, unlisted_words,
    Message,
};
use crate::schedule::{worker_count, workers_for};
use crate::state::{exit_status, lemma_tally_counts, FmtState, Outcome};
use crate::text::texts;
use crate::tree::{finds, survey_root, walk_root, Entry, Pick, Rules};

verus! {

/// Why a walk cannot start.
#[derive(Clone, Copy, Debug, PartialEq, Eq, Structural)]
pub enum ConfigError {
    /// There is no pattern to select files by, and no default either.
    NoPatterns,
}

/// What a walk is set up with.
#[derive(Debug)]
pub struct TraversalConfig {
    /// The inclusion patterns; never empty.
    pub patterns: PatternSet,
    /// The deepest level that is entered; `0` stays in the root.
    pub max_depth: usize,
    /// The number of workers; at least one.
    pub workers: usize,
}

/// The patterns that a walk goes by: the ones given, or the defaults where
/// none is given.
pub open spec fn chosen(filters: Seq<Seq<char>>, defaults: Seq<Seq<char>>) -> Seq<Seq<char>> {
    if filters.len() > 0 {
        filters
    } else {
        defaults
    }
}

/// The depth limit that a request stands for: without one the walk stays in
/// the root.
pub open spec fn depth_for(max_depth: Option<usize>) -> nat {
    match max_depth {
        Some(depth) => depth as nat,
        None => 0,
    }
}

impl TraversalConfig {
    /// Sets a walk up. The defaults stand in where no pattern is given; a
    /// walk without any pattern is refused. Without a depth the walk stays
    /// in the root, and without a number of threads there is one worker for
    /// each processor.
    pub fn new(
        filters: &Vec<String>,
        defaults: &Vec<String>,
        max_depth: Option<usize>,
        threads: Option<u8>,
        processors: usize,
    ) -> (made: Result<TraversalConfig, ConfigError>)
        ensures
            match made {
                Ok(config) => {
                    &&& chosen(texts(filters@), texts(defaults@)).len() > 0
                    &&& config.patterns@ == chosen(texts(filters@), texts(defaults@))
                    &&& config.max_depth == depth_for(max_depth)
                    &&& config.workers == workers_for(threads, processors as nat)
                },
                Err(err) => err == ConfigError::NoPatterns && chosen(
                    texts(filters@),
                    texts(defaults@),
                ).len() == 0,
            },
    {
        let patterns = if filters.len() > 0 {
            PatternSet::of(filters)
        } else {
            PatternSet::of(defaults)
        };
        if patterns.is_empty() {
            return Err(ConfigError::NoPatterns);
        }
        let max_depth = match max_depth {
            Some(depth) => depth,
            None => 0,
        };
        Ok(TraversalConfig { patterns, max_depth, workers: worker_count(threads, processors) })
    }
}

/// The arguments of the command, but for the path.
#[derive(Debug)]
pub struct FmtArgs {
    /// Report the files that need formatting without writing them.
    pub check: bool,
    /// The filters given; empty where none was.
    pub filters: Vec<String>,
    /// The number of threads asked for.
    pub threads: Option<u8>,
    /// The depth to which directories are entered, if any was asked for.
    pub recursive: Option<usize>,
    /// Columns that a tab in the input stands for.
    pub tab_size: usize,
}

/// The tab size where the command line names none.
pub const DEFAULT_TAB_SIZE: usize = 4;

/// The depth of a recursive walk where the command line names none.
pub const DEFAULT_RECURSION_DEPTH: usize = 1000;

/// The patterns that select the files when no filter is given.
pub open spec fn default_filters() -> Seq<Seq<char>> {
    seq!["**/*.yar"@, "**/*.yara"@]
}

/// The patterns that select the files when no filter is given.
pub fn default_patterns() -> (defaults: Vec<String>)
    ensures
        texts(defaults@) == default_filters(),
{
    let mut defaults: Vec<String> = Vec::new();
    defaults.push(String::from_str("**/*.yar"));
    defaults.push(String::from_str("**/*.yara"));
    assert(texts(defaults@) =~= default_filters());
    defaults
}

impl FmtArgs {
    /// The arguments as the command line gives them. `recursive` is `None`
    /// without the option, `Some(None)` for the option without a depth,
    /// which stands for a depth of a thousand, and `Some(Some(depth))` with
    /// one. Without a tab size a tab stands for four columns.
    pub fn resolve(
        check: bool,
        filters: Vec<String>,
        threads: Option<u8>,
        recursive: Option<Option<usize>>,
        tab_size: Option<usize>,
    ) -> (args: FmtArgs)
        ensures
            args.check == check,
            args.filters == filters,
            args.threads == threads,
            args.recursive == match recursive {
                None => None::<usize>,
                Some(None) => Some(DEFAULT_RECURSION_DEPTH),
                Some(Some(depth)) => Some(depth),
            },
            args.tab_size == match tab_size {
                Some(size) => size,
                None => DEFAULT_TAB_SIZE,
            },
    {
        let recursive = match recursive {
            None => None,
            Some(None) => Some(DEFAULT_RECURSION_DEPTH),
            Some(Some(depth)) => Some(depth),
        };
        let tab_size = match tab_size {
            Some(size) => size,
            None => DEFAULT_TAB_SIZE,
        };
        FmtArgs { check, filters, threads, recursive, tab_size }
    }

    /// The patterns and the depth limit that the arguments stand for.
    pub open spec fn rules(self) -> Rules {
        Rules {
            patterns: chosen(texts(self.filters@), default_filters()),
            max_depth: depth_for(self.recursive),
        }
    }

    /// The walk that the arguments ask for. It is never refused, since the
    /// defaults are there.
    pub fn traversal(&self, processors: usize) -> (config: TraversalConfig)
        ensures
            config.patterns@ == self.rules().patterns,
            config.max_depth == self.rules().max_depth,
            config.workers == workers_for(self.threads, processors as nat),
    {
        let defaults = default_patterns();
        match TraversalConfig::new(
            &self.filters,
            &defaults,
            self.recursive,
            self.threads,
            processors,
        ) {
            Ok(config) => config,
            Err(_) => {
                proof {
                    assert(default_filters().len() == 2);
                }
                TraversalConfig { patterns: PatternSet::of(&defaults), max_depth: 0, workers: 1 }
            },
        }
    }
}

/// A file to write back.
#[derive(Debug)]
pub struct Rewrite {
    pub path: String,
    pub contents: Vec<u8>,
}

impl View for Rewrite {
    type V = (Seq<char>, Seq<u8>);

    open spec fn view(&self) -> (Seq<char>, Seq<u8>) {
        (self.path@, self.contents@)
    }
}

/// The views of a sequence of rewrites.
pub open spec fn writes(rewrites: Seq<Rewrite>) -> Seq<(Seq<char>, Seq<u8>)> {
    rewrites.map_values(|rewrite: Rewrite| rewrite@)
}

/// How each of the files ends, in their order.
pub open spec fn outcomes(options: FormatOptions, picks: Seq<Pick>) -> Seq<Outcome> {
    picks.map_values(|pick: Pick| verdict(options, pick.contents))
}

/// The files to write back, in the order of `picks`: in a run that is no
/// check, each file that the formatter changes, with the formatter's output.
pub open spec fn rewritten(options: FormatOptions, check: bool, picks: Seq<Pick>) -> Seq<
    (Seq<char>, Seq<u8>),
>
    decreases picks.len(),
{
    if picks.len() == 0 {
        Seq::empty()
    } else {
        let before = rewritten(options, check, picks.drop_last());
        let pick = picks.last();
        if !check && verdict(options, pick.contents) == Outcome::Changed {
            before.push((pick.hit.path, formatted(options, pick.contents)->Ok_0))
        } else {
            before
        }
    }
}

/// What a run comes to.
#[derive(Debug)]
pub struct FmtRun {
    /// The counters of the files.
    pub state: FmtState,
    /// The number of directories that could not be listed.
    pub walker_errors: usize,
    /// The messages of the run: one for each directory that could not be
    /// listed, then one for each file.
    pub messages: Vec<Message>,
    /// The files to write back.
    pub rewrites: Vec<Rewrite>,
}

impl FmtRun {
    /// The exit status of the run: `0` when no file failed, no directory
    /// failed to list and no file was modified or needs formatting, else `1`.
    pub fn exit_code(&self) -> (code: i32)
        ensures
            code == exit_status(
                self.state.errors as nat,
                self.walker_errors as nat,
                self.state.files_modified as nat,
            ),
    {
        if self.state.errors > 0 || self.walker_errors > 0 || self.state.files_modified > 0 {
            1
        } else {
            0
        }
    }
}

/// Runs the command over a tree held in memory, on the calling thread.
/// `root` is the path that the command was given: a plain file or a
/// directory, with its name.
///
/// The files are those that the walk picks under the arguments' patterns and
/// depth; a root that is a plain file is picked if a pattern matches its
/// name. Each is formatted and counted once, whatever happens to the others,
/// so the counters are the tally of how the files end. Nothing is written:
/// the files that a run on disk would write back are handed out instead.
pub fn exec_fmt(args: &FmtArgs, config: &Config, root: &Entry) -> (run: FmtRun)
    ensures
        ({
            let options = FormatOptions::of(args.tab_size, *config);
            let all = survey_root(args.rules(), *root);
            let ends = outcomes(options, all.picks);
            &&& run.state == (FmtState {
                check_mode: args.check,
                files_ok: 0,
                files_modified: 0,
                errors: 0,
            }).tally(ends)
            &&& run.walker_errors == all.failed.len()
            &&& writes(run.rewrites@) == rewritten(options, args.check, all.picks)
            &&& run.messages@.len() == all.failed.len() + all.picks.len()
            &&& forall|i: int|
                0 <= i < all.failed.len() ==> (#[trigger] run.messages@[i]) is Error
                    && is_error_line(run.messages@[i].text(), unlisted_words(all.failed[i], None))
            &&& forall|j: int|
                0 <= j < all.picks.len() ==> ((#[trigger] run.messages@[all.failed.len() + j])
                    is Error) == (ends[j] == Outcome::Failed) && is_status_line(
                    run.messages@[all.failed.len() + j].text(),
                    ends[j],
                    args.check,
                    all.picks[j].hit.path,
                    failure_words(options, all.picks[j].contents),
                )
        }),
{
    let options = FormatOptions::from_config(args.tab_size, config);
    let plan = args.traversal(1);
    let found = walk_root(plan.patterns, plan.max_depth, root);
    let ghost all = survey_root(args.rules(), *root);
    let ghost fresh = FmtState { check_mode: args.check, files_ok: 0, files_modified: 0, errors: 0 };
    let mut state = FmtState::new(args.check);
    let mut messages: Vec<Message> = Vec::new();
    let mut rewrites: Vec<Rewrite> = Vec::new();
    let mut i: usize = 0;
    while i < found.failed.len()
        invariant
            i <= found.failed.len(),
            texts(found.failed@) == all.failed,
            messages@.len() == i,
            forall|k: int|
                0 <= k < i ==> (#[trigger] messages@[k]) is Error && is_error_line(
                    messages@[k].text(),
                    unlisted_words(all.failed[k], None),
                ),
        decreases found.failed.len() - i,
    {
        assert(texts(found.failed@)[i as int] == found.failed@[i as int]@);
        messages.push(unlisted_line(found.failed[i].as_str(), None));
        i += 1;
    }
    let ghost gone = all.failed.len();
    let mut j: usize = 0;
    proof {
        assert(texts(found.failed@).len() == found.failed@.len());
        assert(all.picks.take(0) =~= Seq::<Pick>::empty());
        assert(outcomes(options, all.picks.take(0)) =~= Seq::<Outcome>::empty());
        assert(writes(rewrites@) =~= rewritten(options, args.check, all.picks.take(0)));
    }
    while j < found.files.len()
        invariant
            j <= found.files.len(),
            options == FormatOptions::of(args.tab_size, *config),
            finds(found.files@) == all.picks,
            fresh == (FmtState {
                check_mode: args.check,
                files_ok: 0,
                files_modified: 0,
                errors: 0,
            }),
            state == fresh.tally(outcomes(options, all.picks.take(j as int))),
            state.check_mode == args.check,
            writes(rewrites@) == rewritten(options, args.check, all.picks.take(j as int)),
            gone == all.failed.len(),
            messages@.len() == gone + j,
            forall|k: int|
                0 <= k < gone ==> (#[trigger] messages@[k]) is Error && is_error_line(
                    messages@[k].text(),
                    unlisted_words(all.failed[k], None),
                ),
            forall|k: int|
                0 <= k < j ==> ((#[trigger] messages@[gone + k]) is Error) == (outcomes(
                    options,
                    all.picks,
                )[k] == Outcome::Failed) && is_status_line(
                    messages@[gone + k].text(),
                    outcomes(options, all.picks)[k],
                    args.check,
                    all.picks[k].hit.path,
                    failure_words(options, all.picks[k].contents),
                ),
        decreases found.files.len() - j,
    {
        let file = &found.files[j];
        let ghost pick = all.picks[j as int];
        let ghost done = all.picks.take(j as int);
        let ghost shown = messages@;
        proof {
            assert(finds(found.files@)[j as int] == file@);
            assert(all.picks.take(j + 1).drop_last() =~= done);
            assert(all.picks.take(j + 1).last() == pick);
            assert(outcomes(options, all.picks.take(j + 1)) =~= outcomes(options, done).push(
                verdict(options, pick.contents),
            ));
            assert(outcomes(options, all.picks.take(j + 1)).drop_last() =~= outcomes(
                options,
                done,
            ));
        }
        let result = match process_file(&options, args.check, file.contents.as_slice()) {
            Formatted::Done(result) => result,
            Formatted::Rewrite(contents) => {
                let ghost before = writes(rewrites@);
                rewrites.push(Rewrite { path: file.item.path.clone(), contents });
                assert(writes(rewrites@) =~= before.push(rewrites@.last()@));
                Ok(true)
            },
        };
        assert(outcome_of(result) == verdict(options, pick.contents));
        assert(file.item.path@ == pick.hit.path);
        let message = report_outcome(&mut state, file.item.path.as_str(), &result);
        proof {
            let end = verdict(options, pick.contents);
            let words = failure_words(options, pick.contents);
            assert(end == Outcome::Failed ==> crate::report::detail_of(result, true) == words
                && crate::report::detail_of(result, false) == words);
            assert(is_status_line(message.text(), end, args.check, pick.hit.path, words));
        }
        messages.push(message);
        proof {
            assert forall|k: int| 0 <= k < gone implies (#[trigger] messages@[k]) is Error
                && is_error_line(messages@[k].text(), unlisted_words(all.failed[k], None)) by {
                assert(messages@[k] == shown[k]);
            }
            assert forall|k: int| 0 <= k < j + 1 implies ((#[trigger] messages@[gone + k]) is Error)
                == (outcomes(options, all.picks)[k] == Outcome::Failed) && is_status_line(
                messages@[gone + k].text(),
                outcomes(options, all.picks)[k],
                args.check,
                all.picks[k].hit.path,
                failure_words(options, all.picks[k].contents),
            ) by {
                if k < j {
                    assert(messages@[gone + k] == shown[gone + k]);
                }
            }
        }
        j += 1;
    }
    proof {
        assert(all.picks.take(found.files.len() as int) =~= all.picks);
    }
    FmtRun { state, walker_errors: found.walker_errors, messages, rewrites }
}

/// A run over files that the formatter leaves as they are asks for no
/// rewrite, counts every file as ok and, where every directory could be
/// listed, ends with status `0`: running again over formatted files changes
/// nothing.
pub proof fn lemma_formatted_files_are_left_alone(
    options: FormatOptions,
    check: bool,
    picks: Seq<Pick>,
)
    requires
        picks.len() <= usize::MAX,
        forall|k: int|
            0 <= k < picks.len() ==> verdict(options, (#[trigger] picks[k]).contents)
                == Outcome::Unchanged,
    ensures
        rewritten(options, check, picks).len() == 0,
        (FmtState { check_mode: check, files_ok: 0, files_modified: 0, errors: 0 }).tally(
            outcomes(options, picks),
        ) == (FmtState {
            check_mode: check,
            files_ok: picks.len() as usize,
            files_modified: 0,
            errors: 0,
        }),
        exit_status(
            (FmtState { check_mode: check, files_ok: 0, files_modified: 0, errors: 0 }).tally(
                outcomes(options, picks),
            ).errors as nat,
            0,
            (FmtState { check_mode: check, files_ok: 0, files_modified: 0, errors: 0 }).tally(
                outcomes(options, picks),
            ).files_modified as nat,
        ) == 0,
    decreases picks.len(),
{
    let ends = outcomes(options, picks);
    lemma_tally_counts(check, ends);
    assert(ends.to_multiset().count(Outcome::Changed) == 0) by {
        ends.to_multiset_ensures();
        if ends.contains(Outcome::Changed) {
            let k = choose|k: int| 0 <= k < ends.len() && ends[k] == Outcome::Changed;
            assert(ends[k] == verdict(options, picks[k].contents));
        }
    }
    assert(ends.to_multiset().count(Outcome::Failed) == 0) by {
        ends.to_multiset_ensures();
        if ends.contains(Outcome::Failed) {
            let k = choose|k: int| 0 <= k < ends.len() && ends[k] == Outcome::Failed;
            assert(ends[k] == verdict(options, picks[k].contents));
        }
    }
    if picks.len() > 0 {
        lemma_formatted_files_are_left_alone(options, check, picks.drop_last());
    }
}

} // verus!
