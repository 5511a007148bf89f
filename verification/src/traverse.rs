//! The walk over a file tree: which directories are listed, and which of the
//! files in them are handed out.
//!
//! The walker reads nothing itself. It names the directory to list next, is
//! given the listing, or is told that there is none, and answers with the
//! files to visit. Directories wait on a stack, each with its depth: the
//! root has depth `0`, and a directory is entered only while its depth is at
//! most the limit, so that a limit of `0` visits the files directly under
//! the root and nothing below.

use vstd::prelude::*;
use vstd::string::StringExecFns;

use crate::glob::{any_matches, PatternSet};

verus! {

/// What a directory entry is. Anything that is neither a plain file nor a
/// directory is left alone.
#[derive(Clone, Copy, Debug, PartialEq, Eq, Structural)]
pub enum EntryKind {
    File,
    Dir,
    Other,
}

/// One entry of a directory listing.
#[derive(Debug)]
pub struct DirEntry {
    pub name: String,
    pub kind: EntryKind,
}

/// A directory in the tree: its path below the root, components joined by
/// `/`, and the number of directories between the root and it.
pub struct Place {
    pub path: Seq<char>,
    pub depth: nat,
}

/// A file picked by the walk: its path below the root, the depth of the
/// directory it lies in, and its position in that directory's listing.
pub struct Hit {
    pub path: Seq<char>,
    pub depth: nat,
    pub index: nat,
}

/// A file to process.
#[derive(Debug)]
pub struct WorkItem {
    /// Path below the root, components joined by `/`.
    pub path: String,
    /// Depth of the directory the file lies in; `0` for the root.
    pub depth: usize,
    /// Position of the file in the listing of its directory.
    pub index: usize,
}

impl View for WorkItem {
    type V = Hit;

    open spec fn view(&self) -> Hit {
        Hit { path: self.path@, depth: self.depth as nat, index: self.index as nat }
    }
}

/// The views of a sequence of items.
pub open spec fn hits(items: Seq<WorkItem>) -> Seq<Hit> {
    items.map_values(|item: WorkItem| item@)
}

/// The path of `name` inside the directory `dir`; the root's path is empty.
pub open spec fn join(dir: Seq<char>, name: Seq<char>) -> Seq<char> {
    if dir.len() == 0 {
        name
    } else {
        dir + seq!['/'] + name
    }
}

/// The files of a listing that the patterns select, in the order of the
/// listing.
pub open spec fn selected(patterns: Seq<Seq<char>>, dir: Place, entries: Seq<DirEntry>) -> Seq<Hit>
    decreases entries.len(),
{
    if entries.len() == 0 {
        Seq::empty()
    } else {
        let before = selected(patterns, dir, entries.drop_last());
        let entry = entries.last();
        let path = join(dir.path, entry.name@);
        if entry.kind == EntryKind::File && any_matches(patterns, path) {
            before.push(Hit { path, depth: dir.depth, index: (entries.len() - 1) as nat })
        } else {
            before
        }
    }
}

/// The directories of a listing, one level below `dir`, in the order of the
/// listing.
pub open spec fn subdirs(dir: Place, entries: Seq<DirEntry>) -> Seq<Place>
    decreases entries.len(),
{
    if entries.len() == 0 {
        Seq::empty()
    } else {
        let before = subdirs(dir, entries.drop_last());
        let entry = entries.last();
        if entry.kind == EntryKind::Dir {
            before.push(Place { path: join(dir.path, entry.name@), depth: dir.depth + 1 })
        } else {
            before
        }
    }
}

/// The directories that wait once `dir` has been listed: its
/// subdirectories on top of the others, unless `dir` lies at the limit.
pub open spec fn descended(
    pending: Seq<Place>,
    dir: Place,
    entries: Seq<DirEntry>,
    max_depth: nat,
) -> Seq<Place> {
    if dir.depth < max_depth {
        pending + subdirs(dir, entries)
    } else {
        pending
    }
}

/// What a counter of the machine's word shows after `count` steps from
/// zero: counters wrap around.
pub open spec fn wrapped(count: nat) -> nat {
    count % (usize::MAX as nat + 1)
}

/// Every selected file lies in `dir`, under a name of the listing that is a
/// plain file, and one of the patterns matches its path.
pub proof fn lemma_selected(patterns: Seq<Seq<char>>, dir: Place, entries: Seq<DirEntry>)
    ensures
        forall|k: int|
            0 <= k < selected(patterns, dir, entries).len() ==> {
                let hit = #[trigger] selected(patterns, dir, entries)[k];
                &&& hit.depth == dir.depth
                &&& hit.index < entries.len()
                &&& entries[hit.index as int].kind == EntryKind::File
                &&& hit.path == join(dir.path, entries[hit.index as int].name@)
                &&& any_matches(patterns, hit.path)
            },
        selected(patterns, dir, entries).len() <= entries.len(),
    decreases entries.len(),
{
    if entries.len() > 0 {
        lemma_selected(patterns, dir, entries.drop_last());
    }
}

/// Every plain file of a listing that a pattern matches is selected.
pub proof fn lemma_selected_complete(
    patterns: Seq<Seq<char>>,
    dir: Place,
    entries: Seq<DirEntry>,
    index: int,
)
    requires
        0 <= index < entries.len(),
        entries[index].kind == EntryKind::File,
        any_matches(patterns, join(dir.path, entries[index].name@)),
    ensures
        selected(patterns, dir, entries).contains(
            Hit {
                path: join(dir.path, entries[index].name@),
                depth: dir.depth,
                index: index as nat,
            },
        ),
    decreases entries.len(),
{
    let all = selected(patterns, dir, entries);
    if index == entries.len() - 1 {
        assert(all.last() == Hit {
            path: join(dir.path, entries[index].name@),
            depth: dir.depth,
            index: index as nat,
        });
    } else {
        lemma_selected_complete(patterns, dir, entries.drop_last(), index);
        let before = selected(patterns, dir, entries.drop_last());
        let hit = Hit {
            path: join(dir.path, entries[index].name@),
            depth: dir.depth,
            index: index as nat,
        };
        let k = choose|k: int| 0 <= k < before.len() && before[k] == hit;
        assert(all[k] == hit);
    }
}

/// Every subdirectory lies one level below `dir`.
pub proof fn lemma_subdirs(dir: Place, entries: Seq<DirEntry>)
    ensures
        forall|k: int|
            0 <= k < subdirs(dir, entries).len() ==> (#[trigger] subdirs(dir, entries)[k]).depth
                == dir.depth + 1,
        subdirs(dir, entries).len() <= entries.len(),
    decreases entries.len(),
{
    if entries.len() > 0 {
        lemma_subdirs(dir, entries.drop_last());
    }
}

/// The path of `name` inside `dir`.
pub fn join_path(dir: &str, name: &str) -> (path: String)
    ensures
        path@ == join(dir@, name@),
{
    if dir.is_empty() {
        String::from_str(name)
    } else {
        proof {
            reveal_strlit("/");
        }
        let mut path = String::from_str(dir);
        path.append("/");
        path.append(name);
        assert(path@ =~= dir@ + seq!['/'] + name@);
        path
    }
}

/// The walk over a root that is a plain file: the file itself, by its name,
/// if one of the patterns matches the name, and nothing otherwise.
pub fn root_file(patterns: &PatternSet, name: &str) -> (item: Option<WorkItem>)
    ensures
        match item {
            Some(item) => any_matches(patterns@, name@) && item@ == (Hit {
                path: name@,
                depth: 0,
                index: 0,
            }),
            None => !any_matches(patterns@, name@),
        },
{
    if patterns.matches(name) {
        Some(WorkItem { path: String::from_str(name), depth: 0, index: 0 })
    } else {
        None
    }
}

struct Waiting {
    path: String,
    depth: usize,
}

impl Waiting {
    spec fn place(self) -> Place {
        Place { path: self.path@, depth: self.depth as nat }
    }
}

spec fn places(stack: Seq<Waiting>) -> Seq<Place> {
    stack.map_values(|dir: Waiting| dir.place())
}

/// The state of a walk: the directories that wait, the one that is being
/// listed, and the number of directories that could not be listed.
pub struct Traverser {
    patterns: PatternSet,
    max_depth: usize,
    stack: Vec<Waiting>,
    current: Option<Waiting>,
    errors: usize,
}

impl Traverser {
    #[verifier::type_invariant]
    spec fn within_limit(self) -> bool {
        &&& forall|k: int| 0 <= k < self.stack@.len() ==> (#[trigger] self.stack@[k]).depth
            <= self.max_depth
        &&& self.current matches Some(dir) ==> dir.depth <= self.max_depth
    }

    /// The inclusion patterns.
    pub closed spec fn patterns(self) -> Seq<Seq<char>> {
        self.patterns@
    }

    /// The deepest level that is entered.
    pub closed spec fn max_depth(self) -> nat {
        self.max_depth as nat
    }

    /// The directories that wait, the next one last.
    pub closed spec fn pending(self) -> Seq<Place> {
        places(self.stack@)
    }

    /// The directory whose listing is awaited.
    pub closed spec fn current(self) -> Option<Place> {
        match self.current {
            Some(dir) => Some(dir.place()),
            None => None,
        }
    }

    /// The number of directories that could not be listed.
    pub closed spec fn errors(self) -> nat {
        self.errors as nat
    }

    /// The count of failures fits the machine's word.
    pub proof fn lemma_errors_fit(self)
        ensures
            self.errors() <= usize::MAX,
    {
    }

    /// A walk that has only its root to list.
    pub fn new(patterns: PatternSet, max_depth: usize) -> (walk: Traverser)
        ensures
            walk.patterns() == patterns@,
            walk.max_depth() == max_depth,
            walk.pending() == seq![Place { path: Seq::empty(), depth: 0 }],
            walk.current() is None,
            walk.errors() == 0,
    {
        let mut stack: Vec<Waiting> = Vec::new();
        stack.push(Waiting { path: String::new(), depth: 0 });
        let walk = Traverser { patterns, max_depth, stack, current: None, errors: 0 };
        assert(walk.pending() =~= seq![Place { path: Seq::empty(), depth: 0 }]);
        walk
    }

    /// The directory to list next, by its path below the root, or `None`
    /// when the walk is over. A directory stays the current one until
    /// [`Self::expand`] or [`Self::fail`] answers for it; asked again before
    /// that, the walk names it again.
    pub fn next_dir(&mut self) -> (dir: Option<String>)
        ensures
            final(self).patterns() == old(self).patterns(),
            final(self).max_depth() == old(self).max_depth(),
            final(self).errors() == old(self).errors(),
            final(self).current() matches Some(place) ==> place.depth <= final(self).max_depth(),
            match old(self).current() {
                Some(place) => {
                    &&& final(self).current() == Some(place)
                    &&& final(self).pending() == old(self).pending()
                    &&& dir matches Some(path) && path@ == place.path
                },
                None => if old(self).pending().len() > 0 {
                    &&& final(self).current() == Some(old(self).pending().last())
                    &&& final(self).pending() == old(self).pending().drop_last()
                    &&& dir matches Some(path) && path@ == old(self).pending().last().path
                } else {
                    &&& final(self).current() is None
                    &&& final(self).pending() == old(self).pending()
                    &&& dir is None
                },
            },
    {
        proof {
            use_type_invariant(&*self);
        }
        if self.current.is_none() {
            let mut stack: Vec<Waiting> = Vec::new();
            std::mem::swap(&mut self.stack, &mut stack);
            let top = stack.pop();
            assert(places(stack@) =~= if old(self).pending().len() > 0 {
                old(self).pending().drop_last()
            } else {
                old(self).pending()
            });
            std::mem::swap(&mut self.stack, &mut stack);
            self.current = top;
        }
        match &self.current {
            Some(dir) => Some(dir.path.clone()),
            None => None,
        }
    }

    /// Takes the listing of the current directory and hands out the files
    /// in it that the patterns select. Its subdirectories are put on the
    /// stack unless the directory lies at the limit. Without a current
    /// directory nothing happens.
    pub fn expand(&mut self, entries: &Vec<DirEntry>) -> (items: Vec<WorkItem>)
        ensures
            final(self).patterns() == old(self).patterns(),
            final(self).max_depth() == old(self).max_depth(),
            final(self).errors() == old(self).errors(),
            final(self).current() is None,
            match old(self).current() {
                Some(dir) => {
                    &&& hits(items@) == selected(old(self).patterns(), dir, entries@)
                    &&& final(self).pending() == descended(
                        old(self).pending(),
                        dir,
                        entries@,
                        old(self).max_depth(),
                    )
                },
                None => items@.len() == 0 && final(self).pending() == old(self).pending(),
            },
            forall|k: int|
                0 <= k < items@.len() ==> (#[trigger] items@[k]).depth <= final(self).max_depth()
                    && any_matches(final(self).patterns(), items@[k].path@),
    {
        proof {
            use_type_invariant(&*self);
        }
        let mut items: Vec<WorkItem> = Vec::new();
        let mut current: Option<Waiting> = None;
        std::mem::swap(&mut self.current, &mut current);
        let dir = match current {
            Some(dir) => dir,
            None => {
                return items;
            },
        };
        let mut stack: Vec<Waiting> = Vec::new();
        std::mem::swap(&mut self.stack, &mut stack);
        let descend = dir.depth < self.max_depth;
        let ghost place = dir.place();
        let ghost base = places(stack@);
        let mut i: usize = 0;
        proof {
            assert(hits(items@) =~= selected(self.patterns(), place, entries@.take(0)));
            assert(places(stack@) =~= base + subdirs(place, entries@.take(0)));
        }
        while i < entries.len()
            invariant
                i <= entries.len(),
                self.current is None,
                self.stack@.len() == 0,
                self.patterns() == old(self).patterns(),
                self.max_depth == old(self).max_depth,
                self.errors == old(self).errors,
                place == dir.place(),
                descend == (dir.depth < self.max_depth),
                hits(items@) == selected(self.patterns(), place, entries@.take(i as int)),
                places(stack@) == if descend {
                    base + subdirs(place, entries@.take(i as int))
                } else {
                    base
                },
                forall|k: int|
                    0 <= k < stack@.len() ==> (#[trigger] stack@[k]).depth <= self.max_depth,
            decreases entries.len() - i,
        {
            let entry = &entries[i];
            proof {
                assert(entries@.take(i + 1).drop_last() =~= entries@.take(i as int));
                assert(entries@.take(i + 1).last() == entries@[i as int]);
            }
            match entry.kind {
                EntryKind::File => {
                    let path = join_path(dir.path.as_str(), entry.name.as_str());
                    if self.patterns.matches(path.as_str()) {
                        let ghost before = items@;
                        items.push(WorkItem { path, depth: dir.depth, index: i });
                        assert(hits(items@) =~= hits(before).push(items@.last()@));
                    }
                },
                EntryKind::Dir => {
                    if descend {
                        let ghost before = places(stack@);
                        let path = join_path(dir.path.as_str(), entry.name.as_str());
                        stack.push(Waiting { path, depth: dir.depth + 1 });
                        assert(places(stack@) =~= before.push(stack@.last().place()));
                    }
                },
                EntryKind::Other => {},
            }
            i += 1;
        }
        std::mem::swap(&mut self.stack, &mut stack);
        proof {
            assert(entries@.take(entries.len() as int) =~= entries@);
            lemma_selected(self.patterns(), place, entries@);
            assert forall|k: int| 0 <= k < items@.len() implies (#[trigger] items@[k]).depth
                <= self.max_depth() && any_matches(self.patterns(), items@[k].path@) by {
                assert(hits(items@)[k] == items@[k]@);
            }
        }
        items
    }

    /// Notes that the current directory could not be listed: it is counted
    /// and given up, and the walk goes on with the others. Without a current
    /// directory nothing happens.
    pub fn fail(&mut self)
        ensures
            final(self).patterns() == old(self).patterns(),
            final(self).max_depth() == old(self).max_depth(),
            final(self).pending() == old(self).pending(),
            final(self).current() is None,
            final(self).errors() == if old(self).current() is Some {
                wrapped(old(self).errors() + 1)
            } else {
                old(self).errors()
            },
    {
        proof {
            use_type_invariant(&*self);
        }
        if self.current.is_some() {
            proof {
                if self.errors < usize::MAX {
                    vstd::arithmetic::div_mod::lemma_small_mod(
                        (self.errors + 1) as nat,
                        (usize::MAX + 1) as nat,
                    );
                } else {
                    vstd::arithmetic::div_mod::lemma_mod_self_0(usize::MAX + 1);
                }
            }
            self.current = None;
            self.errors = self.errors.wrapping_add(1);
        }
    }

    /// Whether every directory has been answered for.
    pub fn is_done(&self) -> (done: bool)
        ensures
            done == (self.current() is None && self.pending().len() == 0),
    {
        self.current.is_none() && self.stack.len() == 0
    }

    /// The number of directories that could not be listed.
    pub fn walker_errors(&self) -> (count: usize)
        ensures
            count == self.errors(),
    {
        self.errors
    }

    /// The deepest level that is entered.
    pub fn depth_limit(&self) -> (limit: usize)
        ensures
            limit == self.max_depth(),
    {
        self.max_depth
    }
}

} // verus!
