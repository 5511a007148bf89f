//! A file tree held in memory, and the walk over it.
//!
//! The tree stands for what a walk finds on disk: directories with their
//! entries, files with their bytes, and directories that refuse to be
//! listed. [`walk_tree`] runs the walker of [`crate::traverse`] over such a
//! tree, and [`survey`] says what it finds.

use vstd::prelude::*;

use crate::glob::{any_matches, PatternSet};
use crate::text::texts;
use crate::traverse::{
    hits, join, lemma_selected, lemma_selected_complete, root_file, selected, subdirs, wrapped,
    DirEntry, EntryKind, Hit, Place, Traverser, WorkItem,
};

verus! {

/// A node of the tree.
#[derive(Debug)]
pub enum Node {
    /// A plain file and its bytes.
    File(Vec<u8>),
    /// A directory and its entries, in the order it lists them.
    Dir(Vec<Entry>),
    /// A directory that cannot be listed.
    Unreadable,
    /// Anything else.
    Other,
}

/// A named node of a directory.
#[derive(Debug)]
pub struct Entry {
    pub name: String,
    pub node: Node,
}

/// What a listing says of a node.
pub open spec fn kind_of(node: Node) -> EntryKind {
    match node {
        Node::File(_) => EntryKind::File,
        Node::Dir(_) => EntryKind::Dir,
        Node::Unreadable => EntryKind::Dir,
        Node::Other => EntryKind::Other,
    }
}

/// The bytes of a file; nothing for any other node.
pub open spec fn contents_of(node: Node) -> Seq<u8> {
    match node {
        Node::File(bytes) => bytes@,
        _ => Seq::empty(),
    }
}

/// The listing of a directory with these entries.
pub open spec fn listed(children: Seq<Entry>) -> Seq<DirEntry> {
    children.map_values(|child: Entry| DirEntry { name: child.name, kind: kind_of(child.node) })
}

/// A file picked by the walk, with its bytes.
pub struct Pick {
    pub hit: Hit,
    pub contents: Seq<u8>,
}

/// A file picked by the walk over a tree, with a copy of its bytes.
#[derive(Debug)]
pub struct Found {
    pub item: WorkItem,
    pub contents: Vec<u8>,
}

impl View for Found {
    type V = Pick;

    open spec fn view(&self) -> Pick {
        Pick { hit: self.item@, contents: self.contents@ }
    }
}

/// The views of a sequence of files.
pub open spec fn finds(files: Seq<Found>) -> Seq<Pick> {
    files.map_values(|file: Found| file@)
}

/// The patterns and the depth limit of a walk.
pub struct Rules {
    pub patterns: Seq<Seq<char>>,
    pub max_depth: nat,
}

/// What a walk comes to: the files it picks and the directories that it
/// could not list, by their paths, both in its order.
pub struct Survey {
    pub picks: Seq<Pick>,
    pub failed: Seq<Seq<char>>,
}

impl Survey {
    /// A walk that finds nothing.
    pub open spec fn nothing() -> Survey {
        Survey { picks: Seq::empty(), failed: Seq::empty() }
    }

    /// This walk followed by another.
    pub open spec fn followed_by(self, next: Survey) -> Survey {
        Survey { picks: self.picks + next.picks, failed: self.failed + next.failed }
    }
}

/// The files of the directory at `place` that the patterns select, each
/// with its bytes, in the order of the listing.
pub open spec fn picked(rules: Rules, place: Place, children: Seq<Entry>) -> Seq<Pick> {
    selected(rules.patterns, place, listed(children)).map_values(
        |hit: Hit| Pick { hit, contents: contents_of(children[hit.index as int].node) },
    )
}

/// The place of the `k`-th entry of the directory at `place`.
pub open spec fn child_place(place: Place, children: Seq<Entry>, k: int) -> Place {
    Place { path: join(place.path, children[k].name@), depth: place.depth + 1 }
}

/// What the walk finds from `node` on, which lies at `place`.
///
/// A directory gives its own selected files and then, unless it lies at the
/// depth limit, what its subdirectories give, the last one first. A node that
/// cannot be listed gives its own path as failed.
pub open spec fn survey(rules: Rules, node: Node, place: Place) -> Survey
    decreases node, 0nat,
{
    match node {
        Node::Dir(children) => {
            let own = Survey { picks: picked(rules, place, children@), failed: Seq::empty() };
            if place.depth < rules.max_depth {
                own.followed_by(below(rules, children@, place, 0))
            } else {
                own
            }
        },
        _ => Survey { picks: Seq::empty(), failed: seq![place.path] },
    }
}

/// What the walk finds in the subdirectories among the entries from the
/// `k`-th on, the last one first.
pub open spec fn below(rules: Rules, children: Seq<Entry>, place: Place, k: nat) -> Survey
    decreases children, children.len() - k,
{
    if k >= children.len() {
        Survey::nothing()
    } else {
        let later = below(rules, children, place, k + 1);
        if kind_of(children[k as int].node) == EntryKind::Dir {
            later.followed_by(survey(rules, children[k as int].node, child_place(place, children, k as int)))
        } else {
            later
        }
    }
}

/// The listing of a directory: each entry's name and kind.
pub fn listing(children: &Vec<Entry>) -> (entries: Vec<DirEntry>)
    ensures
        entries@ == listed(children@),
{
    let mut entries: Vec<DirEntry> = Vec::new();
    let mut i: usize = 0;
    while i < children.len()
        invariant
            i <= children.len(),
            entries@ == listed(children@.take(i as int)),
        decreases children.len() - i,
    {
        let child = &children[i];
        let kind = match child.node {
            Node::File(_) => EntryKind::File,
            Node::Dir(_) => EntryKind::Dir,
            Node::Unreadable => EntryKind::Dir,
            Node::Other => EntryKind::Other,
        };
        entries.push(DirEntry { name: child.name.clone(), kind });
        assert(entries@ =~= listed(children@.take(i + 1)));
        i += 1;
    }
    assert(children@.take(children.len() as int) =~= children@);
    entries
}

proof fn lemma_wrapped_twice(start: nat, first: nat, second: nat)
    ensures
        wrapped(wrapped(start + first) + second) == wrapped(start + first + second),
{
    vstd::arithmetic::div_mod::lemma_add_mod_noop_right(
        second as int,
        (start + first) as int,
        usize::MAX + 1,
    );
}

proof fn lemma_wrapped_small(count: nat)
    requires
        count <= usize::MAX,
    ensures
        wrapped(count) == count,
{
    vstd::arithmetic::div_mod::lemma_small_mod(count, (usize::MAX + 1) as nat);
}

/// Adds to `out` the files that the walk handed out for the directory with
/// these entries, each with a copy of its bytes.
fn attach(
    items: Vec<WorkItem>,
    children: &Vec<Entry>,
    out: &mut Vec<Found>,
    Ghost(rules): Ghost<Rules>,
    Ghost(place): Ghost<Place>,
)
    requires
        hits(items@) == selected(rules.patterns, place, listed(children@)),
    ensures
        finds(final(out)@) == finds(old(out)@) + picked(rules, place, children@),
{
    let ghost start = finds(out@);
    let ghost all = picked(rules, place, children@);
    let mut i: usize = 0;
    proof {
        lemma_selected(rules.patterns, place, listed(children@));
        assert(finds(out@) =~= start + all.take(0));
    }
    while i < items.len()
        invariant
            i <= items.len(),
            all == picked(rules, place, children@),
            all.len() == items.len(),
            hits(items@) == selected(rules.patterns, place, listed(children@)),
            finds(out@) == start + all.take(i as int),
            forall|k: int|
                0 <= k < selected(rules.patterns, place, listed(children@)).len() ==> {
                    let hit = #[trigger] selected(rules.patterns, place, listed(children@))[k];
                    &&& hit.index < listed(children@).len()
                    &&& listed(children@)[hit.index as int].kind == EntryKind::File
                },
        decreases items.len() - i,
    {
        let item = &items[i];
        proof {
            assert(hits(items@)[i as int] == item@);
            assert(selected(rules.patterns, place, listed(children@))[i as int] == item@);
        }
        let contents = match &children[item.index].node {
            Node::File(bytes) => bytes.clone(),
            _ => Vec::new(),
        };
        assert(contents@ =~= contents_of(children@[item.index as int].node));
        let ghost before = finds(out@);
        out.push(
            Found {
                item: WorkItem { path: item.path.clone(), depth: item.depth, index: item.index },
                contents,
            },
        );
        proof {
            assert(finds(out@) =~= before.push(out@.last()@));
            assert(all.take(i + 1) =~= all.take(i as int).push(all[i as int]));
            assert(out@.last()@ == all[i as int]);
        }
        i += 1;
    }
    assert(all.take(items.len() as int) =~= all);
}

/// Walks the part of the tree under `node`, which the walker has just named
/// as the directory to list, by `path`. The files it picks are added to
/// `out`, the directories it cannot list to `failed`.
fn visit(
    walk: &mut Traverser,
    node: &Node,
    path: String,
    depth: usize,
    out: &mut Vec<Found>,
    failed: &mut Vec<String>,
)
    requires
        old(walk).current() matches Some(place) && place.depth == depth && place.path == path@,
        depth <= old(walk).max_depth(),
    ensures
        final(walk).patterns() == old(walk).patterns(),
        final(walk).max_depth() == old(walk).max_depth(),
        final(walk).pending() == old(walk).pending(),
        final(walk).current() is None,
        ({
            let rules = Rules { patterns: old(walk).patterns(), max_depth: old(walk).max_depth() };
            let found = survey(rules, *node, old(walk).current()->0);
            &&& final(walk).errors() == wrapped(old(walk).errors() + found.failed.len())
            &&& finds(final(out)@) == finds(old(out)@) + found.picks
            &&& texts(final(failed)@) == texts(old(failed)@) + found.failed
        }),
    decreases node,
{
    let ghost rules = Rules { patterns: walk.patterns(), max_depth: walk.max_depth() };
    let ghost place = walk.current()->0;
    let ghost base = walk.pending();
    let ghost start = finds(out@);
    let ghost errors = walk.errors();
    let ghost gone = texts(failed@);
    let children = match node {
        Node::Dir(children) => children,
        _ => {
            walk.fail();
            failed.push(path);
            assert(finds(out@) =~= start + Seq::<Pick>::empty());
            assert(texts(failed@) =~= gone + seq![place.path]);
            return ;
        },
    };
    let entries = listing(children);
    let limit = walk.depth_limit();
    let items = walk.expand(&entries);
    attach(items, children, out, Ghost(rules), Ghost(place));
    let ghost own = picked(rules, place, children@);
    proof {
        walk.lemma_errors_fit();
        lemma_wrapped_small(errors);
        assert(start + own =~= start + own + Survey::nothing().picks);
        assert(gone =~= gone + Seq::<Seq<char>>::empty());
    }
    if depth < limit {
        let mut k: usize = children.len();
        proof {
            assert(entries@.take(k as int) =~= entries@);
        }
        while k > 0
            invariant
                k <= children.len(),
                *node == Node::Dir(*children),
                entries@ == listed(children@),
                depth < limit,
                limit == walk.max_depth(),
                place.depth == depth,
                rules == (Rules { patterns: walk.patterns(), max_depth: walk.max_depth() }),
                own == picked(rules, place, children@),
                walk.current() is None,
                walk.pending() == base + subdirs(place, entries@.take(k as int)),
                walk.errors() == wrapped(
                    errors + below(rules, children@, place, k as nat).failed.len(),
                ),
                finds(out@) == start + own + below(rules, children@, place, k as nat).picks,
                texts(failed@) == gone + below(rules, children@, place, k as nat).failed,
            decreases k,
        {
            k -= 1;
            let child = &children[k];
            let ghost later = below(rules, children@, place, (k + 1) as nat);
            proof {
                assert(entries@.take(k + 1).drop_last() =~= entries@.take(k as int));
                assert(entries@.take(k + 1).last() == entries@[k as int]);
                assert(entries@[k as int].kind == kind_of(child.node));
                assert(entries@[k as int].name == child.name);
            }
            match &child.node {
                Node::Dir(_) | Node::Unreadable => {
                    let ghost before = finds(out@);
                    let ghost there = child_place(place, children@, k as int);
                    let ghost waiting = base + subdirs(place, entries@.take(k as int));
                    assert(walk.pending() =~= waiting.push(there));
                    let inner_path = match walk.next_dir() {
                        Some(inner_path) => inner_path,
                        None => String::new(),
                    };
                    assert(walk.pending() =~= waiting);
                    proof {
                        assert(decreases_to!(*node => node->Dir_0));
                        assert(decreases_to!(*children => children[k as int]));
                    }
                    visit(walk, &child.node, inner_path, depth + 1, out, failed);
                    proof {
                        let inner = survey(rules, child.node, there);
                        lemma_wrapped_twice(errors, later.failed.len(), inner.failed.len());
                        assert(finds(out@) =~= start + own + (later.picks + inner.picks));
                        assert(texts(failed@) =~= gone + (later.failed + inner.failed));
                    }
                },
                _ => {},
            }
        }
    }
}

/// What a walk over a tree in memory found.
#[derive(Debug)]
pub struct TreeWalk {
    /// The files to process, in the order of the walk.
    pub files: Vec<Found>,
    /// The directories that could not be listed, by their paths.
    pub failed: Vec<String>,
    /// The number of directories that could not be listed, as the walker
    /// counted them.
    pub walker_errors: usize,
}

/// Walks the tree under `root`, the root directory, and picks the files to
/// process: every plain file that one of `patterns` matches and that lies at
/// most `max_depth` directories below the root, and no other.
pub fn walk_tree(patterns: PatternSet, max_depth: usize, root: &Node) -> (found: TreeWalk)
    ensures
        ({
            let rules = Rules { patterns: patterns@, max_depth: max_depth as nat };
            let all = survey(rules, *root, Place { path: Seq::empty(), depth: 0 });
            &&& finds(found.files@) == all.picks
            &&& texts(found.failed@) == all.failed
            &&& found.walker_errors == all.failed.len()
        }),
{
    let mut walk = Traverser::new(patterns, max_depth);
    let mut files: Vec<Found> = Vec::new();
    let mut failed: Vec<String> = Vec::new();
    let path = match walk.next_dir() {
        Some(path) => path,
        None => String::new(),
    };
    assert(finds(files@) =~= Seq::<Pick>::empty());
    assert(texts(failed@) =~= Seq::<Seq<char>>::empty());
    visit(&mut walk, root, path, 0, &mut files, &mut failed);
    proof {
        let rules = Rules { patterns: patterns@, max_depth: max_depth as nat };
        let all = survey(rules, *root, Place { path: Seq::empty(), depth: 0 });
        assert(Seq::<Pick>::empty() + all.picks =~= all.picks);
        assert(Seq::<Seq<char>>::empty() + all.failed =~= all.failed);
        assert(texts(failed@) == all.failed);
        assert(all.failed.len() == failed.len());
        lemma_wrapped_small(all.failed.len());
    }
    TreeWalk { files, failed, walker_errors: walk.walker_errors() }
}

/// The place of the root.
pub open spec fn root_place() -> Place {
    Place { path: Seq::empty(), depth: 0 }
}

/// What the walk finds from a root of this name on.
///
/// A root that is a plain file gives that file, under its name, if one of
/// the patterns matches the name, and nothing otherwise. A root that is a
/// directory gives what [`survey`] finds in it, by paths below the root. Any
/// other root cannot be listed and gives its name as failed.
pub open spec fn survey_root(rules: Rules, root: Entry) -> Survey {
    match root.node {
        Node::File(bytes) => if any_matches(rules.patterns, root.name@) {
            Survey {
                picks: seq![
                    Pick { hit: Hit { path: root.name@, depth: 0, index: 0 }, contents: bytes@ },
                ],
                failed: Seq::empty(),
            }
        } else {
            Survey::nothing()
        },
        Node::Dir(_) => survey(rules, root.node, root_place()),
        _ => Survey { picks: Seq::empty(), failed: seq![root.name@] },
    }
}

/// Walks from `root` on, which is the path that the walk was given: a plain
/// file, which is picked if one of `patterns` matches its name, or a
/// directory, which is walked as [`walk_tree`] does.
pub fn walk_root(patterns: PatternSet, max_depth: usize, root: &Entry) -> (found: TreeWalk)
    ensures
        ({
            let rules = Rules { patterns: patterns@, max_depth: max_depth as nat };
            let all = survey_root(rules, *root);
            &&& finds(found.files@) == all.picks
            &&& texts(found.failed@) == all.failed
            &&& found.walker_errors == all.failed.len()
        }),
{
    let mut files: Vec<Found> = Vec::new();
    let mut failed: Vec<String> = Vec::new();
    match &root.node {
        Node::File(bytes) => {
            if let Some(item) = root_file(&patterns, root.name.as_str()) {
                files.push(Found { item, contents: bytes.clone() });
                assert(files@[0].contents@ =~= bytes@);
            }
            proof {
                let rules = Rules { patterns: patterns@, max_depth: max_depth as nat };
                assert(finds(files@) =~= survey_root(rules, *root).picks);
                assert(texts(failed@) =~= Seq::<Seq<char>>::empty());
            }
            TreeWalk { files, failed, walker_errors: 0 }
        },
        Node::Dir(_) => walk_tree(patterns, max_depth, &root.node),
        _ => {
            failed.push(root.name.clone());
            proof {
                assert(finds(files@) =~= Seq::<Pick>::empty());
                assert(texts(failed@) =~= seq![root.name@]);
            }
            TreeWalk { files, failed, walker_errors: 1 }
        },
    }
}

/// Every file among `picks` lies at a depth from `low` to the limit, and one
/// of the patterns matches its path.
pub open spec fn all_within(rules: Rules, low: nat, picks: Seq<Pick>) -> bool {
    forall|k: int|
        0 <= k < picks.len() ==> {
            let pick = #[trigger] picks[k];
            &&& low <= pick.hit.depth <= rules.max_depth
            &&& any_matches(rules.patterns, pick.hit.path)
        }
}

proof fn lemma_all_within_concat(rules: Rules, low: nat, first: Seq<Pick>, second: Seq<Pick>)
    requires
        all_within(rules, low, first),
        all_within(rules, low, second),
    ensures
        all_within(rules, low, first + second),
{
    assert forall|k: int| 0 <= k < (first + second).len() implies {
        let pick = #[trigger] (first + second)[k];
        &&& low <= pick.hit.depth <= rules.max_depth
        &&& any_matches(rules.patterns, pick.hit.path)
    } by {
        if k < first.len() {
            assert((first + second)[k] == first[k]);
        } else {
            assert((first + second)[k] == second[k - first.len()]);
        }
    }
}

proof fn lemma_contains_concat(first: Seq<Pick>, second: Seq<Pick>, pick: Pick)
    requires
        first.contains(pick) || second.contains(pick),
    ensures
        (first + second).contains(pick),
{
    if first.contains(pick) {
        let k = choose|k: int| 0 <= k < first.len() && first[k] == pick;
        assert((first + second)[k] == pick);
    } else {
        let k = choose|k: int| 0 <= k < second.len() && second[k] == pick;
        assert((first + second)[first.len() + k] == pick);
    }
}

/// No file is picked below the depth limit, and none that no pattern
/// matches: whatever the tree, every file that a walk from `place` picks lies
/// at a depth between that of `place` and the limit, and one of the patterns
/// matches its path.
pub proof fn lemma_survey_stays_within(rules: Rules, node: Node, place: Place)
    requires
        place.depth <= rules.max_depth,
    ensures
        all_within(rules, place.depth, survey(rules, node, place).picks),
    decreases node, 0nat,
{
    match node {
        Node::Dir(children) => {
            let own = picked(rules, place, children@);
            lemma_selected(rules.patterns, place, listed(children@));
            assert(all_within(rules, place.depth, own));
            if place.depth < rules.max_depth {
                lemma_below_stays_within(rules, children@, place, 0);
                lemma_all_within_concat(
                    rules,
                    place.depth,
                    own,
                    below(rules, children@, place, 0).picks,
                );
            }
        },
        _ => {},
    }
}

proof fn lemma_below_stays_within(rules: Rules, children: Seq<Entry>, place: Place, k: nat)
    requires
        place.depth < rules.max_depth,
    ensures
        all_within(rules, place.depth, below(rules, children, place, k).picks),
    decreases children, children.len() - k,
{
    if k < children.len() {
        lemma_below_stays_within(rules, children, place, k + 1);
        if kind_of(children[k as int].node) == EntryKind::Dir {
            let there = child_place(place, children, k as int);
            lemma_survey_stays_within(rules, children[k as int].node, there);
            let inner = survey(rules, children[k as int].node, there).picks;
            assert(all_within(rules, place.depth, inner));
            lemma_all_within_concat(
                rules,
                place.depth,
                below(rules, children, place, k + 1).picks,
                inner,
            );
        }
    }
}

/// What holds of a walk below a directory holds of a walk from any root: no
/// file is picked below the depth limit, and none that no pattern matches.
pub proof fn lemma_survey_root_stays_within(rules: Rules, root: Entry)
    ensures
        all_within(rules, 0, survey_root(rules, root).picks),
{
    if root.node is Dir {
        lemma_survey_stays_within(rules, root.node, root_place());
    }
}

/// A directory at the depth limit gives its own files and nothing from below.
/// With a limit of `0` the walk picks only files that lie directly under the
/// root.
pub proof fn lemma_survey_at_limit(rules: Rules, children: Vec<Entry>, place: Place)
    requires
        place.depth >= rules.max_depth,
    ensures
        survey(rules, Node::Dir(children), place).picks == picked(rules, place, children@),
        survey(rules, Node::Dir(children), place).failed.len() == 0,
        forall|k: int|
            0 <= k < picked(rules, place, children@).len() ==> {
                let pick = #[trigger] picked(rules, place, children@)[k];
                &&& pick.hit.depth == place.depth
                &&& pick.hit.index < children@.len()
                &&& pick.hit.path == join(place.path, children@[pick.hit.index as int].name@)
            },
{
    lemma_selected(rules.patterns, place, listed(children@));
}

/// Every plain file of a listed directory that a pattern matches is picked,
/// with its bytes.
pub proof fn lemma_survey_picks_file(rules: Rules, children: Vec<Entry>, place: Place, index: int)
    requires
        0 <= index < children@.len(),
        children@[index].node is File,
        any_matches(rules.patterns, join(place.path, children@[index].name@)),
    ensures
        survey(rules, Node::Dir(children), place).picks.contains(
            Pick {
                hit: Hit {
                    path: join(place.path, children@[index].name@),
                    depth: place.depth,
                    index: index as nat,
                },
                contents: contents_of(children@[index].node),
            },
        ),
{
    let entries = listed(children@);
    let hit = Hit {
        path: join(place.path, children@[index].name@),
        depth: place.depth,
        index: index as nat,
    };
    let pick = Pick { hit, contents: contents_of(children@[index].node) };
    lemma_selected_complete(rules.patterns, place, entries, index);
    let chosen = selected(rules.patterns, place, entries);
    let k = choose|k: int| 0 <= k < chosen.len() && chosen[k] == hit;
    let own = picked(rules, place, children@);
    assert(own[k] == pick);
    lemma_contains_concat(own, below(rules, children@, place, 0).picks, pick);
    assert(own + Seq::<Pick>::empty() =~= own);
}

/// Above the depth limit, whatever a walk picks in a subdirectory the walk
/// of the directory picks too: a matching file is reached through every
/// chain of directories that stays within the limit.
pub proof fn lemma_survey_descends(
    rules: Rules,
    children: Vec<Entry>,
    place: Place,
    index: int,
    pick: Pick,
)
    requires
        place.depth < rules.max_depth,
        0 <= index < children@.len(),
        kind_of(children@[index].node) == EntryKind::Dir,
        survey(rules, children@[index].node, child_place(place, children@, index)).picks.contains(
            pick,
        ),
    ensures
        survey(rules, Node::Dir(children), place).picks.contains(pick),
{
    lemma_below_holds(rules, children@, place, 0, index, pick);
    lemma_contains_concat(
        picked(rules, place, children@),
        below(rules, children@, place, 0).picks,
        pick,
    );
}

proof fn lemma_below_holds(
    rules: Rules,
    children: Seq<Entry>,
    place: Place,
    k: nat,
    index: int,
    pick: Pick,
)
    requires
        k <= index < children.len(),
        kind_of(children[index].node) == EntryKind::Dir,
        survey(rules, children[index].node, child_place(place, children, index)).picks.contains(
            pick,
        ),
    ensures
        below(rules, children, place, k).picks.contains(pick),
    decreases index - k,
{
    let later = below(rules, children, place, k + 1).picks;
    if k == index {
        let inner = survey(rules, children[index].node, child_place(place, children, index)).picks;
        lemma_contains_concat(later, inner, pick);
    } else {
        lemma_below_holds(rules, children, place, k + 1, index, pick);
        if kind_of(children[k as int].node) == EntryKind::Dir {
            let inner = survey(
                rules,
                children[k as int].node,
                child_place(place, children, k as int),
            ).picks;
            lemma_contains_concat(later, inner, pick);
        }
    }
}

} // verus!
