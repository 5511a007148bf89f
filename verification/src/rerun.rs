//! Writing back what a run asked for, and running again over the result.

use vstd::prelude::*;

use crate::format::{formatted, takes, verdict, FormatOptions};
use crate::run::{outcomes, rewritten, writes, Rewrite};
use crate::state::{lemma_tally_counts, FmtState, Outcome};
use crate::traverse::{join, join_path, lemma_selected, selected, EntryKind, Place};
use crate::tree::{
    below, child_place, kind_of, listed, picked, root_place, survey, survey_root, Entry, Node,
    Pick, Rules,
};

verus! {

/// The bytes of the file at `path` once `writes` are written in their order:
/// those of the last write to that path, or `old` where there is none.
pub open spec fn content_after(
    old: Seq<u8>,
    path: Seq<char>,
    writes: Seq<(Seq<char>, Seq<u8>)>,
) -> Seq<u8>
    decreases writes.len(),
{
    if writes.len() == 0 {
        old
    } else if writes.last().0 == path {
        writes.last().1
    } else {
        content_after(old, path, writes.drop_last())
    }
}

/// `new` is `old` once `writes` are written: the same node, but that a file
/// holds what was last written to its path. `path` is the path of a file,
/// and the path under which the entries of a directory lie.
pub open spec fn node_written(
    old: Node,
    new: Node,
    path: Seq<char>,
    writes: Seq<(Seq<char>, Seq<u8>)>,
) -> bool
    decreases old, 0nat,
{
    match old {
        Node::File(bytes) => new matches Node::File(fresh) && fresh@ == content_after(
            bytes@,
            path,
            writes,
        ),
        Node::Dir(children) => new matches Node::Dir(others) && children_written(
            children@,
            others@,
            path,
            writes,
            0,
        ),
        Node::Unreadable => new is Unreadable,
        Node::Other => new is Other,
    }
}

/// The entries from the `k`-th on are written as [`node_written`] says,
/// name by name.
pub open spec fn children_written(
    old: Seq<Entry>,
    new: Seq<Entry>,
    dir: Seq<char>,
    writes: Seq<(Seq<char>, Seq<u8>)>,
    k: nat,
) -> bool
    decreases old, old.len() - k,
{
    if old.len() != new.len() {
        false
    } else if k >= old.len() {
        true
    } else {
        &&& new[k as int].name == old[k as int].name
        &&& node_written(
            old[k as int].node,
            new[k as int].node,
            join(dir, old[k as int].name@),
            writes,
        )
        &&& children_written(old, new, dir, writes, k + 1)
    }
}

/// The path under which the parts of a root lie: its name for a plain file,
/// nothing for a directory, whose entries are named from the root on.
pub open spec fn root_path(root: Entry) -> Seq<char> {
    if root.node is File {
        root.name@
    } else {
        Seq::empty()
    }
}

/// `new` is the tree `old` once `writes` are written.
pub open spec fn root_written(old: Entry, new: Entry, writes: Seq<(Seq<char>, Seq<u8>)>) -> bool {
    new.name == old.name && node_written(old.node, new.node, root_path(old), writes)
}

/// The picks with what was last written to their paths.
pub open spec fn refreshed(picks: Seq<Pick>, writes: Seq<(Seq<char>, Seq<u8>)>) -> Seq<Pick> {
    picks.map_values(
        |pick: Pick|
            Pick { hit: pick.hit, contents: content_after(pick.contents, pick.hit.path, writes) },
    )
}

fn content_for(old: &Vec<u8>, path: &String, rewrites: &Vec<Rewrite>) -> (fresh: Vec<u8>)
    ensures
        fresh@ == content_after(old@, path@, writes(rewrites@)),
{
    let mut i: usize = rewrites.len();
    proof {
        assert(writes(rewrites@).take(i as int) =~= writes(rewrites@));
    }
    while i > 0
        invariant
            i <= rewrites.len(),
            content_after(old@, path@, writes(rewrites@)) == content_after(
                old@,
                path@,
                writes(rewrites@).take(i as int),
            ),
        decreases i,
    {
        i -= 1;
        let ghost upto = writes(rewrites@).take(i + 1);
        proof {
            assert(upto.last() == rewrites@[i as int]@);
            assert(upto.drop_last() =~= writes(rewrites@).take(i as int));
        }
        if rewrites[i].path == *path {
            let fresh = rewrites[i].contents.clone();
            assert(fresh@ =~= rewrites@[i as int].contents@);
            return fresh;
        }
    }
    let fresh = old.clone();
    assert(fresh@ =~= old@);
    fresh
}

fn written_node(node: &Node, path: &String, rewrites: &Vec<Rewrite>) -> (fresh: Node)
    ensures
        node_written(*node, fresh, path@, writes(rewrites@)),
    decreases node,
{
    match node {
        Node::File(bytes) => Node::File(content_for(bytes, path, rewrites)),
        Node::Dir(children) => {
            let mut others: Vec<Entry> = Vec::new();
            let mut i: usize = 0;
            while i < children.len()
                invariant
                    i <= children.len(),
                    *node == Node::Dir(*children),
                    others@.len() == i,
                    forall|k: int|
                        0 <= k < i ==> (#[trigger] others@[k]).name == children@[k].name
                            && node_written(
                            children@[k].node,
                            others@[k].node,
                            join(path@, children@[k].name@),
                            writes(rewrites@),
                        ),
                decreases children.len() - i,
            {
                let child = &children[i];
                let below = join_path(path.as_str(), child.name.as_str());
                proof {
                    assert(decreases_to!(*node => node->Dir_0));
                    assert(decreases_to!(*children => children[i as int]));
                }
                let inner = written_node(&child.node, &below, rewrites);
                others.push(Entry { name: child.name.clone(), node: inner });
                i += 1;
            }
            proof {
                lemma_children_written(children@, others@, path@, writes(rewrites@), 0);
            }
            Node::Dir(others)
        },
        Node::Unreadable => Node::Unreadable,
        Node::Other => Node::Other,
    }
}

proof fn lemma_children_written(
    old: Seq<Entry>,
    new: Seq<Entry>,
    dir: Seq<char>,
    writes: Seq<(Seq<char>, Seq<u8>)>,
    k: nat,
)
    requires
        old.len() == new.len(),
        forall|i: int|
            k <= i < old.len() ==> (#[trigger] new[i]).name == old[i].name && node_written(
                old[i].node,
                new[i].node,
                join(dir, old[i].name@),
                writes,
            ),
    ensures
        children_written(old, new, dir, writes, k),
    decreases old.len() - k,
{
    if k < old.len() {
        assert(new[k as int].name == old[k as int].name);
        lemma_children_written(old, new, dir, writes, k + 1);
    }
}

proof fn lemma_children_unfold(
    old: Seq<Entry>,
    new: Seq<Entry>,
    dir: Seq<char>,
    writes: Seq<(Seq<char>, Seq<u8>)>,
    k: nat,
    i: int,
)
    requires
        children_written(old, new, dir, writes, k),
        k <= i < old.len(),
    ensures
        old.len() == new.len(),
        new[i].name == old[i].name,
        node_written(old[i].node, new[i].node, join(dir, old[i].name@), writes),
    decreases i - k,
{
    if k < i {
        lemma_children_unfold(old, new, dir, writes, k + 1, i);
    }
}

/// Writes the rewrites to a copy of the tree, in their order: each goes to
/// the plain file at its path. Everything else stays as it is.
pub fn apply_rewrites(root: &Entry, rewrites: &Vec<Rewrite>) -> (fresh: Entry)
    ensures
        root_written(*root, fresh, writes(rewrites@)),
{
    let path = match &root.node {
        Node::File(_) => root.name.clone(),
        _ => String::new(),
    };
    Entry { name: root.name.clone(), node: written_node(&root.node, &path, rewrites) }
}

/// A walk over a written tree picks the same files as before, each with
/// what was last written to its path, and fails on the same directories.
pub proof fn lemma_survey_after(
    rules: Rules,
    old: Node,
    new: Node,
    place: Place,
    writes: Seq<(Seq<char>, Seq<u8>)>,
)
    requires
        node_written(old, new, place.path, writes),
    ensures
        survey(rules, new, place).picks == refreshed(survey(rules, old, place).picks, writes),
        survey(rules, new, place).failed == survey(rules, old, place).failed,
    decreases old, 0nat,
{
    match old {
        Node::Dir(children) => {
            let others = new->Dir_0;
            lemma_listed_after(children@, others@, place.path, writes);
            let entries = listed(children@);
            let chosen = selected(rules.patterns, place, entries);
            lemma_selected(rules.patterns, place, entries);
            let before = picked(rules, place, children@);
            let after = picked(rules, place, others@);
            assert(after =~= refreshed(before, writes)) by {
                assert forall|j: int| 0 <= j < chosen.len() implies after[j] == refreshed(
                    before,
                    writes,
                )[j] by {
                    let hit = chosen[j];
                    let index = hit.index as int;
                    lemma_children_unfold(children@, others@, place.path, writes, 0, index);
                    assert(entries[index].kind == kind_of(children@[index].node));
                    assert(entries[index].name == children@[index].name);
                }
            }
            if place.depth < rules.max_depth {
                lemma_below_after(rules, children@, others@, place, writes, 0);
                let deep = below(rules, children@, place, 0).picks;
                assert(refreshed(before + deep, writes) =~= refreshed(before, writes) + refreshed(
                    deep,
                    writes,
                ));
            }
        },
        _ => {
            assert(refreshed(Seq::<Pick>::empty(), writes) =~= Seq::<Pick>::empty());
        },
    }
}

proof fn lemma_listed_after(
    old: Seq<Entry>,
    new: Seq<Entry>,
    dir: Seq<char>,
    writes: Seq<(Seq<char>, Seq<u8>)>,
)
    requires
        children_written(old, new, dir, writes, 0),
    ensures
        listed(new) == listed(old),
        old.len() == new.len(),
{
    assert forall|i: int| 0 <= i < old.len() implies listed(new)[i] == listed(old)[i] by {
        lemma_children_unfold(old, new, dir, writes, 0, i);
    }
    assert(listed(new) =~= listed(old));
}

proof fn lemma_below_after(
    rules: Rules,
    old: Seq<Entry>,
    new: Seq<Entry>,
    place: Place,
    writes: Seq<(Seq<char>, Seq<u8>)>,
    k: nat,
)
    requires
        children_written(old, new, place.path, writes, 0),
    ensures
        below(rules, new, place, k).picks == refreshed(below(rules, old, place, k).picks, writes),
        below(rules, new, place, k).failed == below(rules, old, place, k).failed,
    decreases old, old.len() - k,
{
    if k < old.len() {
        lemma_children_unfold(old, new, place.path, writes, 0, k as int);
        lemma_below_after(rules, old, new, place, writes, k + 1);
        let later = below(rules, old, place, k + 1).picks;
        if kind_of(old[k as int].node) == EntryKind::Dir {
            let there = child_place(place, old, k as int);
            assert(child_place(place, new, k as int) == there);
            lemma_survey_after(rules, old[k as int].node, new[k as int].node, there, writes);
            let inner = survey(rules, old[k as int].node, there).picks;
            assert(refreshed(later + inner, writes) =~= refreshed(later, writes) + refreshed(
                inner,
                writes,
            ));
        }
    } else {
        assert(refreshed(Seq::<Pick>::empty(), writes) =~= Seq::<Pick>::empty());
    }
}

/// What [`lemma_survey_after`] says, from a root on.
pub proof fn lemma_survey_root_after(
    rules: Rules,
    old: Entry,
    new: Entry,
    writes: Seq<(Seq<char>, Seq<u8>)>,
)
    requires
        root_written(old, new, writes),
    ensures
        survey_root(rules, new).picks == refreshed(survey_root(rules, old).picks, writes),
        survey_root(rules, new).failed == survey_root(rules, old).failed,
{
    match old.node {
        Node::File(bytes) => {
            assert(survey_root(rules, new).picks =~= refreshed(
                survey_root(rules, old).picks,
                writes,
            ));
        },
        Node::Dir(_) => {
            lemma_survey_after(rules, old.node, new.node, root_place(), writes);
        },
        _ => {
            assert(refreshed(Seq::<Pick>::empty(), writes) =~= Seq::<Pick>::empty());
        },
    }
}

proof fn lemma_content_after(old: Seq<u8>, path: Seq<char>, writes: Seq<(Seq<char>, Seq<u8>)>)
    ensures
        (content_after(old, path, writes) == old && forall|k: int|
            0 <= k < writes.len() ==> (#[trigger] writes[k]).0 != path) || exists|k: int|
            0 <= k < writes.len() && (#[trigger] writes[k]).0 == path && content_after(
                old,
                path,
                writes,
            ) == writes[k].1,
    decreases writes.len(),
{
    if writes.len() > 0 {
        let k = writes.len() - 1;
        if writes.last().0 == path {
            assert(writes[k].0 == path && content_after(old, path, writes) == writes[k].1);
        } else {
            let shorter = writes.drop_last();
            lemma_content_after(old, path, shorter);
            if content_after(old, path, shorter) == old && forall|k: int|
                0 <= k < shorter.len() ==> (#[trigger] shorter[k]).0 != path {
                assert forall|j: int| 0 <= j < writes.len() implies (#[trigger] writes[j]).0
                    != path by {
                    if j < shorter.len() {
                        assert(writes[j] == shorter[j]);
                    }
                }
            } else {
                let j = choose|j: int|
                    0 <= j < shorter.len() && (#[trigger] shorter[j]).0 == path && content_after(
                        old,
                        path,
                        shorter,
                    ) == shorter[j].1;
                assert(writes[j] == shorter[j]);
            }
        }
    }
}

/// Whether `write` is what a run asks to write for the `i`-th pick: the
/// formatter's output for a pick that it changes, under the pick's path.
pub open spec fn write_of(options: FormatOptions, picks: Seq<Pick>, i: int, write: (Seq<char>, Seq<u8>)) -> bool {
    &&& 0 <= i < picks.len()
    &&& verdict(options, picks[i].contents) == Outcome::Changed
    &&& write == (picks[i].hit.path, formatted(options, picks[i].contents)->Ok_0)
}

proof fn lemma_write_came_from(options: FormatOptions, picks: Seq<Pick>, k: int) -> (i: int)
    requires
        0 <= k < rewritten(options, false, picks).len(),
    ensures
        write_of(options, picks, i, rewritten(options, false, picks)[k]),
    decreases picks.len(),
{
    let shorter = picks.drop_last();
    let before = rewritten(options, false, shorter);
    if k < before.len() {
        let i = lemma_write_came_from(options, shorter, k);
        assert(shorter[i] == picks[i]);
        i
    } else {
        picks.len() - 1
    }
}

proof fn lemma_changed_is_written(options: FormatOptions, picks: Seq<Pick>, i: int) -> (k: int)
    requires
        0 <= i < picks.len(),
        verdict(options, picks[i].contents) == Outcome::Changed,
    ensures
        0 <= k < rewritten(options, false, picks).len(),
        rewritten(options, false, picks)[k].0 == picks[i].hit.path,
    decreases picks.len(),
{
    let shorter = picks.drop_last();
    let before = rewritten(options, false, shorter);
    if i < picks.len() - 1 {
        assert(shorter[i] == picks[i]);
        let k = lemma_changed_is_written(options, shorter, i);
        assert(rewritten(options, false, picks)[k] == before[k]);
        k
    } else {
        before.len() as int
    }
}

proof fn lemma_nothing_changed(options: FormatOptions, picks: Seq<Pick>)
    requires
        forall|i: int|
            0 <= i < picks.len() ==> verdict(options, (#[trigger] picks[i]).contents)
                != Outcome::Changed,
    ensures
        rewritten(options, false, picks).len() == 0,
    decreases picks.len(),
{
    if picks.len() > 0 {
        let shorter = picks.drop_last();
        assert forall|i: int| 0 <= i < shorter.len() implies verdict(
            options,
            (#[trigger] shorter[i]).contents,
        ) != Outcome::Changed by {
            assert(shorter[i] == picks[i]);
        }
        lemma_nothing_changed(options, shorter);
        assert(verdict(options, picks[picks.len() - 1].contents) != Outcome::Changed);
    }
}

/// The formatter leaves its own output as it is: handed what it made of a
/// pick that it changes, it hands the same bytes back. This is a property of
/// the formatter alone; the library assumes it nowhere, and proves what
/// follows from it.
pub open spec fn leaves_alone(options: FormatOptions, picks: Seq<Pick>) -> bool {
    forall|i: int|
        0 <= i < picks.len() && verdict(options, (#[trigger] picks[i]).contents)
            == Outcome::Changed ==> formatted(
            options,
            formatted(options, picks[i].contents)->Ok_0,
        ) == Ok::<Seq<u8>, Seq<char>>(formatted(options, picks[i].contents)->Ok_0)
}

/// Running again over what a run wrote changes nothing, where the formatter
/// leaves its own output as it is.
///
/// Let a run that is no check pick `first` in the tree `old`, and let `new`
/// be `old` with that run's rewrites written. A second run with the same
/// patterns, depth and options picks the same files and fails on the same
/// directories. It ends no file as changed, asks for no rewrite and counts
/// no file as modified. A file that the first run did not fail on ends
/// unchanged, unless it now holds what the formatter cannot be handed.
pub proof fn lemma_second_run_changes_nothing(
    rules: Rules,
    options: FormatOptions,
    old: Entry,
    new: Entry,
)
    requires
        root_written(old, new, rewritten(options, false, survey_root(rules, old).picks)),
        leaves_alone(options, survey_root(rules, old).picks),
        survey_root(rules, old).picks.len() <= usize::MAX,
    ensures
        ({
            let first = survey_root(rules, old);
            let second = survey_root(rules, new);
            let fresh = FmtState { check_mode: false, files_ok: 0, files_modified: 0, errors: 0 };
            &&& second.failed == first.failed
            &&& second.picks.len() == first.picks.len()
            &&& forall|j: int|
                0 <= j < first.picks.len() ==> {
                    &&& (#[trigger] second.picks[j]).hit == first.picks[j].hit
                    &&& verdict(options, second.picks[j].contents) != Outcome::Changed
                    &&& verdict(options, first.picks[j].contents) != Outcome::Failed && takes(
                        options,
                        second.picks[j].contents,
                    ) ==> verdict(options, second.picks[j].contents) == Outcome::Unchanged
                }
            &&& rewritten(options, false, second.picks).len() == 0
            &&& fresh.tally(outcomes(options, second.picks)).files_modified == 0
        }),
{
    let first = survey_root(rules, old).picks;
    let wrote = rewritten(options, false, first);
    lemma_survey_root_after(rules, old, new, wrote);
    let second = survey_root(rules, new).picks;
    assert forall|j: int| 0 <= j < first.len() implies {
        &&& (#[trigger] second[j]).hit == first[j].hit
        &&& verdict(options, second[j].contents) != Outcome::Changed
        &&& verdict(options, first[j].contents) != Outcome::Failed && takes(
            options,
            second[j].contents,
        ) ==> verdict(options, second[j].contents) == Outcome::Unchanged
    } by {
        let was = first[j];
        lemma_content_after(was.contents, was.hit.path, wrote);
        if exists|k: int|
            0 <= k < wrote.len() && (#[trigger] wrote[k]).0 == was.hit.path && content_after(
                was.contents,
                was.hit.path,
                wrote,
            ) == wrote[k].1 {
            let k = choose|k: int|
                0 <= k < wrote.len() && (#[trigger] wrote[k]).0 == was.hit.path && content_after(
                    was.contents,
                    was.hit.path,
                    wrote,
                ) == wrote[k].1;
            let i = lemma_write_came_from(options, first, k);
            assert(verdict(options, first[i].contents) == Outcome::Changed);
        } else {
            if verdict(options, was.contents) == Outcome::Changed {
                let k = lemma_changed_is_written(options, first, j);
                assert(wrote[k].0 == was.hit.path);
                assert(false);
            }
        }
    }
    lemma_nothing_changed(options, second);
    let ends = outcomes(options, second);
    lemma_tally_counts(false, ends);
    assert(ends.to_multiset().count(Outcome::Changed) == 0) by {
        ends.to_multiset_ensures();
        if ends.contains(Outcome::Changed) {
            let k = choose|k: int| 0 <= k < ends.len() && ends[k] == Outcome::Changed;
            assert(ends[k] == verdict(options, second[k].contents));
        }
    }
}

} // verus!
