//! Where each picked file lies in the tree.
//!
//! A file is named by its chain: the position of the first directory on the
//! way to it in the listing of the root, the position of the next one in the
//! listing of that directory, and so on down to the position of the file in
//! the listing of its own directory. The walk picks a file exactly when one
//! of the patterns matches its path and it lies no deeper than the limit,
//! and it picks no file twice.

use vstd::prelude::*;

use crate::glob::any_matches;
use crate::traverse::{
    join, lemma_selected, lemma_selected_complete, selected, EntryKind, Hit, Place,
};
use crate::tree::{
    below, child_place, contents_of, kind_of, listed, picked, survey, Entry, Node, Pick, Rules,
};

verus! {

/// The file that lies at `chain` below `node`, as the walk would pick it:
/// there if the chain leads through directories to a plain file, one of the
/// patterns matches the file's path, and no directory on the way lies at the
/// depth limit.
pub open spec fn file_at(rules: Rules, node: Node, place: Place, chain: Seq<int>) -> Option<Pick>
    decreases chain.len(),
{
    match node {
        Node::Dir(children) => {
            if chain.len() == 0 || chain[0] < 0 || chain[0] >= children@.len() {
                None
            } else {
                let child = children@[chain[0]];
                let path = join(place.path, child.name@);
                if chain.len() == 1 {
                    if child.node is File && any_matches(rules.patterns, path) {
                        Some(
                            Pick {
                                hit: Hit { path, depth: place.depth, index: chain[0] as nat },
                                contents: contents_of(child.node),
                            },
                        )
                    } else {
                        None
                    }
                } else if place.depth < rules.max_depth {
                    file_at(
                        rules,
                        child.node,
                        child_place(place, children@, chain[0]),
                        chain.skip(1),
                    )
                } else {
                    None
                }
            }
        },
        _ => None,
    }
}

/// The chains `chains`, each behind the position `k`.
pub open spec fn under(k: int, chains: Seq<Seq<int>>) -> Seq<Seq<int>> {
    chains.map_values(|chain: Seq<int>| seq![k] + chain)
}

/// The chains of the files that the walk picks in the directory itself.
pub open spec fn own_chains(rules: Rules, place: Place, children: Seq<Entry>) -> Seq<Seq<int>> {
    selected(rules.patterns, place, listed(children)).map_values(
        |hit: Hit| seq![hit.index as int],
    )
}

/// The chains of the files that the walk picks from `node` on, in the order
/// it picks them.
pub open spec fn chains(rules: Rules, node: Node, place: Place) -> Seq<Seq<int>>
    decreases node, 0nat,
{
    match node {
        Node::Dir(children) => {
            let own = own_chains(rules, place, children@);
            if place.depth < rules.max_depth {
                own + chains_below(rules, children@, place, 0)
            } else {
                own
            }
        },
        _ => Seq::empty(),
    }
}

/// The chains of the files that the walk picks in the subdirectories among
/// the entries from the `k`-th on.
pub open spec fn chains_below(rules: Rules, children: Seq<Entry>, place: Place, k: nat) -> Seq<
    Seq<int>,
>
    decreases children, children.len() - k,
{
    if k >= children.len() {
        Seq::empty()
    } else {
        let later = chains_below(rules, children, place, k + 1);
        if kind_of(children[k as int].node) == EntryKind::Dir {
            later + under(
                k as int,
                chains(rules, children[k as int].node, child_place(place, children, k as int)),
            )
        } else {
            later
        }
    }
}

/// `picks` are the files at `chains`, one for one, and every chain is at
/// least `least` long and starts at position `from` or later.
pub open spec fn tied(
    rules: Rules,
    node: Node,
    place: Place,
    picks: Seq<Pick>,
    chains: Seq<Seq<int>>,
    least: nat,
    from: int,
) -> bool {
    &&& picks.len() == chains.len()
    &&& forall|j: int|
        0 <= j < chains.len() ==> {
            let chain = #[trigger] chains[j];
            &&& chain.len() >= least
            &&& chain.len() >= 1
            &&& chain[0] >= from
            &&& file_at(rules, node, place, chain) == Some(picks[j])
        }
}

/// No chain occurs twice.
pub open spec fn apart(chains: Seq<Seq<int>>) -> bool {
    forall|i: int, j: int|
        0 <= i < chains.len() && 0 <= j < chains.len() && i != j ==> #[trigger] chains[i]
            != #[trigger] chains[j]
}

/// Every chain of at least `least` positions that starts at position `from`
/// or later and leads to a file is among `chains`.
pub open spec fn covers(
    rules: Rules,
    node: Node,
    place: Place,
    chains: Seq<Seq<int>>,
    least: nat,
    from: int,
) -> bool {
    forall|chain: Seq<int>|
        chain.len() >= least && chain.len() >= 1 && chain[0] >= from && (#[trigger] file_at(
            rules,
            node,
            place,
            chain,
        )) is Some ==> chains.contains(chain)
}

proof fn lemma_selected_rises(patterns: Seq<Seq<char>>, dir: Place, entries: Seq<crate::traverse::DirEntry>)
    ensures
        forall|i: int, j: int|
            0 <= i < j < selected(patterns, dir, entries).len() ==> (#[trigger] selected(
                patterns,
                dir,
                entries,
            )[i]).index < (#[trigger] selected(patterns, dir, entries)[j]).index,
    decreases entries.len(),
{
    if entries.len() > 0 {
        lemma_selected_rises(patterns, dir, entries.drop_last());
        lemma_selected(patterns, dir, entries.drop_last());
    }
}

proof fn lemma_own(rules: Rules, parent: Vec<Entry>, place: Place)
    ensures
        tied(
            rules,
            Node::Dir(parent),
            place,
            picked(rules, place, parent@),
            own_chains(rules, place, parent@),
            1,
            0,
        ),
        apart(own_chains(rules, place, parent@)),
        forall|j: int|
            0 <= j < own_chains(rules, place, parent@).len() ==> (#[trigger] own_chains(
                rules,
                place,
                parent@,
            )[j]).len() == 1,
        forall|chain: Seq<int>|
            chain.len() == 1 && (#[trigger] file_at(rules, Node::Dir(parent), place, chain))
                is Some ==> own_chains(rules, place, parent@).contains(chain),
{
    let entries = listed(parent@);
    let chosen = selected(rules.patterns, place, entries);
    let own = own_chains(rules, place, parent@);
    let picks = picked(rules, place, parent@);
    lemma_selected(rules.patterns, place, entries);
    lemma_selected_rises(rules.patterns, place, entries);
    assert forall|j: int| 0 <= j < own.len() implies {
        let chain = #[trigger] own[j];
        &&& chain.len() >= 1
        &&& chain[0] >= 0
        &&& file_at(rules, Node::Dir(parent), place, chain) == Some(picks[j])
    } by {
        let hit = chosen[j];
        assert(own[j] == seq![hit.index as int]);
        assert(entries[hit.index as int].kind == kind_of(parent@[hit.index as int].node));
        assert(entries[hit.index as int].name == parent@[hit.index as int].name);
        assert(picks[j] == Pick { hit, contents: contents_of(parent@[hit.index as int].node) });
    }
    assert forall|i: int, j: int| 0 <= i < own.len() && 0 <= j < own.len() && i != j implies #[trigger] own[i]
        != #[trigger] own[j] by {
        assert(own[i] == seq![chosen[i].index as int]);
        assert(own[j] == seq![chosen[j].index as int]);
        if i < j {
            assert(chosen[i].index < chosen[j].index);
        } else {
            assert(chosen[j].index < chosen[i].index);
        }
        assert(own[i][0] != own[j][0]);
    }
    assert forall|chain: Seq<int>|
        chain.len() == 1 && (#[trigger] file_at(
            rules,
            Node::Dir(parent),
            place,
            chain,
        )) is Some implies own.contains(chain) by {
        let index = chain[0];
        assert(entries[index].kind == kind_of(parent@[index].node));
        assert(entries[index].name == parent@[index].name);
        lemma_selected_complete(rules.patterns, place, entries, index);
        let hit = Hit {
            path: join(place.path, entries[index].name@),
            depth: place.depth,
            index: index as nat,
        };
        let j = choose|j: int| 0 <= j < chosen.len() && chosen[j] == hit;
        assert(own[j] =~= chain);
    }
}

proof fn lemma_concat_contains(first: Seq<Seq<int>>, second: Seq<Seq<int>>, chain: Seq<int>)
    requires
        first.contains(chain) || second.contains(chain),
    ensures
        (first + second).contains(chain),
{
    if first.contains(chain) {
        let k = choose|k: int| 0 <= k < first.len() && first[k] == chain;
        assert((first + second)[k] == chain);
    } else {
        let k = choose|k: int| 0 <= k < second.len() && second[k] == chain;
        assert((first + second)[first.len() + k] == chain);
    }
}

/// From a directory on, the walk picks exactly the files that match a
/// pattern and lie no deeper than the limit, each of them once: the files it
/// picks are the files at the chains of [`chains`], one for one; no chain
/// occurs twice; and every chain that leads to such a file is among them.
pub proof fn lemma_survey_is_exact(rules: Rules, node: Node, place: Place)
    ensures
        tied(rules, node, place, survey(rules, node, place).picks, chains(rules, node, place), 1, 0),
        apart(chains(rules, node, place)),
        covers(rules, node, place, chains(rules, node, place), 1, 0),
    decreases node, 0nat,
{
    match node {
        Node::Dir(parent) => {
            let own = own_chains(rules, place, parent@);
            let own_picks = picked(rules, place, parent@);
            lemma_own(rules, parent, place);
            if place.depth < rules.max_depth {
                lemma_below_is_exact(rules, parent, place, 0);
                let deep = chains_below(rules, parent@, place, 0);
                let deep_picks = below(rules, parent@, place, 0).picks;
                let all = own + deep;
                let picks = own_picks + deep_picks;
                assert forall|j: int| 0 <= j < all.len() implies {
                    let chain = #[trigger] all[j];
                    &&& chain.len() >= 1
                    &&& chain[0] >= 0
                    &&& file_at(rules, node, place, chain) == Some(picks[j])
                } by {
                    if j < own.len() {
                        assert(all[j] == own[j]);
                        assert(picks[j] == own_picks[j]);
                    } else {
                        assert(all[j] == deep[j - own.len()]);
                        assert(picks[j] == deep_picks[j - own.len()]);
                    }
                }
                assert forall|i: int, j: int|
                    0 <= i < all.len() && 0 <= j < all.len() && i != j implies #[trigger] all[i]
                    != #[trigger] all[j] by {
                    let a = if i < own.len() {
                        own[i]
                    } else {
                        deep[i - own.len()]
                    };
                    let b = if j < own.len() {
                        own[j]
                    } else {
                        deep[j - own.len()]
                    };
                    assert(all[i] == a && all[j] == b);
                    if i < own.len() && j >= own.len() {
                        assert(a.len() == 1 && b.len() >= 2);
                    }
                    if j < own.len() && i >= own.len() {
                        assert(b.len() == 1 && a.len() >= 2);
                    }
                }
                assert forall|chain: Seq<int>|
                    chain.len() >= 1 && chain[0] >= 0 && (#[trigger] file_at(
                        rules,
                        node,
                        place,
                        chain,
                    )) is Some implies all.contains(chain) by {
                    if chain.len() == 1 {
                        assert(own.contains(chain));
                    } else {
                        assert(deep.contains(chain));
                    }
                    lemma_concat_contains(own, deep, chain);
                }
            } else {
                assert forall|chain: Seq<int>|
                    chain.len() >= 1 && chain[0] >= 0 && (#[trigger] file_at(
                        rules,
                        node,
                        place,
                        chain,
                    )) is Some implies own.contains(chain) by {
                    assert(chain.len() == 1);
                }
            }
        },
        _ => {},
    }
}

proof fn lemma_below_is_exact(rules: Rules, parent: Vec<Entry>, place: Place, k: nat)
    requires
        place.depth < rules.max_depth,
    ensures
        tied(
            rules,
            Node::Dir(parent),
            place,
            below(rules, parent@, place, k).picks,
            chains_below(rules, parent@, place, k),
            2,
            k as int,
        ),
        apart(chains_below(rules, parent@, place, k)),
        covers(rules, Node::Dir(parent), place, chains_below(rules, parent@, place, k), 2, k as int),
    decreases parent, parent@.len() - k,
{
    let node = Node::Dir(parent);
    let children = parent@;
    if k < children.len() {
        lemma_below_is_exact(rules, parent, place, k + 1);
        let later = chains_below(rules, children, place, k + 1);
        let later_picks = below(rules, children, place, k + 1).picks;
        let child = children[k as int];
        let there = child_place(place, children, k as int);
        if kind_of(child.node) == EntryKind::Dir {
            assert(decreases_to!(parent => parent[k as int]));
            lemma_survey_is_exact(rules, child.node, there);
            let inner = chains(rules, child.node, there);
            let inner_picks = survey(rules, child.node, there).picks;
            let lifted = under(k as int, inner);
            let all = later + lifted;
            let picks = later_picks + inner_picks;
            assert forall|j: int| 0 <= j < lifted.len() implies {
                let chain = #[trigger] lifted[j];
                &&& chain.len() >= 2
                &&& chain[0] == k
                &&& chain.skip(1) == inner[j]
                &&& file_at(rules, node, place, chain) == Some(inner_picks[j])
            } by {
                let chain = lifted[j];
                assert(chain == seq![k as int] + inner[j]);
                assert(chain.skip(1) =~= inner[j]);
            }
            assert forall|j: int| 0 <= j < all.len() implies {
                let chain = #[trigger] all[j];
                &&& chain.len() >= 2
                &&& chain[0] >= k
                &&& file_at(rules, node, place, chain) == Some(picks[j])
            } by {
                if j < later.len() {
                    assert(all[j] == later[j]);
                    assert(picks[j] == later_picks[j]);
                } else {
                    assert(all[j] == lifted[j - later.len()]);
                    assert(picks[j] == inner_picks[j - later.len()]);
                }
            }
            assert forall|i: int, j: int|
                0 <= i < all.len() && 0 <= j < all.len() && i != j implies #[trigger] all[i]
                != #[trigger] all[j] by {
                let a = if i < later.len() {
                    later[i]
                } else {
                    lifted[i - later.len()]
                };
                let b = if j < later.len() {
                    later[j]
                } else {
                    lifted[j - later.len()]
                };
                assert(all[i] == a && all[j] == b);
                if i >= later.len() && j >= later.len() {
                    assert(inner[i - later.len()] != inner[j - later.len()]);
                    assert(a.skip(1) != b.skip(1));
                } else if i < later.len() && j >= later.len() {
                    assert(a[0] >= k + 1 && b[0] == k);
                } else if j < later.len() && i >= later.len() {
                    assert(b[0] >= k + 1 && a[0] == k);
                }
            }
            assert forall|chain: Seq<int>|
                chain.len() >= 2 && chain[0] >= k && (#[trigger] file_at(
                    rules,
                    node,
                    place,
                    chain,
                )) is Some implies all.contains(chain) by {
                if chain[0] == k {
                    let rest = chain.skip(1);
                    assert(file_at(rules, child.node, there, rest) is Some);
                    assert(rest.len() >= 1);
                    if rest[0] < 0 {
                        assert(file_at(rules, child.node, there, rest) is None);
                    }
                    assert(inner.contains(rest));
                    let j = choose|j: int| 0 <= j < inner.len() && inner[j] == rest;
                    assert(lifted[j] =~= chain);
                    assert(lifted.contains(chain));
                } else {
                    assert(later.contains(chain));
                }
                lemma_concat_contains(later, lifted, chain);
            }
        } else {
            assert forall|chain: Seq<int>|
                chain.len() >= 2 && chain[0] >= k && (#[trigger] file_at(
                    rules,
                    node,
                    place,
                    chain,
                )) is Some implies later.contains(chain) by {
                if chain[0] == k {
                    assert(file_at(rules, child.node, there, chain.skip(1)) is None);
                }
            }
            assert forall|j: int| 0 <= j < later.len() implies (#[trigger] later[j])[0] >= k by {}
        }
    }
}

/// A file that lies at a chain lies as many directories below the start as
/// the chain has positions before the last, and no deeper than the limit.
pub proof fn lemma_file_at_depth(rules: Rules, node: Node, place: Place, chain: Seq<int>)
    requires
        file_at(rules, node, place, chain) is Some,
        place.depth <= rules.max_depth,
    ensures
        chain.len() >= 1,
        file_at(rules, node, place, chain)->0.hit.depth == place.depth + chain.len() - 1,
        place.depth + chain.len() - 1 <= rules.max_depth,
        any_matches(rules.patterns, file_at(rules, node, place, chain)->0.hit.path),
    decreases chain.len(),
{
    match node {
        Node::Dir(children) => {
            if chain.len() > 1 {
                lemma_file_at_depth(
                    rules,
                    children@[chain[0]].node,
                    child_place(place, children@, chain[0]),
                    chain.skip(1),
                );
            }
        },
        _ => {},
    }
}

/// A file is among those that the walk picks exactly when it lies at some
/// chain as a matching file within the depth limit.
pub proof fn lemma_picked_iff_file_at(rules: Rules, node: Node, place: Place, pick: Pick)
    ensures
        survey(rules, node, place).picks.contains(pick) <==> exists|chain: Seq<int>|
            #[trigger] file_at(rules, node, place, chain) == Some(pick),
{
    lemma_survey_is_exact(rules, node, place);
    let picks = survey(rules, node, place).picks;
    let all = chains(rules, node, place);
    if picks.contains(pick) {
        let j = choose|j: int| 0 <= j < picks.len() && picks[j] == pick;
        assert(file_at(rules, node, place, all[j]) == Some(pick));
    }
    if exists|chain: Seq<int>| #[trigger] file_at(rules, node, place, chain) == Some(pick) {
        let chain = choose|chain: Seq<int>| #[trigger]
            file_at(rules, node, place, chain) == Some(pick);
        assert(chain.len() >= 1 && chain[0] >= 0);
        assert(all.contains(chain));
        let j = choose|j: int| 0 <= j < all.len() && all[j] == chain;
        assert(picks[j] == pick);
    }
}

} // verus!
