//! What holds of the scan of any tree, wherever it lies below the scan's
//! root: the inductions that carry the laws.

use crate::outcome::{own_match, scan_entries, scan_tree, visible_at};
use crate::path::{
    all_within, beneath, join, lemma_entries_apart, lemma_within_chain,
    lemma_within_entry_is_beneath, parents_first, unnested, within,
};
use crate::request::PrunePolicy;
use crate::tree::{repository_at, tree_holds, well_formed, Tree};
use vstd::prelude::*;

verus! {

/// `target` is the path of a repository root in one of the first `count`
/// entries of `tree`, whose own path is `base`, at most `levels` levels below
/// that entry.
pub open spec fn entries_hold(
    tree: Tree,
    count: nat,
    base: Seq<char>,
    levels: nat,
    target: Seq<char>,
) -> bool {
    exists|j: int, level: nat|
        0 <= j < count && j < tree.entries.len() && level <= levels && #[trigger] repository_at(
            tree.entries[j],
            join(base, tree.entries[j].name),
            level,
            target,
        )
}

/// Whatever the scan of a tree finds is a repository root in that tree, no
/// deeper than the depth bound allows.
pub proof fn lemma_tree_sound(
    tree: Tree,
    path: Seq<char>,
    depth: nat,
    max_depth: nat,
    policy: PrunePolicy,
    k: int,
)
    requires
        0 <= k < scan_tree(tree, path, depth, max_depth, policy).found.len(),
    ensures
        depth <= max_depth,
        tree_holds(
            tree,
            path,
            (max_depth - depth) as nat,
            scan_tree(tree, path, depth, max_depth, policy).found[k],
        ),
    decreases tree, tree.entries.len() + 1,
{
    let found = scan_tree(tree, path, depth, max_depth, policy).found;
    let own = own_match(tree, path);
    if k < own.len() {
        assert(repository_at(tree, path, 0, found[k]));
    } else {
        lemma_entries_sound(
            tree,
            tree.entries.len(),
            path,
            depth + 1,
            max_depth,
            policy,
            k - own.len(),
        );
        let (j, level) = choose|j: int, level: nat|
            0 <= j < tree.entries.len() && level <= max_depth - (depth + 1)
                && #[trigger] repository_at(
                tree.entries[j],
                join(path, tree.entries[j].name),
                level,
                found[k],
            );
        assert(repository_at(tree, path, level + 1, found[k]));
    }
}

/// Whatever the scan of a directory's entries finds is a repository root in
/// one of them, no deeper than the depth bound allows.
pub proof fn lemma_entries_sound(
    tree: Tree,
    count: nat,
    path: Seq<char>,
    depth: nat,
    max_depth: nat,
    policy: PrunePolicy,
    k: int,
)
    requires
        count <= tree.entries.len(),
        0 <= k < scan_entries(tree, count, path, depth, max_depth, policy).found.len(),
    ensures
        depth <= max_depth,
        entries_hold(
            tree,
            count,
            path,
            (max_depth - depth) as nat,
            scan_entries(tree, count, path, depth, max_depth, policy).found[k],
        ),
    decreases tree, count,
{
    let found = scan_entries(tree, count, path, depth, max_depth, policy).found;
    let before = scan_entries(tree, (count - 1) as nat, path, depth, max_depth, policy);
    let levels = (max_depth - depth) as nat;
    if k < before.found.len() {
        lemma_entries_sound(tree, (count - 1) as nat, path, depth, max_depth, policy, k);
        let (j, level) = choose|j: int, level: nat|
            0 <= j < count - 1 && j < tree.entries.len() && level <= levels
                && #[trigger] repository_at(
                tree.entries[j],
                join(path, tree.entries[j].name),
                level,
                found[k],
            );
        assert(repository_at(tree.entries[j], join(path, tree.entries[j].name), level, found[k]));
    } else {
        let entry = tree.entries[count - 1];
        lemma_tree_sound(
            entry,
            join(path, entry.name),
            depth,
            max_depth,
            policy,
            k - before.found.len(),
        );
        let level = choose|level: nat|
            level <= levels && #[trigger] repository_at(
                entry,
                join(path, entry.name),
                level,
                found[k],
            );
        assert(repository_at(entry, join(path, entry.name), level, found[k]));
    }
}

/// `path` lies within one of the first `count` entries of `tree`, whose own
/// path is `base`.
pub open spec fn entries_cover(tree: Tree, count: nat, base: Seq<char>, path: Seq<char>) -> bool {
    exists|j: int|
        0 <= j < count && j < tree.entries.len() && within(
            join(base, (#[trigger] tree.entries[j]).name),
            path,
        )
}

/// Every one of `paths` lies within one of the first `count` entries of
/// `tree`, whose own path is `base`.
pub open spec fn all_covered(
    tree: Tree,
    count: nat,
    base: Seq<char>,
    paths: Seq<Seq<char>>,
) -> bool {
    forall|k: int| 0 <= k < paths.len() ==> entries_cover(tree, count, base, #[trigger] paths[k])
}

/// What lies within an entry of a well-formed directory lies beneath the
/// directory.
pub proof fn lemma_covered_is_beneath(tree: Tree, count: nat, base: Seq<char>, path: Seq<char>)
    requires
        well_formed(tree),
        entries_cover(tree, count, base, path),
    ensures
        beneath(base, path),
{
    let j = choose|j: int|
        0 <= j < count && j < tree.entries.len() && within(
            join(base, (#[trigger] tree.entries[j]).name),
            path,
        );
    lemma_within_entry_is_beneath(base, tree.entries[j].name, path);
}

/// No path lies within one of the first `count` entries of a well-formed
/// directory and within a later one too.
pub proof fn lemma_covered_is_apart(
    tree: Tree,
    count: nat,
    later: int,
    base: Seq<char>,
    path: Seq<char>,
)
    requires
        well_formed(tree),
        count <= later < tree.entries.len(),
        entries_cover(tree, count, base, path),
    ensures
        !within(join(base, tree.entries[later].name), path),
{
    let j = choose|j: int|
        0 <= j < count && j < tree.entries.len() && within(
            join(base, (#[trigger] tree.entries[j]).name),
            path,
        );
    lemma_entries_apart(base, tree.entries[j].name, tree.entries[later].name, path);
}

/// In a well-formed tree, whatever the scan of a tree finds lies within the
/// tree's path, nothing is found twice, and nothing is found before a path
/// that it lies beneath.
pub proof fn lemma_tree_distinct(
    tree: Tree,
    path: Seq<char>,
    depth: nat,
    max_depth: nat,
    policy: PrunePolicy,
)
    requires
        well_formed(tree),
    ensures
        all_within(path, scan_tree(tree, path, depth, max_depth, policy).found),
        scan_tree(tree, path, depth, max_depth, policy).found.no_duplicates(),
        parents_first(scan_tree(tree, path, depth, max_depth, policy).found),
    decreases tree, tree.entries.len() + 1,
{
    let found = scan_tree(tree, path, depth, max_depth, policy).found;
    let own = own_match(tree, path);
    let below = scan_entries(tree, tree.entries.len(), path, depth + 1, max_depth, policy);
    if found == own + below.found {
        lemma_entries_distinct(tree, tree.entries.len(), path, depth + 1, max_depth, policy);
        assert forall|k: int| own.len() <= k < found.len() implies beneath(
            path,
            #[trigger] found[k],
        ) by {
            lemma_covered_is_beneath(tree, tree.entries.len(), path, found[k]);
        }
        assert forall|a: int, b: int| 0 <= a < b < found.len() implies #[trigger] found[a]
            != #[trigger] found[b] && !beneath(found[b], found[a]) by {
            assert(beneath(path, found[b]));
        }
    }
}

/// In a well-formed tree, whatever the scan of a directory's entries finds
/// lies within one of them, nothing is found twice, and nothing is found
/// before a path that it lies beneath.
pub proof fn lemma_entries_distinct(
    tree: Tree,
    count: nat,
    path: Seq<char>,
    depth: nat,
    max_depth: nat,
    policy: PrunePolicy,
)
    requires
        well_formed(tree),
        count <= tree.entries.len(),
    ensures
        all_covered(
            tree,
            count,
            path,
            scan_entries(tree, count, path, depth, max_depth, policy).found,
        ),
        scan_entries(tree, count, path, depth, max_depth, policy).found.no_duplicates(),
        parents_first(scan_entries(tree, count, path, depth, max_depth, policy).found),
    decreases tree, count,
{
    if count > 0 {
        let found = scan_entries(tree, count, path, depth, max_depth, policy).found;
        let before = scan_entries(tree, (count - 1) as nat, path, depth, max_depth, policy);
        let entry = tree.entries[count - 1];
        let last = join(path, entry.name);
        let next = scan_tree(entry, last, depth, max_depth, policy);
        let split = before.found.len() as int;
        lemma_entries_distinct(tree, (count - 1) as nat, path, depth, max_depth, policy);
        assert forall|k: int| 0 <= k < before.found.len() implies entries_cover(
            tree,
            count,
            path,
            #[trigger] before.found[k],
        ) by {
            let j = choose|j: int|
                0 <= j < count - 1 && j < tree.entries.len() && within(
                    join(path, (#[trigger] tree.entries[j]).name),
                    before.found[k],
                );
            assert(within(join(path, tree.entries[j].name), before.found[k]));
        }
        if before.failure is None {
            lemma_tree_distinct(entry, last, depth, max_depth, policy);
            assert forall|k: int| split <= k < found.len() implies entries_cover(
                tree,
                count,
                path,
                #[trigger] found[k],
            ) by {
                assert(within(join(path, tree.entries[count - 1].name), next.found[k - split]));
            }
            assert forall|a: int, b: int| 0 <= a < b < found.len() implies #[trigger] found[a]
                != #[trigger] found[b] && !beneath(found[b], found[a]) by {
                if a < split <= b {
                    let x = before.found[a];
                    let y = next.found[b - split];
                    lemma_covered_is_apart(tree, (count - 1) as nat, count - 1, path, x);
                    if beneath(y, x) {
                        lemma_within_chain(last, y, x);
                    }
                }
            }
        }
    }
}

/// Where nothing below a match is visited, no path that the scan of a
/// well-formed tree finds lies within another.
pub proof fn lemma_tree_unnested(tree: Tree, path: Seq<char>, depth: nat, max_depth: nat)
    requires
        well_formed(tree),
    ensures
        unnested(scan_tree(tree, path, depth, max_depth, PrunePolicy::MatchedSubtree).found),
    decreases tree, tree.entries.len() + 1,
{
    let found = scan_tree(tree, path, depth, max_depth, PrunePolicy::MatchedSubtree).found;
    if found.len() > 1 {
        lemma_entries_unnested(tree, tree.entries.len(), path, depth + 1, max_depth);
    }
}

/// Where nothing below a match is visited, no path that the scan of a
/// well-formed directory's entries finds lies within another.
pub proof fn lemma_entries_unnested(
    tree: Tree,
    count: nat,
    path: Seq<char>,
    depth: nat,
    max_depth: nat,
)
    requires
        well_formed(tree),
        count <= tree.entries.len(),
    ensures
        unnested(
            scan_entries(tree, count, path, depth, max_depth, PrunePolicy::MatchedSubtree).found,
        ),
    decreases tree, count,
{
    let policy = PrunePolicy::MatchedSubtree;
    if count > 0 {
        let found = scan_entries(tree, count, path, depth, max_depth, policy).found;
        let before = scan_entries(tree, (count - 1) as nat, path, depth, max_depth, policy);
        let entry = tree.entries[count - 1];
        let last = join(path, entry.name);
        let next = scan_tree(entry, last, depth, max_depth, policy);
        let split = before.found.len() as int;
        lemma_entries_unnested(tree, (count - 1) as nat, path, depth, max_depth);
        if before.failure is None {
            lemma_tree_unnested(entry, last, depth, max_depth);
            lemma_entries_distinct(tree, (count - 1) as nat, path, depth, max_depth, policy);
            lemma_tree_distinct(entry, last, depth, max_depth, policy);
            assert forall|a: int, b: int|
                0 <= a < found.len() && 0 <= b < found.len() && a != b implies !within(
                found[a],
                found[b],
            ) by {
                if (a < split) != (b < split) {
                    let early = if a < split {
                        a
                    } else {
                        b
                    };
                    let late = if a < split {
                        b
                    } else {
                        a
                    };
                    let x = before.found[early];
                    let y = next.found[late - split];
                    let j = choose|j: int|
                        0 <= j < count - 1 && j < tree.entries.len() && within(
                            join(path, (#[trigger] tree.entries[j]).name),
                            x,
                        );
                    let other = join(path, tree.entries[j].name);
                    if within(found[a], found[b]) {
                        if a < split {
                            lemma_within_chain(other, x, y);
                            lemma_entries_apart(path, tree.entries[j].name, entry.name, y);
                        } else {
                            lemma_within_chain(last, y, x);
                            lemma_entries_apart(path, tree.entries[j].name, entry.name, x);
                        }
                    }
                }
            }
        }
    }
}

/// In a well-formed tree, a repository root that lies in a tree has a path
/// within the tree's path, and beneath it unless it is the tree itself.
pub proof fn lemma_repository_lies_within(
    tree: Tree,
    path: Seq<char>,
    level: nat,
    target: Seq<char>,
)
    requires
        well_formed(tree),
        repository_at(tree, path, level, target),
    ensures
        within(path, target),
        level > 0 ==> beneath(path, target),
    decreases tree,
{
    if level > 0 {
        let i = choose|i: int|
            0 <= i < tree.entries.len() && repository_at(
                #[trigger] tree.entries[i],
                join(path, tree.entries[i].name),
                (level - 1) as nat,
                target,
            );
        let entry = tree.entries[i];
        lemma_repository_lies_within(entry, join(path, entry.name), (level - 1) as nat, target);
        lemma_within_entry_is_beneath(path, entry.name, target);
    }
}

/// In a well-formed tree, a path names a repository root at one level only.
pub proof fn lemma_one_level(
    tree: Tree,
    path: Seq<char>,
    first: nat,
    second: nat,
    target: Seq<char>,
)
    requires
        well_formed(tree),
        repository_at(tree, path, first, target),
        repository_at(tree, path, second, target),
    ensures
        first == second,
    decreases tree,
{
    lemma_repository_lies_within(tree, path, first, target);
    lemma_repository_lies_within(tree, path, second, target);
    if first > 0 && second > 0 {
        let i = choose|i: int|
            0 <= i < tree.entries.len() && repository_at(
                #[trigger] tree.entries[i],
                join(path, tree.entries[i].name),
                (first - 1) as nat,
                target,
            );
        let j = choose|j: int|
            0 <= j < tree.entries.len() && repository_at(
                #[trigger] tree.entries[j],
                join(path, tree.entries[j].name),
                (second - 1) as nat,
                target,
            );
        let one = tree.entries[i];
        let other = tree.entries[j];
        lemma_repository_lies_within(one, join(path, one.name), (first - 1) as nat, target);
        lemma_repository_lies_within(other, join(path, other.name), (second - 1) as nat, target);
        if i != j {
            assert(one.name != other.name);
            lemma_entries_apart(path, one.name, other.name, target);
        }
        lemma_one_level(one, join(path, one.name), (first - 1) as nat, (second - 1) as nat, target);
    }
}

/// A scan of a directory's entries that does not fail holds the whole scan
/// of each of them, which did not fail either.
pub proof fn lemma_entries_hold_each(
    tree: Tree,
    count: nat,
    path: Seq<char>,
    depth: nat,
    max_depth: nat,
    policy: PrunePolicy,
    i: int,
    target: Seq<char>,
)
    requires
        0 <= i < count <= tree.entries.len(),
        scan_entries(tree, count, path, depth, max_depth, policy).failure is None,
    ensures
        scan_tree(
            tree.entries[i],
            join(path, tree.entries[i].name),
            depth,
            max_depth,
            policy,
        ).failure is None,
        scan_tree(
            tree.entries[i],
            join(path, tree.entries[i].name),
            depth,
            max_depth,
            policy,
        ).found.contains(target) ==> scan_entries(
            tree,
            count,
            path,
            depth,
            max_depth,
            policy,
        ).found.contains(target),
    decreases count,
{
    let all = scan_entries(tree, count, path, depth, max_depth, policy);
    let before = scan_entries(tree, (count - 1) as nat, path, depth, max_depth, policy);
    let entry = tree.entries[count - 1];
    let next = scan_tree(entry, join(path, entry.name), depth, max_depth, policy);
    if i < count - 1 {
        lemma_entries_hold_each(
            tree,
            (count - 1) as nat,
            path,
            depth,
            max_depth,
            policy,
            i,
            target,
        );
        if before.found.contains(target) {
            let k = choose|k: int| 0 <= k < before.found.len() && before.found[k] == target;
            assert(all.found[k] == target);
        }
    } else if next.found.contains(target) {
        let k = choose|k: int| 0 <= k < next.found.len() && next.found[k] == target;
        assert(all.found[before.found.len() + k] == target);
    }
}

/// A scan of a tree that does not fail finds every repository root that it
/// reaches.
pub proof fn lemma_tree_complete(
    tree: Tree,
    path: Seq<char>,
    depth: nat,
    level: nat,
    max_depth: nat,
    policy: PrunePolicy,
    target: Seq<char>,
)
    requires
        visible_at(tree, path, depth, level, max_depth, policy, target),
        scan_tree(tree, path, depth, max_depth, policy).failure is None,
    ensures
        scan_tree(tree, path, depth, max_depth, policy).found.contains(target),
    decreases tree,
{
    let found = scan_tree(tree, path, depth, max_depth, policy).found;
    let own = own_match(tree, path);
    if level == 0 {
        assert(found[0] == target);
    } else {
        let i = choose|i: int|
            0 <= i < tree.entries.len() && visible_at(
                #[trigger] tree.entries[i],
                join(path, tree.entries[i].name),
                depth + 1,
                (level - 1) as nat,
                max_depth,
                policy,
                target,
            );
        let entry = tree.entries[i];
        let below = scan_entries(tree, tree.entries.len(), path, depth + 1, max_depth, policy);
        lemma_entries_hold_each(
            tree,
            tree.entries.len(),
            path,
            depth + 1,
            max_depth,
            policy,
            i,
            target,
        );
        lemma_tree_complete(
            entry,
            join(path, entry.name),
            depth + 1,
            (level - 1) as nat,
            max_depth,
            policy,
            target,
        );
        let k = choose|k: int| 0 <= k < below.found.len() && below.found[k] == target;
        assert(found[own.len() + k] == target);
    }
}

} // verus!
