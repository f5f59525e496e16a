//! What a scan of a directory tree yields, as a mathematical definition.

use crate::path::{join, marker_name, texts};
use crate::request::{Fault, PrunePolicy, Request, ScanError};
use crate::tree::{has_marker, is_directory, Tree};
use vstd::prelude::*;

verus! {

/// What a scan, or a part of one, yields: the repository roots found, in the
/// order of the walk, and the path at which the scan failed, if it did.
pub struct Outcome {
    pub found: Seq<Seq<char>>,
    pub failure: Option<Seq<char>>,
}

/// Nothing found and nothing failed.
pub open spec fn nothing() -> Outcome {
    Outcome { found: Seq::empty(), failure: None }
}

/// The path of a directory that is a repository root, alone; else nothing.
pub open spec fn own_match(tree: Tree, path: Seq<char>) -> Seq<Seq<char>> {
    if has_marker(tree) {
        seq![path]
    } else {
        Seq::empty()
    }
}

/// The scan of `tree`, which has the path `path` and lies `depth` levels
/// below the scan's root.
///
/// Nothing beyond the depth bound is visited. An entry of which nothing can
/// be read fails the scan. An entry below the root that bears the marker
/// name, and any entry that is no directory, yields nothing. A directory is a
/// match if it directly contains the marker. Its entries are scanned in
/// listing order, unless it lies at the depth bound or it is a match and the
/// policy hides what a match holds; a directory that has to be listed and
/// cannot be fails the scan.
pub open spec fn scan_tree(
    tree: Tree,
    path: Seq<char>,
    depth: nat,
    max_depth: nat,
    policy: PrunePolicy,
) -> Outcome
    decreases tree, tree.entries.len() + 1,
{
    if depth > max_depth {
        nothing()
    } else if tree.kind is Missing {
        Outcome { found: Seq::empty(), failure: Some(path) }
    } else if (depth > 0 && tree.name == marker_name()) || !is_directory(tree) {
        nothing()
    } else if depth >= max_depth || (has_marker(tree) && policy is MatchedSubtree) {
        Outcome { found: own_match(tree, path), failure: None }
    } else if tree.kind is Locked {
        Outcome { found: own_match(tree, path), failure: Some(path) }
    } else {
        let below = scan_entries(tree, tree.entries.len(), path, depth + 1, max_depth, policy);
        Outcome { found: own_match(tree, path) + below.found, failure: below.failure }
    }
}

/// The scan of the first `count` entries of `tree`, which has the path
/// `path`; the entries lie `depth` levels below the scan's root. The first
/// failure ends it.
pub open spec fn scan_entries(
    tree: Tree,
    count: nat,
    path: Seq<char>,
    depth: nat,
    max_depth: nat,
    policy: PrunePolicy,
) -> Outcome
    decreases tree, count,
{
    if count == 0 || count > tree.entries.len() {
        nothing()
    } else {
        let before = scan_entries(tree, (count - 1) as nat, path, depth, max_depth, policy);
        if before.failure is Some {
            before
        } else {
            let entry = tree.entries[count - 1];
            let next = scan_tree(entry, join(path, entry.name), depth, max_depth, policy);
            Outcome { found: before.found + next.found, failure: next.failure }
        }
    }
}

/// The scan that `request` asks for, of the tree found at its root path.
pub open spec fn scan(root: Tree, request: Request) -> Outcome {
    scan_tree(root, request.root_path, 0, request.max_depth, request.policy)
}

/// `result` says what `outcome` holds: the paths found if nothing failed,
/// else the error that names the path of the failure.
pub open spec fn reports(result: Result<Vec<String>, ScanError>, outcome: Outcome) -> bool {
    match result {
        Ok(paths) => outcome.failure is None && texts(paths@) == outcome.found,
        Err(error) => outcome.failure is Some && error@ == (Fault::Io {
            path: outcome.failure->0,
        }),
    }
}

/// `target` is the path of a repository root exactly `level` levels below
/// `tree` that a scan reaches: `tree`, at `depth` with the path `path`, and
/// every directory on the way down lie within the depth bound, do not bear
/// the marker name below the scan's root, and, but for the repository root
/// itself, can be listed and may be entered under the policy.
pub open spec fn visible_at(
    tree: Tree,
    path: Seq<char>,
    depth: nat,
    level: nat,
    max_depth: nat,
    policy: PrunePolicy,
    target: Seq<char>,
) -> bool
    decreases tree,
{
    &&& depth <= max_depth
    &&& !(depth > 0 && tree.name == marker_name())
    &&& is_directory(tree)
    &&& if level == 0 {
        target == path && has_marker(tree)
    } else {
        &&& tree.kind is Directory
        &&& depth < max_depth
        &&& !(has_marker(tree) && policy is MatchedSubtree)
        &&& exists|i: int|
            0 <= i < tree.entries.len() && visible_at(
                #[trigger] tree.entries[i],
                join(path, tree.entries[i].name),
                depth + 1,
                (level - 1) as nat,
                max_depth,
                policy,
                target,
            )
    }
}

/// Once the scan of a directory's entries has failed, further entries change
/// nothing.
pub proof fn lemma_failure_ends_entries(
    tree: Tree,
    count: nat,
    more: nat,
    path: Seq<char>,
    depth: nat,
    max_depth: nat,
    policy: PrunePolicy,
)
    requires
        count <= more <= tree.entries.len(),
        scan_entries(tree, count, path, depth, max_depth, policy).failure is Some,
    ensures
        scan_entries(tree, more, path, depth, max_depth, policy) == scan_entries(
            tree,
            count,
            path,
            depth,
            max_depth,
            policy,
        ),
    decreases more,
{
    if more > count {
        lemma_failure_ends_entries(tree, count, (more - 1) as nat, path, depth, max_depth, policy);
    }
}

} // verus!
