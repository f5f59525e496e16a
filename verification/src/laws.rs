//! What holds of every scan.

use crate::outcome::{nothing, reports, scan, visible_at};
use crate::path::{beneath, texts, within};
use crate::request::{PrunePolicy, Request, ScanError};
use crate::scanner::{initial, is_pruned, next_state, Event, State};
use crate::subtree::{
    lemma_one_level, lemma_tree_complete, lemma_tree_distinct, lemma_tree_sound,
    lemma_tree_unnested,
};
use crate::tree::{has_marker, repository_at, tree_holds, well_formed, Tree};
use vstd::prelude::*;

verus! {

/// Every path that a scan returns is the path of a directory in the tree
/// that directly contains the marker and lies no deeper below the root than
/// the depth bound.
pub proof fn lemma_found_are_repositories(root: Tree, request: Request, k: int)
    requires
        0 <= k < scan(root, request).found.len(),
    ensures
        tree_holds(root, request.root_path, request.max_depth, scan(root, request).found[k]),
{
    lemma_tree_sound(root, request.root_path, 0, request.max_depth, request.policy, k);
}

/// Under the depth bound 0 a scan returns nothing but the root path.
pub proof fn lemma_bound_zero_sees_root_only(root: Tree, request: Request, k: int)
    requires
        request.max_depth == 0,
        0 <= k < scan(root, request).found.len(),
    ensures
        scan(root, request).found[k] == request.root_path,
{
    lemma_found_are_repositories(root, request, k);
}

/// No path is returned twice by one scan of a well-formed tree.
pub proof fn lemma_found_are_distinct(root: Tree, request: Request, i: int, j: int)
    requires
        well_formed(root),
        0 <= i < j < scan(root, request).found.len(),
    ensures
        scan(root, request).found[i] != scan(root, request).found[j],
{
    lemma_tree_distinct(root, request.root_path, 0, request.max_depth, request.policy);
}

/// A scan of a well-formed tree returns a directory before anything that
/// lies beneath it.
pub proof fn lemma_parents_come_first(root: Tree, request: Request, i: int, j: int)
    requires
        well_formed(root),
        0 <= i < j < scan(root, request).found.len(),
    ensures
        !beneath(scan(root, request).found[j], scan(root, request).found[i]),
{
    lemma_tree_distinct(root, request.root_path, 0, request.max_depth, request.policy);
}

/// Where nothing below a match is visited, no path that a scan of a
/// well-formed tree returns lies within another that it returns: nested
/// repositories stay hidden.
pub proof fn lemma_matches_are_not_nested(root: Tree, request: Request, i: int, j: int)
    requires
        well_formed(root),
        request.policy is MatchedSubtree,
        0 <= i < scan(root, request).found.len(),
        0 <= j < scan(root, request).found.len(),
        i != j,
    ensures
        !within(scan(root, request).found[i], scan(root, request).found[j]),
{
    lemma_tree_unnested(root, request.root_path, 0, request.max_depth);
}

/// A repository root that lies deeper below the root of a well-formed tree
/// than the depth bound is not returned, whatever else the scan finds.
pub proof fn lemma_beyond_bound_not_reported(
    root: Tree,
    request: Request,
    level: nat,
    target: Seq<char>,
)
    requires
        well_formed(root),
        level > request.max_depth,
        repository_at(root, request.root_path, level, target),
    ensures
        !scan(root, request).found.contains(target),
{
    let found = scan(root, request).found;
    if found.contains(target) {
        let k = choose|k: int| 0 <= k < found.len() && found[k] == target;
        lemma_found_are_repositories(root, request, k);
        let seen = choose|seen: nat|
            seen <= request.max_depth && #[trigger] repository_at(
                root,
                request.root_path,
                seen,
                found[k],
            );
        lemma_one_level(root, request.root_path, level, seen, target);
    }
}

/// A scan that does not fail returns every repository root that it reaches:
/// every directory that directly contains the marker and that lies, with all
/// the directories above it, within the depth bound, not under a marker
/// name, and, where the policy hides what a match holds, not below a match.
pub proof fn lemma_visible_are_found(root: Tree, request: Request, level: nat, target: Seq<char>)
    requires
        visible_at(
            root,
            request.root_path,
            0,
            level,
            request.max_depth,
            request.policy,
            target,
        ),
        scan(root, request).failure is None,
    ensures
        scan(root, request).found.contains(target),
{
    lemma_tree_complete(
        root,
        request.root_path,
        0,
        level,
        request.max_depth,
        request.policy,
        target,
    );
}

/// A scan of a root that is an empty directory finds nothing and does not
/// fail.
pub proof fn lemma_empty_root_yields_nothing(root: Tree, request: Request)
    requires
        root.kind is Directory,
        root.entries.len() == 0,
    ensures
        scan(root, request) == nothing(),
{
}

/// A scan whose root cannot be read at all fails, and names the root path.
pub proof fn lemma_missing_root_fails(root: Tree, request: Request)
    requires
        root.kind is Missing,
    ensures
        scan(root, request).failure == Some(request.root_path),
{
}

/// A scan whose root is a directory that cannot be listed fails, and names
/// the root path, wherever the root has to be listed: under a depth bound
/// above 0, unless the root is a match and the policy hides what a match
/// holds.
pub proof fn lemma_locked_root_fails(root: Tree, request: Request)
    requires
        root.kind is Locked,
        request.max_depth > 0,
        !(has_marker(root) && request.policy is MatchedSubtree),
    ensures
        scan(root, request).failure == Some(request.root_path),
{
}

/// Two results agree: the same paths in the same order, or the same error.
pub open spec fn same_result(
    first: Result<Vec<String>, ScanError>,
    second: Result<Vec<String>, ScanError>,
) -> bool {
    match (first, second) {
        (Ok(one), Ok(other)) => texts(one@) == texts(other@),
        (Err(one), Err(other)) => one@ == other@,
        _ => false,
    }
}

/// Two scans of the same tree under the same request return the same: a
/// scan's result depends on nothing else.
pub proof fn lemma_scan_is_repeatable(
    root: Tree,
    request: Request,
    first: Result<Vec<String>, ScanError>,
    second: Result<Vec<String>, ScanError>,
)
    requires
        reports(first, scan(root, request)),
        reports(second, scan(root, request)),
    ensures
        same_result(first, second),
{
}

/// The state of a scanner that has taken the events one after the other.
pub open spec fn after(state: State, events: Seq<Event>) -> State
    decreases events.len(),
{
    if events.len() == 0 {
        state
    } else {
        next_state(after(state, events.drop_last()), events.last())
    }
}

/// The event at `i` delivers a directory with the path `path` that is not
/// passed over, and the event that follows reports the marker in it.
pub open spec fn is_match_at(events: Seq<Event>, max_depth: nat, i: int, path: Seq<char>) -> bool {
    &&& 0 <= i
    &&& i + 1 < events.len()
    &&& events[i] matches Event::Entry(entry) && entry.path == path && entry.is_directory
        && !is_pruned(entry, max_depth)
    &&& events[i + 1] == Event::Probed(true)
}

/// Some event delivers a directory with the path `path` that is not passed
/// over, and the event after it reports the marker in it.
pub open spec fn has_match(events: Seq<Event>, max_depth: nat, path: Seq<char>) -> bool {
    exists|i: int| is_match_at(events, max_depth, i, path)
}

/// What a scanner holds after any events: the paths found are matches, and
/// an awaited probe belongs to the entry delivered last.
spec fn is_faithful(events: Seq<Event>, max_depth: nat, state: State) -> bool {
    &&& state.max_depth == max_depth
    &&& state.failure is Some ==> state.pending is None
    &&& forall|k: int|
        0 <= k < state.found.len() ==> has_match(events, max_depth, #[trigger] state.found[k])
    &&& state.pending matches Some(awaited) ==> events.len() > 0 && (events.last() matches
        Event::Entry(entry) && entry.path == awaited.0 && entry.is_directory && !is_pruned(
        entry,
        max_depth,
    ))
}

/// A scanner stays faithful to the events it has taken.
proof fn lemma_scanner_is_faithful(max_depth: nat, policy: PrunePolicy, events: Seq<Event>)
    ensures
        is_faithful(events, max_depth, after(initial(max_depth, policy), events)),
    decreases events.len(),
{
    if events.len() > 0 {
        let earlier = events.drop_last();
        let before = after(initial(max_depth, policy), earlier);
        let state = after(initial(max_depth, policy), events);
        lemma_scanner_is_faithful(max_depth, policy, earlier);
        assert forall|k: int| 0 <= k < state.found.len() implies has_match(
            events,
            max_depth,
            #[trigger] state.found[k],
        ) by {
            if k < before.found.len() {
                let i = choose|i: int| is_match_at(earlier, max_depth, i, before.found[k]);
                assert(is_match_at(events, max_depth, i, state.found[k]));
            } else {
                let i = earlier.len() - 1;
                assert(is_match_at(events, max_depth, i, state.found[k]));
            }
        }
    }
}

/// Whatever a walker delivers, every path that a scanner records was
/// delivered as a directory that lies within the depth bound and does not
/// bear the marker name below the root, and was then reported to hold the
/// marker.
pub proof fn lemma_scanner_records_matches(
    max_depth: nat,
    policy: PrunePolicy,
    events: Seq<Event>,
    k: int,
)
    requires
        0 <= k < after(initial(max_depth, policy), events).found.len(),
    ensures
        has_match(events, max_depth, after(initial(max_depth, policy), events).found[k]),
{
    lemma_scanner_is_faithful(max_depth, policy, events);
}

} // verus!
