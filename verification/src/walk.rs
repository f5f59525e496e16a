//! A scan of a directory tree held in memory.

use crate::outcome::{
    lemma_failure_ends_entries, own_match, reports, scan, scan_entries, scan_tree, Outcome,
};
use crate::path::{join, join_path};
use crate::report::{lines, render_lines};
use crate::request::{Fault, PrunePolicy, ScanError, ScanRequest};
use crate::scanner::{is_idle, DirectoryEntry, Scanner, State, WalkAction, WalkEvent};
use crate::tree::{is_git_directory, EntryKind, Node, Tree};
use vstd::prelude::*;
use vstd::string::StringExecFns;

verus! {

/// The state of a scan that has taken in what a part of the walk yields.
pub open spec fn absorb(state: State, outcome: Outcome) -> State {
    State {
        found: state.found + outcome.found,
        failure: outcome.failure,
        pending: None,
        ..state
    }
}

/// Walks `node`, which has the path `path` and lies at `depth`, as a walker
/// of the file system would: it delivers the entry, then what the scanner
/// asks for, and enters the directory only where the scanner lets it.
fn walk_node(scanner: &mut Scanner, node: &Node, path: &str, depth: usize)
    requires
        is_idle(old(scanner)@),
        depth <= old(scanner)@.max_depth,
        old(scanner)@.max_depth <= usize::MAX,
    ensures
        final(scanner)@ == absorb(
            old(scanner)@,
            scan_tree(
                node@,
                path@,
                depth as nat,
                old(scanner)@.max_depth,
                old(scanner)@.policy,
            ),
        ),
    decreases *node,
{
    let ghost before = scanner@;
    proof {
        node.lemma_view();
    }
    if matches!(node.kind, EntryKind::Missing) {
        scanner.step(WalkEvent::Failure(String::from_str(path)));
        return ;
    }
    let entry = DirectoryEntry {
        path: String::from_str(path),
        name: node.name.clone(),
        depth,
        is_directory: node.is_dir(),
    };
    let action = scanner.step(WalkEvent::Entry(entry));
    if !matches!(action, WalkAction::ProbeMarker) {
        return ;
    }
    let present = is_git_directory(node);
    let action = scanner.step(WalkEvent::Probed(present));
    let ghost own = own_match(node@, path@);
    assert(scanner@.found =~= before.found + own);
    if !matches!(action, WalkAction::Advance) {
        return ;
    }
    if matches!(node.kind, EntryKind::Locked) {
        scanner.step(WalkEvent::Failure(String::from_str(path)));
        return ;
    }
    let ghost entered = scanner@;
    let mut i: usize = 0;
    while i < node.entries.len() && !scanner.has_failed()
        invariant
            i <= node.entries.len(),
            node@.entries.len() == node.entries.len(),
            depth < before.max_depth <= usize::MAX,
            is_idle(entered),
            entered.max_depth == before.max_depth,
            entered.policy == before.policy,
            scanner@ == absorb(
                entered,
                scan_entries(
                    node@,
                    i as nat,
                    path@,
                    (depth + 1) as nat,
                    before.max_depth,
                    before.policy,
                ),
            ),
        decreases node.entries.len() - i,
    {
        let child = &node.entries[i];
        let ghost so_far = scan_entries(
            node@,
            i as nat,
            path@,
            (depth + 1) as nat,
            before.max_depth,
            before.policy,
        );
        proof {
            node.lemma_view();
            child.lemma_view();
        }
        let child_path = join_path(path, child.name.as_str());
        walk_node(scanner, child, child_path.as_str(), depth + 1);
        proof {
            let ghost next = scan_tree(
                child@,
                join(path@, child@.name),
                (depth + 1) as nat,
                before.max_depth,
                before.policy,
            );
            assert((entered.found + so_far.found) + next.found =~= entered.found + (so_far.found
                + next.found));
        }
        i = i + 1;
    }
    proof {
        let ghost all = node.entries.len() as nat;
        if i < node.entries.len() {
            lemma_failure_ends_entries(
                node@,
                i as nat,
                all,
                path@,
                (depth + 1) as nat,
                before.max_depth,
                before.policy,
            );
        }
        let ghost below = scan_entries(
            node@,
            all,
            path@,
            (depth + 1) as nat,
            before.max_depth,
            before.policy,
        );
        assert((before.found + own) + below.found =~= before.found + (own + below.found));
    }
}

/// Finds the repository roots in the tree `root`, which stands for what lies
/// at the request's root path: the scan of [`scan`]. The paths come in the
/// order of a depth-first walk that visits a directory before its entries and
/// the entries in listing order. The first entry that cannot be read fails
/// the whole scan, with the error that names its path.
pub fn find_git_repos(request: &ScanRequest, root: &Node) -> (result: Result<
    Vec<String>,
    ScanError,
>)
    ensures
        reports(result, scan(root@, request@)),
{
    let mut scanner = Scanner::new(request);
    walk_node(&mut scanner, root, request.root_path(), 0);
    scanner.finish()
}

/// What `run` must return for a root path, a depth bound, a policy and the
/// tree at the root path.
pub open spec fn run_returns(
    result: Result<String, ScanError>,
    search_path: Seq<char>,
    max_depth: nat,
    policy: PrunePolicy,
    root: Tree,
) -> bool {
    let outcome = scan_tree(root, search_path, 0, max_depth, policy);
    match result {
        Ok(text) => search_path.len() > 0 && outcome.failure is None && text@ == lines(
            outcome.found,
        ),
        Err(error) => if search_path.len() == 0 {
            error@ == Fault::InvalidArgument
        } else {
            outcome.failure is Some && error@ == (Fault::Io { path: outcome.failure->0 })
        },
    }
}

/// The whole of a scan, from its arguments to the text of its report: the
/// repository roots beneath `search_path`, one on each line. An empty
/// `search_path` is refused before anything is scanned.
pub fn run(search_path: &str, max_depth: usize, policy: PrunePolicy, root: &Node) -> (result:
    Result<String, ScanError>)
    ensures
        run_returns(result, search_path@, max_depth as nat, policy, root@),
{
    let request = match ScanRequest::new(search_path, max_depth) {
        Ok(request) => request.with_policy(policy),
        Err(error) => {
            return Err(error);
        },
    };
    match find_git_repos(&request, root) {
        Ok(paths) => Ok(render_lines(&paths)),
        Err(error) => Err(error),
    }
}

} // verus!
