use repo_scan::{
    find_git_repos, is_git_directory, run, EntryKind, Node, PrunePolicy, ScanError, ScanRequest,
};

fn dir(name: &str, entries: Vec<Node>) -> Node {
    Node::directory(name, entries)
}

fn repo(name: &str, mut entries: Vec<Node>) -> Node {
    entries.insert(0, dir(".git", vec![Node::file("HEAD")]));
    dir(name, entries)
}

fn request(root: &str, max_depth: usize) -> ScanRequest {
    ScanRequest::new(root, max_depth).unwrap()
}

#[test]
fn marker_may_be_a_file() {
    let root = dir("tmp", vec![Node::file(".git")]);
    assert!(is_git_directory(&root));
}

#[test]
fn file_is_no_repository_whatever_it_holds() {
    let odd = Node::new("odd", EntryKind::File, vec![Node::file(".git")]);
    assert!(!is_git_directory(&odd));
    let repos = find_git_repos(&request("R", 4), &dir("R", vec![odd])).unwrap();
    assert!(repos.is_empty());
}

#[test]
fn marker_name_must_match_whole() {
    let root = dir("tmp", vec![dir("x.git", vec![]), dir(".gitignore", vec![]), dir(".gi", vec![])]);
    assert!(!is_git_directory(&root));
}

#[test]
fn bound_zero_hides_first_level_and_bound_one_shows_it() {
    let root = dir("R", vec![repo("a", vec![])]);
    assert_eq!(find_git_repos(&request("R", 0), &root).unwrap(), Vec::<String>::new());
    assert_eq!(find_git_repos(&request("R", 1), &root).unwrap(), vec!["R/a".to_string()]);
}

#[test]
fn deep_repository_is_hidden_beside_a_shallow_one() {
    let root = dir("R", vec![repo("a", vec![]), dir("b", vec![dir("c", vec![repo("d", vec![])])])]);
    assert_eq!(find_git_repos(&request("R", 2), &root).unwrap(), vec!["R/a".to_string()]);
    assert_eq!(
        find_git_repos(&request("R", 3), &root).unwrap(),
        vec!["R/a".to_string(), "R/b/c/d".to_string()]
    );
}

#[test]
fn empty_root_is_no_error() {
    let root = dir("R", vec![]);
    assert_eq!(find_git_repos(&request("R", 4), &root), Ok(vec![]));
}

#[test]
fn missing_root_is_an_error() {
    let root = Node::new("R", EntryKind::Missing, vec![]);
    for depth in [0usize, 1, 4] {
        assert_eq!(
            find_git_repos(&request("R", depth), &root),
            Err(ScanError::Io { path: "R".to_string() })
        );
    }
}

#[test]
fn locked_root_is_an_error_where_it_must_be_listed() {
    let root = Node::new("R", EntryKind::Locked, vec![]);
    assert_eq!(
        find_git_repos(&request("R", 1), &root),
        Err(ScanError::Io { path: "R".to_string() })
    );
    assert_eq!(find_git_repos(&request("R", 0), &root), Ok(vec![]));
}

#[test]
fn locked_match_is_reported_where_matches_are_not_entered() {
    let root = Node::new("R", EntryKind::Locked, vec![dir(".git", vec![])]);
    assert_eq!(find_git_repos(&request("R", 3), &root), Ok(vec!["R".to_string()]));
    let nested = request("R", 3).with_policy(PrunePolicy::MarkerOnly);
    assert_eq!(find_git_repos(&nested, &root), Err(ScanError::Io { path: "R".to_string() }));
}

#[test]
fn two_repositories_in_listing_order() {
    let root = dir("R", vec![repo("a", vec![]), dir("b", vec![repo("c", vec![])])]);
    assert_eq!(
        find_git_repos(&request("R", 4), &root).unwrap(),
        vec!["R/a".to_string(), "R/b/c".to_string()]
    );
}

#[test]
fn listing_order_is_kept_not_sorted() {
    let root = dir("R", vec![repo("z", vec![]), repo("a", vec![])]);
    assert_eq!(
        find_git_repos(&request("R", 4), &root).unwrap(),
        vec!["R/z".to_string(), "R/a".to_string()]
    );
}

#[test]
fn root_itself_is_a_repository() {
    let root = repo("R", vec![]);
    assert_eq!(find_git_repos(&request("R", 4), &root).unwrap(), vec!["R".to_string()]);
    assert_eq!(find_git_repos(&request("R", 0), &root).unwrap(), vec!["R".to_string()]);
}

#[test]
fn nested_repository_is_hidden_below_a_match() {
    let root = dir("R", vec![repo("a", vec![repo("sub", vec![])])]);
    assert_eq!(find_git_repos(&request("R", 4), &root).unwrap(), vec!["R/a".to_string()]);
}

#[test]
fn nothing_below_a_match_is_visited() {
    let locked = Node::new("sub", EntryKind::Locked, vec![]);
    let missing = Node::new("gone", EntryKind::Missing, vec![]);
    let root = dir("R", vec![repo("a", vec![locked, missing])]);
    assert_eq!(find_git_repos(&request("R", 4), &root).unwrap(), vec!["R/a".to_string()]);
}

#[test]
fn nested_repository_shows_under_marker_only_policy() {
    let root = dir("R", vec![repo("a", vec![repo("sub", vec![])])]);
    let nested = request("R", 4).with_policy(PrunePolicy::MarkerOnly);
    assert_eq!(
        find_git_repos(&nested, &root).unwrap(),
        vec!["R/a".to_string(), "R/a/sub".to_string()]
    );
}

#[test]
fn marker_directory_is_not_entered() {
    let inner = dir(".git", vec![repo("modules", vec![]), Node::new("x", EntryKind::Missing, vec![])]);
    let root = dir("R", vec![dir("a", vec![inner])]);
    let nested = request("R", 9).with_policy(PrunePolicy::MarkerOnly);
    assert_eq!(find_git_repos(&nested, &root).unwrap(), vec!["R/a".to_string()]);
}

#[test]
fn root_named_as_the_marker_is_scanned() {
    let root = dir(".git", vec![repo("a", vec![])]);
    assert_eq!(find_git_repos(&request(".git", 2), &root).unwrap(), vec![".git/a".to_string()]);
}

#[test]
fn first_failure_ends_the_scan() {
    let root = dir(
        "R",
        vec![
            repo("a", vec![]),
            dir("b", vec![Node::new("c", EntryKind::Locked, vec![])]),
            Node::new("d", EntryKind::Missing, vec![]),
        ],
    );
    assert_eq!(
        find_git_repos(&request("R", 4), &root),
        Err(ScanError::Io { path: "R/b/c".to_string() })
    );
    assert_eq!(
        find_git_repos(&request("R", 1), &root),
        Err(ScanError::Io { path: "R/d".to_string() })
    );
}

#[test]
fn locked_directory_at_the_bound_is_not_listed() {
    let root = dir("R", vec![dir("b", vec![Node::new("c", EntryKind::Locked, vec![])])]);
    assert_eq!(find_git_repos(&request("R", 2), &root), Ok(vec![]));
    assert_eq!(
        find_git_repos(&request("R", 3), &root),
        Err(ScanError::Io { path: "R/b/c".to_string() })
    );
}

#[test]
fn scan_twice_gives_the_same() {
    let root = dir("R", vec![repo("a", vec![]), dir("b", vec![repo("c", vec![])]), Node::file("f")]);
    let first = find_git_repos(&request("R", 4), &root);
    let second = find_git_repos(&request("R", 4), &root);
    assert_eq!(first, second);
    assert_eq!(first.unwrap().len(), 2);
}

#[test]
fn no_path_is_returned_twice() {
    let root = dir(
        "R",
        vec![repo("a", vec![]), dir("a.d", vec![repo("a", vec![])]), dir("b", vec![repo("a", vec![])])],
    );
    let found = find_git_repos(&request("R", 4), &root).unwrap();
    assert_eq!(found, vec!["R/a".to_string(), "R/a.d/a".to_string(), "R/b/a".to_string()]);
    for i in 0..found.len() {
        for j in 0..i {
            assert_ne!(found[i], found[j]);
        }
    }
}

#[test]
fn empty_root_path_is_refused() {
    assert_eq!(ScanRequest::new("", 4).err(), Some(ScanError::InvalidArgument));
    let root = repo("R", vec![]);
    assert_eq!(
        run("", 4, PrunePolicy::MatchedSubtree, &root),
        Err(ScanError::InvalidArgument)
    );
}

#[test]
fn run_reports_one_path_on_each_line() {
    let root = dir("R", vec![repo("a", vec![]), dir("b", vec![repo("c", vec![])])]);
    assert_eq!(
        run("R", 4, PrunePolicy::MatchedSubtree, &root),
        Ok("R/a\nR/b/c\n".to_string())
    );
    assert_eq!(run("R", 0, PrunePolicy::MatchedSubtree, &root), Ok(String::new()));
}

#[test]
fn run_passes_the_failure_on() {
    let root = Node::new("R", EntryKind::Missing, vec![]);
    assert_eq!(
        run("nowhere", 4, PrunePolicy::MatchedSubtree, &root),
        Err(ScanError::Io { path: "nowhere".to_string() })
    );
}

#[test]
fn run_follows_the_policy() {
    let root = dir("R", vec![repo("a", vec![repo("sub", vec![])])]);
    assert_eq!(run("R", 4, PrunePolicy::MarkerOnly, &root), Ok("R/a\nR/a/sub\n".to_string()));
    assert_eq!(run("R", 4, PrunePolicy::MatchedSubtree, &root), Ok("R/a\n".to_string()));
}

#[test]
fn well_formed_trees_are_told_apart() {
    let good = dir("R", vec![repo("a", vec![]), dir("b", vec![repo("a", vec![])]), Node::file("c")]);
    assert!(good.is_well_formed());
    assert!(dir("", vec![]).is_well_formed());
    assert!(Node::file("x/y").is_well_formed());

    assert!(!dir("R", vec![Node::file("a"), dir("a", vec![])]).is_well_formed());
    assert!(!dir("R", vec![Node::file("a"), Node::file("b"), Node::file("a")]).is_well_formed());
    assert!(!dir("R", vec![Node::file("a/b")]).is_well_formed());
    assert!(!dir("R", vec![Node::file("")]).is_well_formed());
    assert!(!dir("R", vec![dir("a", vec![dir("b", vec![Node::file("/")])])]).is_well_formed());
}

#[test]
fn entries_with_one_name_give_one_path_twice() {
    let root = dir("R", vec![repo("a", vec![]), repo("a", vec![])]);
    assert!(!root.is_well_formed());
    assert_eq!(
        find_git_repos(&request("R", 4), &root).unwrap(),
        vec!["R/a".to_string(), "R/a".to_string()]
    );
}

#[test]
fn separator_in_a_name_feigns_depth() {
    let root = dir("R", vec![repo("a/b", vec![])]);
    assert!(!root.is_well_formed());
    assert_eq!(find_git_repos(&request("R", 1), &root).unwrap(), vec!["R/a/b".to_string()]);
}

#[test]
fn locked_root_under_bound_zero_is_a_silent_success() {
    let root = Node::new("R", EntryKind::Locked, vec![]);
    assert_eq!(find_git_repos(&request("R", 0), &root), Ok(vec![]));
}
