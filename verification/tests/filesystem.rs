use repo_scan::{
    find_git_repos, is_git_directory, DirectoryEntry, Node, PrunePolicy, ScanError, ScanRequest,
    Scanner, WalkAction, WalkEvent, MARKER,
};
use std::io::Write;
use std::path::{Path, PathBuf};
use tempfile::{tempdir, Builder};
use walkdir::{DirEntry, WalkDir};

/// Makes the directory `name` in `parent`; the temporary root removes it.
fn make_dir(parent: &Path, name: &str) -> PathBuf {
    let made = Builder::new().prefix(name).rand_bytes(0).keep(true).tempdir_in(parent).unwrap();
    made.path().to_path_buf()
}

/// Makes the file `name` in `parent`; the temporary root removes it.
fn make_file(parent: &Path, name: &str) -> PathBuf {
    let made = Builder::new().prefix(name).rand_bytes(0).keep(true).tempfile_in(parent).unwrap();
    made.path().to_path_buf()
}

fn walker_entered(entry: &DirEntry) -> bool {
    entry.file_type().is_dir()
        || (entry.depth() == 0 && entry.path_is_symlink() && entry.path().is_dir())
}

/// Walks the file system for a scanner and does what it answers.
fn scan_disk(request: &ScanRequest) -> Result<Vec<String>, ScanError> {
    let mut scanner = Scanner::new(request);
    let mut walker = WalkDir::new(request.root_path())
        .max_depth(request.max_depth())
        .follow_links(false)
        .into_iter();
    let mut current: Option<DirEntry> = None;
    let mut action = WalkAction::Advance;
    loop {
        let event = match action {
            WalkAction::Halt => break,
            WalkAction::ProbeMarker => match &current {
                Some(entry) => WalkEvent::Probed(entry.path().join(MARKER).exists()),
                None => WalkEvent::Probed(false),
            },
            WalkAction::Advance | WalkAction::SkipSubtree => {
                if action == WalkAction::SkipSubtree && current.as_ref().is_some_and(walker_entered)
                {
                    walker.skip_current_dir();
                }
                match walker.next() {
                    None => break,
                    Some(Err(error)) => {
                        current = None;
                        WalkEvent::Failure(match error.path() {
                            Some(path) => path.display().to_string(),
                            None => request.root_path().to_string(),
                        })
                    }
                    Some(Ok(entry)) => {
                        let delivered = DirectoryEntry {
                            path: entry.path().display().to_string(),
                            name: entry.file_name().to_string_lossy().into_owned(),
                            depth: entry.depth(),
                            is_directory: entry.path().is_dir(),
                        };
                        current = Some(entry);
                        WalkEvent::Entry(delivered)
                    }
                }
            }
        };
        action = scanner.step(event);
    }
    scanner.finish()
}

fn scan_at(root: &Path, max_depth: usize, policy: PrunePolicy) -> Result<Vec<String>, ScanError> {
    let request = ScanRequest::new(root.to_str().unwrap(), max_depth).unwrap().with_policy(policy);
    scan_disk(&request).map(|mut found| {
        found.sort();
        found
    })
}

fn text(path: &Path) -> String {
    path.display().to_string()
}

/// Whether the directory at `path` is a repository root, as a scan of it
/// alone tells.
fn is_git_directory_on_disk(path: &Path) -> bool {
    scan_at(path, 0, PrunePolicy::MatchedSubtree).unwrap() == vec![text(path)]
}

/// The repository roots beneath `search_path`, found on disk.
fn find_git_repos_on_disk(search_path: &str, max_depth: usize) -> Result<Vec<String>, ScanError> {
    scan_disk(&ScanRequest::new(search_path, max_depth).unwrap())
}

/// The repository roots in `root`, a tree in memory that lies at `search_path`.
fn find_git_repos_in(
    root: &Node,
    search_path: &str,
    max_depth: usize,
) -> Result<Vec<String>, ScanError> {
    find_git_repos(&ScanRequest::new(search_path, max_depth).unwrap(), root)
}

#[test]
fn test_is_git_directory() {
    let temp_dir = tempdir().unwrap();
    let git_dir = make_dir(temp_dir.path(), ".git");
    let mut file =
        Builder::new().prefix("HEAD").rand_bytes(0).keep(true).tempfile_in(&git_dir).unwrap();
    file.write_all(b"ref: refs/heads/main\n").unwrap();
    assert!(is_git_directory_on_disk(temp_dir.path()));

    let in_memory = Node::directory("tmp", vec![Node::directory(".git", vec![Node::file("HEAD")])]);
    assert!(is_git_directory(&in_memory));
}

#[test]
fn test_is_not_git_directory() {
    let temp_dir = tempdir().unwrap();
    assert!(!is_git_directory_on_disk(temp_dir.path()));

    let in_memory = Node::directory("tmp", vec![]);
    assert!(!is_git_directory(&in_memory));
}

#[test]
fn test_find_git_repos() {
    let temp_dir = tempdir().unwrap();
    make_dir(temp_dir.path(), ".git");
    let search_path = temp_dir.path().to_str().unwrap();
    let repos = find_git_repos_on_disk(search_path, 1).unwrap();
    assert_eq!(repos.len(), 1);

    let in_memory = Node::directory("tmp", vec![Node::directory(".git", vec![])]);
    let repos = find_git_repos_in(&in_memory, search_path, 1).unwrap();
    assert_eq!(repos.len(), 1);
    assert_eq!(repos[0], search_path);
}

#[test]
fn test_find_no_git_repos() {
    let temp_dir = tempdir().unwrap();
    let search_path = temp_dir.path().to_str().unwrap();
    let repos = find_git_repos_on_disk(search_path, 1).unwrap();
    assert!(repos.is_empty());

    let repos = find_git_repos_in(&Node::directory("tmp", vec![]), search_path, 1).unwrap();
    assert!(repos.is_empty());
}

#[test]
fn test_find_git_repos_no_results() {
    let temp_dir = tempdir().unwrap();
    let search_path = temp_dir.path().to_str().unwrap();
    let repos = find_git_repos_on_disk(search_path, 1);
    assert!(repos.expect("Failed to read directory entry in").is_empty());

    let repos = find_git_repos_in(&Node::directory("tmp", vec![]), search_path, 1);
    assert!(repos.expect("Failed to read directory entry in").is_empty());
}

#[test]
fn test_find_get_repos_max_depth_no_results() {
    let temp_dir = tempdir().unwrap();
    let outside = make_dir(temp_dir.path(), "outside-search-depth");
    make_dir(&outside, ".git");
    let search_path = temp_dir.path().to_str().unwrap();
    let repos = find_git_repos_on_disk(search_path, 0).unwrap();
    assert!(repos.is_empty());

    let in_memory = Node::directory(
        "tmp",
        vec![Node::directory("outside-search-depth", vec![Node::directory(".git", vec![])])],
    );
    let repos = find_git_repos_in(&in_memory, search_path, 0).unwrap();
    assert!(repos.is_empty());
}

#[test]
fn disk_root_with_marker_is_found() {
    let temp_dir = tempdir().unwrap();
    make_dir(temp_dir.path(), ".git");
    let repos = scan_at(temp_dir.path(), 1, PrunePolicy::MatchedSubtree).unwrap();
    assert_eq!(repos, vec![text(temp_dir.path())]);
}

#[test]
fn disk_empty_root_gives_nothing() {
    let temp_dir = tempdir().unwrap();
    let repos = scan_at(temp_dir.path(), 1, PrunePolicy::MatchedSubtree);
    assert_eq!(repos, Ok(vec![]));
}

#[test]
fn disk_marker_beyond_the_bound_is_not_seen() {
    let temp_dir = tempdir().unwrap();
    let outside = make_dir(temp_dir.path(), "outside-search-depth");
    make_dir(&outside, ".git");
    assert_eq!(scan_at(temp_dir.path(), 0, PrunePolicy::MatchedSubtree), Ok(vec![]));
    assert_eq!(scan_at(temp_dir.path(), 1, PrunePolicy::MatchedSubtree), Ok(vec![text(&outside)]));
}

#[test]
fn disk_two_repositories_are_found() {
    let temp_dir = tempdir().unwrap();
    let a = make_dir(temp_dir.path(), "a");
    make_dir(&a, ".git");
    let b = make_dir(temp_dir.path(), "b");
    let c = make_dir(&b, "c");
    make_dir(&c, ".git");
    make_file(&b, "notes");
    let repos = scan_at(temp_dir.path(), 4, PrunePolicy::MatchedSubtree).unwrap();
    assert_eq!(repos, vec![text(&a), text(&c)]);
    let repos = scan_at(temp_dir.path(), 1, PrunePolicy::MatchedSubtree).unwrap();
    assert_eq!(repos, vec![text(&a)]);
}

#[test]
fn disk_nested_repository_follows_the_policy() {
    let temp_dir = tempdir().unwrap();
    let a = make_dir(temp_dir.path(), "a");
    let marker = make_dir(&a, ".git");
    let hidden = make_dir(&marker, "modules");
    make_dir(&hidden, ".git");
    let sub = make_dir(&a, "sub");
    make_file(&sub, ".git");
    let z = make_dir(temp_dir.path(), "z");
    make_dir(&z, ".git");
    assert_eq!(
        scan_at(temp_dir.path(), 4, PrunePolicy::MatchedSubtree),
        Ok(vec![text(&a), text(&z)])
    );
    assert_eq!(
        scan_at(temp_dir.path(), 4, PrunePolicy::MarkerOnly),
        Ok(vec![text(&a), text(&sub), text(&z)])
    );
}

#[test]
fn disk_file_is_never_a_repository() {
    let temp_dir = tempdir().unwrap();
    let file = make_file(temp_dir.path(), "plain");
    assert_eq!(scan_at(&file, 4, PrunePolicy::MatchedSubtree), Ok(vec![]));
}

#[test]
fn disk_missing_root_is_an_error() {
    let temp_dir = tempdir().unwrap();
    let gone = temp_dir.path().join("not-there");
    for depth in [0usize, 3] {
        assert_eq!(
            scan_at(&gone, depth, PrunePolicy::MatchedSubtree),
            Err(ScanError::Io { path: text(&gone) })
        );
    }
}

#[test]
fn disk_scan_twice_gives_the_same() {
    let temp_dir = tempdir().unwrap();
    let a = make_dir(temp_dir.path(), "a");
    make_dir(&a, ".git");
    let b = make_dir(temp_dir.path(), "b");
    make_dir(&b, ".git");
    let request = ScanRequest::new(temp_dir.path().to_str().unwrap(), 4).unwrap();
    let first = scan_disk(&request);
    let second = scan_disk(&request);
    assert_eq!(first, second);
    assert_eq!(first.unwrap().len(), 2);
}
