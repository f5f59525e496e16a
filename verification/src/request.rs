//! What a scan is asked to do, and how it can fail.

use vstd::prelude::*;
use vstd::string::StringExecFns;

verus! {

/// The root path used where the caller names none: the current directory.
pub const DEFAULT_SEARCH_PATH: &'static str = ".";

/// The depth bound used where the caller names none.
pub const DEFAULT_MAX_DEPTH: usize = 4;

/// What the scan does below a directory that it has found to be a repository
/// root.
#[derive(Debug, Clone, Copy, PartialEq, Eq, Structural)]
pub enum PrunePolicy {
    /// Nothing below a repository root is visited: nested repositories stay
    /// hidden.
    MatchedSubtree,
    /// Only marker entries are passed over: repositories nested in others
    /// are reported too.
    MarkerOnly,
}

/// Why a scan gave no result.
#[derive(Debug, PartialEq, Eq)]
pub enum ScanError {
    /// The entry at `path` could not be read.
    Io { path: String },
    /// No root path was given.
    InvalidArgument,
}

/// A scan error as a mathematical value.
pub enum Fault {
    Io { path: Seq<char> },
    InvalidArgument,
}

impl View for ScanError {
    type V = Fault;

    open spec fn view(&self) -> Fault {
        match self {
            ScanError::Io { path } => Fault::Io { path: path@ },
            ScanError::InvalidArgument => Fault::InvalidArgument,
        }
    }
}

/// The message that goes with a failure.
pub open spec fn message(failure: Fault) -> Seq<char> {
    match failure {
        Fault::Io { path } => "Failed to read directory entry in "@ + path,
        Fault::InvalidArgument => "No root path was given"@,
    }
}

impl ScanError {
    /// A message for the user; for an unreadable entry it names the path.
    pub fn describe(&self) -> (text: String)
        ensures
            text@ == message(self@),
    {
        match self {
            ScanError::Io { path } => {
                let mut text = String::from_str("Failed to read directory entry in ");
                text.append(path.as_str());
                text
            },
            ScanError::InvalidArgument => String::from_str("No root path was given"),
        }
    }
}

/// A scan request as a mathematical value.
pub struct Request {
    /// The path of the scan's root, which lies at depth 0.
    pub root_path: Seq<char>,
    /// The depth below which nothing is visited.
    pub max_depth: nat,
    /// What the scan does below a match.
    pub policy: PrunePolicy,
}

/// Where to scan, how deep, and what to do below a match. A request always
/// names a root path, and does not change once it is made.
#[derive(Debug, PartialEq, Eq)]
pub struct ScanRequest {
    root_path: String,
    max_depth: usize,
    policy: PrunePolicy,
}

impl View for ScanRequest {
    type V = Request;

    closed spec fn view(&self) -> Request {
        Request {
            root_path: self.root_path@,
            max_depth: self.max_depth as nat,
            policy: self.policy,
        }
    }
}

impl ScanRequest {
    #[verifier::type_invariant]
    spec fn names_a_root(self) -> bool {
        self.root_path@.len() > 0
    }

    /// A request to scan beneath `root_path`, the root being at depth 0, down
    /// to `max_depth`, with nothing visited below a match. An empty root path
    /// is refused.
    pub fn new(root_path: &str, max_depth: usize) -> (made: Result<ScanRequest, ScanError>)
        ensures
            made is Err <==> root_path@.len() == 0,
            made matches Err(error) ==> error@ == Fault::InvalidArgument,
            made matches Ok(request) ==> request@ == (Request {
                root_path: root_path@,
                max_depth: max_depth as nat,
                policy: PrunePolicy::MatchedSubtree,
            }),
    {
        if root_path.is_empty() {
            Err(ScanError::InvalidArgument)
        } else {
            Ok(
                ScanRequest {
                    root_path: String::from_str(root_path),
                    max_depth,
                    policy: PrunePolicy::MatchedSubtree,
                },
            )
        }
    }

    /// The same request with another policy for what lies below a match.
    pub fn with_policy(self, policy: PrunePolicy) -> (changed: ScanRequest)
        ensures
            changed@ == (Request { policy, ..self@ }),
    {
        proof {
            use_type_invariant(&self);
        }
        ScanRequest { root_path: self.root_path, max_depth: self.max_depth, policy }
    }

    /// The path of the scan's root, which is never empty.
    pub fn root_path(&self) -> (path: &str)
        ensures
            path@ == self@.root_path,
            path@.len() > 0,
    {
        proof {
            use_type_invariant(self);
        }
        self.root_path.as_str()
    }

    /// The depth bound.
    pub fn max_depth(&self) -> (bound: usize)
        ensures
            bound == self@.max_depth,
    {
        self.max_depth
    }

    /// What the scan does below a match.
    pub fn policy(&self) -> (policy: PrunePolicy)
        ensures
            policy == self@.policy,
    {
        self.policy
    }
}

} // verus!
