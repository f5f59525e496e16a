//! The scanner: the decisions of a scan, taken one walker event at a time.
//!
//! A walker goes through a directory tree depth first, parents before their
//! entries, without following links. It hands each entry to
//! [`Scanner::step`] and does what the answer says before it delivers
//! anything else. Nothing here touches the file system.

use crate::outcome::{reports, Outcome};
use crate::path::{is_marker, marker_name, texts};
use crate::request::{PrunePolicy, ScanError, ScanRequest};
use vstd::prelude::*;

verus! {

/// Room made at the outset for the paths of a scan; more are taken as they
/// come.
pub const INITIAL_CAPACITY: usize = 64;

/// An entry as the walker delivers it.
#[derive(Debug, PartialEq, Eq)]
pub struct DirectoryEntry {
    /// The entry's path, the scan's root path included.
    pub path: String,
    /// The last component of `path`.
    pub name: String,
    /// How many levels the entry lies below the root, which is at depth 0.
    pub depth: usize,
    /// Whether the entry is a directory.
    pub is_directory: bool,
}

/// A delivered entry as a mathematical value.
pub struct Entry {
    pub path: Seq<char>,
    pub name: Seq<char>,
    pub depth: nat,
    pub is_directory: bool,
}

impl View for DirectoryEntry {
    type V = Entry;

    open spec fn view(&self) -> Entry {
        Entry {
            path: self.path@,
            name: self.name@,
            depth: self.depth as nat,
            is_directory: self.is_directory,
        }
    }
}

/// What the walker reports to the scanner.
#[derive(Debug, PartialEq, Eq)]
pub enum WalkEvent {
    /// The walk has reached this entry.
    Entry(DirectoryEntry),
    /// The answer to [`WalkAction::ProbeMarker`]: whether the marker exists
    /// directly in the entry delivered last. Where the scanner awaits no
    /// answer, it changes nothing.
    Probed(bool),
    /// The entry at this path could not be read.
    Failure(String),
}

/// A walker's report as a mathematical value.
pub enum Event {
    Entry(Entry),
    Probed(bool),
    Failure(Seq<char>),
}

impl View for WalkEvent {
    type V = Event;

    open spec fn view(&self) -> Event {
        match self {
            WalkEvent::Entry(entry) => Event::Entry(entry@),
            WalkEvent::Probed(present) => Event::Probed(*present),
            WalkEvent::Failure(path) => Event::Failure(path@),
        }
    }
}

/// What the walker is to do next.
#[derive(Debug, Clone, Copy, PartialEq, Eq, Structural)]
pub enum WalkAction {
    /// Go on with the walk.
    Advance,
    /// Go on, but enter nothing below the entry delivered last.
    SkipSubtree,
    /// Look whether the marker exists directly in the entry delivered last,
    /// and report it with [`WalkEvent::Probed`].
    ProbeMarker,
    /// Stop: the scan has failed.
    Halt,
}

/// The state of a scan as a mathematical value.
pub struct State {
    pub max_depth: nat,
    pub policy: PrunePolicy,
    /// The repository roots found so far, in the order of the walk.
    pub found: Seq<Seq<char>>,
    /// Path and depth of the directory whose probe is awaited.
    pub pending: Option<(Seq<char>, nat)>,
    /// The path at which the scan failed.
    pub failure: Option<Seq<char>>,
}

/// The state in which a scan begins.
pub open spec fn initial(max_depth: nat, policy: PrunePolicy) -> State {
    State { max_depth, policy, found: Seq::empty(), pending: None, failure: None }
}

/// The scan is neither failed nor waiting for a probe.
pub open spec fn is_idle(state: State) -> bool {
    state.failure is None && state.pending is None
}

/// The entry is passed over unexamined: it lies beyond the depth bound, or
/// it bears the marker name below the root.
pub open spec fn is_pruned(entry: Entry, max_depth: nat) -> bool {
    entry.depth > max_depth || (entry.depth > 0 && entry.name == marker_name())
}

/// Nothing below a probed directory at `depth` is entered: it lies at the
/// depth bound, or it is a match and the policy hides what a match holds.
pub open spec fn is_closed(state: State, depth: nat, present: bool) -> bool {
    depth >= state.max_depth || (present && state.policy is MatchedSubtree)
}

/// The state after an event.
pub open spec fn next_state(state: State, event: Event) -> State {
    if state.failure is Some {
        state
    } else {
        match event {
            Event::Failure(path) => State { failure: Some(path), pending: None, ..state },
            Event::Entry(entry) => if is_pruned(entry, state.max_depth) || !entry.is_directory {
                State { pending: None, ..state }
            } else {
                State { pending: Some((entry.path, entry.depth)), ..state }
            },
            Event::Probed(present) => match state.pending {
                Some((path, depth)) => State {
                    found: if present {
                        state.found.push(path)
                    } else {
                        state.found
                    },
                    pending: None,
                    ..state
                },
                None => state,
            },
        }
    }
}

/// The answer to an event.
pub open spec fn answer(state: State, event: Event) -> WalkAction {
    if state.failure is Some {
        WalkAction::Halt
    } else {
        match event {
            Event::Failure(path) => WalkAction::Halt,
            Event::Entry(entry) => if is_pruned(entry, state.max_depth) {
                WalkAction::SkipSubtree
            } else if !entry.is_directory {
                WalkAction::Advance
            } else {
                WalkAction::ProbeMarker
            },
            Event::Probed(present) => match state.pending {
                Some((path, depth)) => if is_closed(state, depth, present) {
                    WalkAction::SkipSubtree
                } else {
                    WalkAction::Advance
                },
                None => WalkAction::Advance,
            },
        }
    }
}

/// What a scan in a given state has yielded.
pub open spec fn yielded(state: State) -> Outcome {
    Outcome { found: state.found, failure: state.failure }
}

/// A scan in progress.
#[derive(Debug)]
pub struct Scanner {
    max_depth: usize,
    policy: PrunePolicy,
    found: Vec<String>,
    pending: Option<(String, usize)>,
    failure: Option<String>,
}

impl View for Scanner {
    type V = State;

    closed spec fn view(&self) -> State {
        State {
            max_depth: self.max_depth as nat,
            policy: self.policy,
            found: texts(self.found@),
            pending: match self.pending {
                Some((path, depth)) => Some((path@, depth as nat)),
                None => None,
            },
            failure: match self.failure {
                Some(path) => Some(path@),
                None => None,
            },
        }
    }
}

impl Scanner {
    /// A scanner for `request`, with nothing found yet.
    pub fn new(request: &ScanRequest) -> (scanner: Scanner)
        ensures
            scanner@ == initial(request@.max_depth, request@.policy),
            scanner@.max_depth <= usize::MAX,
    {
        let scanner = Scanner {
            max_depth: request.max_depth(),
            policy: request.policy(),
            found: Vec::with_capacity(INITIAL_CAPACITY),
            pending: None,
            failure: None,
        };
        assert(scanner@.found =~= Seq::empty());
        scanner
    }

    /// Takes one event of the walk and says what the walker is to do next.
    ///
    /// An entry beyond the depth bound, or one below the root that bears the
    /// marker name, is passed over. Another entry that is no directory is
    /// passed by without a probe. For a directory the scanner asks for a
    /// probe; where the probe finds the marker, the directory's path is
    /// recorded. Nothing is entered below a directory at the depth bound, nor
    /// below a match if the policy says so. The first failure ends the scan:
    /// from then on every answer is [`WalkAction::Halt`] and nothing changes.
    pub fn step(&mut self, event: WalkEvent) -> (action: WalkAction)
        ensures
            final(self)@ == next_state(old(self)@, event@),
            action == answer(old(self)@, event@),
    {
        if self.failure.is_some() {
            return WalkAction::Halt;
        }
        match event {
            WalkEvent::Failure(path) => {
                self.failure = Some(path);
                self.pending = None;
                WalkAction::Halt
            },
            WalkEvent::Entry(entry) => {
                if entry.depth > self.max_depth || (entry.depth > 0 && is_marker(
                    entry.name.as_str(),
                )) {
                    self.pending = None;
                    WalkAction::SkipSubtree
                } else if !entry.is_directory {
                    self.pending = None;
                    WalkAction::Advance
                } else {
                    self.pending = Some((entry.path, entry.depth));
                    WalkAction::ProbeMarker
                }
            },
            WalkEvent::Probed(present) => {
                match self.pending.take() {
                    Some((path, depth)) => {
                        if present {
                            self.found.push(path);
                            assert(texts(self.found@) =~= texts(old(self).found@).push(path@));
                        }
                        let closed = depth >= self.max_depth || (present && matches!(
                            self.policy,
                            PrunePolicy::MatchedSubtree
                        ));
                        if closed {
                            WalkAction::SkipSubtree
                        } else {
                            WalkAction::Advance
                        }
                    },
                    None => WalkAction::Advance,
                }
            },
        }
    }

    /// Whether the scan has failed.
    pub fn has_failed(&self) -> (failed: bool)
        ensures
            failed == (self@.failure is Some),
    {
        self.failure.is_some()
    }

    /// Ends the scan: the repository roots in the order in which they were
    /// found, or, if the scan failed, the error that names the path.
    pub fn finish(self) -> (result: Result<Vec<String>, ScanError>)
        ensures
            reports(result, yielded(self@)),
    {
        match self.failure {
            Some(path) => Err(ScanError::Io { path }),
            None => Ok(self.found),
        }
    }
}

} // verus!
