//! Directory trees held in memory.

use crate::path::{is_component, is_component_name, join, marker_name, MARKER};
use vstd::prelude::*;
use vstd::string::StringExecFns;

verus! {

/// What a walker learns of an entry when it reaches it.
#[derive(Debug, Clone, Copy, PartialEq, Eq, Structural)]
pub enum EntryKind {
    /// Anything that is not a directory.
    File,
    /// A directory whose entries can be listed.
    Directory,
    /// A directory whose entries cannot be listed. They are there all the
    /// same, and a probe for the marker finds it among them.
    Locked,
    /// An entry of which nothing can be read; as a root, a path that does not
    /// exist.
    Missing,
}

/// A directory tree as a mathematical value.
pub struct Tree {
    /// The entry's name in its directory.
    pub name: Seq<char>,
    pub kind: EntryKind,
    /// What the entry directly contains, in listing order.
    pub entries: Seq<Tree>,
}

/// A directory tree in memory: an entry with, for a directory, its entries in
/// listing order. It stands for what a walker that follows no links meets at
/// a path and beneath it.
#[derive(Debug, PartialEq, Eq)]
pub struct Node {
    /// The entry's name in its directory. The name of a scan's root plays no
    /// part: the root goes by the path that the request gives.
    pub name: String,
    pub kind: EntryKind,
    /// What the entry directly contains, in listing order.
    pub entries: Vec<Node>,
}

impl View for Node {
    type V = Tree;

    open spec fn view(&self) -> Tree {
        tree_of(*self)
    }
}

/// The tree that a node stands for.
pub open spec fn tree_of(node: Node) -> Tree
    decreases node,
{
    Tree {
        name: node.name@,
        kind: node.kind,
        entries: Seq::new(
            node.entries@.len(),
            |i: int|
                if 0 <= i < node.entries@.len() {
                    tree_of(node.entries@[i])
                } else {
                    arbitrary()
                },
        ),
    }
}

/// The trees that a sequence of nodes stands for.
pub open spec fn trees(nodes: Seq<Node>) -> Seq<Tree> {
    Seq::new(nodes.len(), |i: int| nodes[i]@)
}

/// The entry is a directory, listable or not.
pub open spec fn is_directory(tree: Tree) -> bool {
    tree.kind is Directory || tree.kind is Locked
}

/// The entry directly contains an entry with the marker name.
pub open spec fn has_marker(tree: Tree) -> bool {
    exists|i: int| 0 <= i < tree.entries.len() && (#[trigger] tree.entries[i]).name == marker_name()
}

/// The entry is a repository root: a directory that directly contains the
/// marker.
pub open spec fn is_repository(tree: Tree) -> bool {
    is_directory(tree) && has_marker(tree)
}

/// The tree is one that a file system can hold: in every directory the
/// entries' names are components, and no two entries share a name.
pub open spec fn well_formed(tree: Tree) -> bool
    decreases tree,
{
    &&& forall|i: int|
        0 <= i < tree.entries.len() ==> is_component((#[trigger] tree.entries[i]).name)
    &&& forall|i: int, j: int|
        0 <= i < j < tree.entries.len() ==> (#[trigger] tree.entries[i]).name
            != (#[trigger] tree.entries[j]).name
    &&& forall|i: int| 0 <= i < tree.entries.len() ==> well_formed(#[trigger] tree.entries[i])
}

/// `target` is the path of a repository root that lies exactly `level`
/// levels below `tree`, whose own path is `path`, with listable directories
/// all the way down to it.
pub open spec fn repository_at(tree: Tree, path: Seq<char>, level: nat, target: Seq<char>) -> bool
    decreases tree,
{
    if level == 0 {
        target == path && is_repository(tree)
    } else {
        tree.kind is Directory && exists|i: int|
            0 <= i < tree.entries.len() && repository_at(
                #[trigger] tree.entries[i],
                join(path, tree.entries[i].name),
                (level - 1) as nat,
                target,
            )
    }
}

/// `target` is the path of a repository root in `tree`, whose own path is
/// `path`, at most `levels` levels below it.
pub open spec fn tree_holds(tree: Tree, path: Seq<char>, levels: nat, target: Seq<char>) -> bool {
    exists|level: nat| level <= levels && #[trigger] repository_at(tree, path, level, target)
}

impl Node {
    /// The view of a node holds the views of its entries, in order.
    pub proof fn lemma_view(&self)
        ensures
            self@.name == self.name@,
            self@.kind == self.kind,
            self@.entries == trees(self.entries@),
    {
    }

    /// A node of the given kind.
    pub fn new(name: &str, kind: EntryKind, entries: Vec<Node>) -> (node: Node)
        ensures
            node@ == (Tree { name: name@, kind, entries: trees(entries@) }),
    {
        let node = Node { name: String::from_str(name), kind, entries };
        proof {
            node.lemma_view();
        }
        node
    }

    /// An entry that is not a directory.
    pub fn file(name: &str) -> (node: Node)
        ensures
            node@ == (Tree { name: name@, kind: EntryKind::File, entries: Seq::empty() }),
    {
        let node = Node::new(name, EntryKind::File, Vec::new());
        assert(node@.entries =~= Seq::empty());
        node
    }

    /// A directory with the given entries, in listing order.
    pub fn directory(name: &str, entries: Vec<Node>) -> (node: Node)
        ensures
            node@ == (Tree { name: name@, kind: EntryKind::Directory, entries: trees(entries@) }),
    {
        Node::new(name, EntryKind::Directory, entries)
    }

    /// Whether the tree is one that a file system can hold: whether, in every
    /// directory of it, each entry's name is a component and no two entries
    /// share a name.
    pub fn is_well_formed(&self) -> (b: bool)
        ensures
            b == well_formed(self@),
        decreases self,
    {
        proof {
            self.lemma_view();
        }
        let mut i: usize = 0;
        while i < self.entries.len()
            invariant
                i <= self.entries.len(),
                self@.entries == trees(self.entries@),
                forall|k: int| 0 <= k < i ==> is_component((#[trigger] self@.entries[k]).name),
                forall|k: int| 0 <= k < i ==> well_formed(#[trigger] self@.entries[k]),
                forall|m: int, k: int|
                    0 <= m < k < i ==> (#[trigger] self@.entries[m]).name
                        != (#[trigger] self@.entries[k]).name,
            decreases self.entries.len() - i,
        {
            let entry = &self.entries[i];
            proof {
                entry.lemma_view();
                assert(self@.entries[i as int] == entry@);
            }
            if !is_component_name(entry.name.as_str()) {
                return false;
            }
            let mut j: usize = 0;
            while j < i
                invariant
                    j <= i < self.entries.len(),
                    self@.entries == trees(self.entries@),
                    self@.entries[i as int] == entry@,
                    entry@.name == entry.name@,
                    forall|m: int| 0 <= m < j ==> (#[trigger] self@.entries[m]).name != entry@.name,
                decreases i - j,
            {
                proof {
                    self.entries[j as int].lemma_view();
                }
                if self.entries[j].name == entry.name {
                    assert(self@.entries[j as int].name == self@.entries[i as int].name);
                    return false;
                }
                j = j + 1;
            }
            if !entry.is_well_formed() {
                return false;
            }
            i = i + 1;
        }
        true
    }

    /// Whether the node is a directory, listable or not.
    pub fn is_dir(&self) -> (b: bool)
        ensures
            b == is_directory(self@),
    {
        match self.kind {
            EntryKind::Directory | EntryKind::Locked => true,
            _ => false,
        }
    }
}

/// Whether `node` is a repository root: a directory that directly contains an
/// entry named as the marker, of whatever kind. The entries of anything but a
/// directory are not looked at.
pub fn is_git_directory(node: &Node) -> (b: bool)
    ensures
        b == is_repository(node@),
{
    if !node.is_dir() {
        return false;
    }
    proof {
        node.lemma_view();
    }
    let marker = MARKER.to_owned();
    let mut i: usize = 0;
    while i < node.entries.len()
        invariant
            i <= node.entries.len(),
            marker@ == marker_name(),
            is_directory(node@),
            node@.entries == trees(node.entries@),
            forall|j: int| 0 <= j < i ==> (#[trigger] node@.entries[j]).name != marker_name(),
        decreases node.entries.len() - i,
    {
        proof {
            node.entries[i as int].lemma_view();
        }
        if node.entries[i].name == marker {
            assert(node@.entries[i as int].name == marker_name());
            return true;
        }
        i = i + 1;
    }
    false
}

} // verus!
