//! Path strings: the marker name and how a child's path is formed.

use vstd::prelude::*;
use vstd::string::StrSliceExecFns;
use vstd::string::StringExecFns;

verus! {

/// Name of the entry whose presence makes a directory a repository root.
pub const MARKER: &'static str = ".git";

/// The marker name as a sequence of characters.
pub open spec fn marker_name() -> Seq<char> {
    ".git"@
}

/// A path made ready to take a further component: it is empty or ends in a
/// separator.
pub open spec fn stem(path: Seq<char>) -> Seq<char> {
    if path.len() == 0 || path.last() == '/' {
        path
    } else {
        path.push('/')
    }
}

/// The path of the entry `name` in the directory `parent`.
pub open spec fn join(parent: Seq<char>, name: Seq<char>) -> Seq<char> {
    stem(parent) + name
}

/// A name as a directory listing gives it: not empty and free of separators.
pub open spec fn is_component(name: Seq<char>) -> bool {
    name.len() > 0 && forall|i: int| 0 <= i < name.len() ==> name[i] != '/'
}

/// `path` lies somewhere beneath `base`: it is `base`, made ready for a
/// further component, and at least one character more.
pub open spec fn beneath(base: Seq<char>, path: Seq<char>) -> bool {
    path.len() > stem(base).len() && path.subrange(0, stem(base).len() as int) == stem(base)
}

/// `path` is `base` itself or lies somewhere beneath it.
pub open spec fn within(base: Seq<char>, path: Seq<char>) -> bool {
    path == base || beneath(base, path)
}

/// What a sequence of strings holds, as sequences of characters.
pub open spec fn texts(strings: Seq<String>) -> Seq<Seq<char>> {
    Seq::new(strings.len(), |i: int| strings[i]@)
}

/// Every one of `paths` is `base` or lies beneath it.
pub open spec fn all_within(base: Seq<char>, paths: Seq<Seq<char>>) -> bool {
    forall|k: int| 0 <= k < paths.len() ==> within(base, #[trigger] paths[k])
}

/// None of `paths` is another of them or lies beneath another.
pub open spec fn unnested(paths: Seq<Seq<char>>) -> bool {
    forall|a: int, b: int|
        0 <= a < paths.len() && 0 <= b < paths.len() && a != b ==> !within(
            #[trigger] paths[a],
            #[trigger] paths[b],
        )
}

/// None of `paths` lies beneath one that comes after it.
pub open spec fn parents_first(paths: Seq<Seq<char>>) -> bool {
    forall|a: int, b: int|
        0 <= a < b < paths.len() ==> !beneath(#[trigger] paths[b], #[trigger] paths[a])
}

/// What lies within a path that lies within another lies within the other.
pub proof fn lemma_within_chain(outer: Seq<char>, inner: Seq<char>, path: Seq<char>)
    requires
        within(outer, inner),
        within(inner, path),
    ensures
        within(outer, path),
{
    if inner != outer && path != inner {
        let ahead = stem(outer);
        assert forall|k: int| 0 <= k < ahead.len() implies path[k] == ahead[k] by {
            assert(path.subrange(0, stem(inner).len() as int)[k] == path[k]);
        }
        assert(path.subrange(0, ahead.len() as int) =~= ahead);
    }
}

/// A path within an entry of a directory begins with the directory's stem
/// and the entry's name, and either ends there or goes on with a separator.
pub proof fn lemma_within_entry_shape(base: Seq<char>, name: Seq<char>, path: Seq<char>)
    requires
        is_component(name),
        within(join(base, name), path),
    ensures
        path.len() >= stem(base).len() + name.len(),
        forall|k: int| 0 <= k < stem(base).len() ==> path[k] == stem(base)[k],
        forall|k: int| 0 <= k < name.len() ==> path[stem(base).len() + k] == name[k],
        path.len() == stem(base).len() + name.len() || path[(stem(base).len()
            + name.len()) as int] == '/',
{
    let entry = join(base, name);
    if path != entry {
        let ahead = stem(entry);
        assert forall|k: int| 0 <= k < ahead.len() implies path[k] == ahead[k] by {
            assert(path.subrange(0, ahead.len() as int)[k] == path[k]);
        }
    }
}

/// What lies within an entry of a directory lies beneath the directory.
pub proof fn lemma_within_entry_is_beneath(base: Seq<char>, name: Seq<char>, path: Seq<char>)
    requires
        is_component(name),
        within(join(base, name), path),
    ensures
        beneath(base, path),
{
    lemma_within_entry_shape(base, name, path);
    assert(path.subrange(0, stem(base).len() as int) =~= stem(base));
}

/// No path lies within two entries of one directory that differ in name.
pub proof fn lemma_entries_apart(
    base: Seq<char>,
    first: Seq<char>,
    second: Seq<char>,
    path: Seq<char>,
)
    requires
        is_component(first),
        is_component(second),
        first != second,
        within(join(base, first), path),
    ensures
        !within(join(base, second), path),
{
    if within(join(base, second), path) {
        lemma_within_entry_shape(base, first, path);
        lemma_within_entry_shape(base, second, path);
        let start = stem(base).len() as int;
        if first.len() < second.len() {
            assert(path[start + first.len()] == second[first.len() as int]);
        } else if second.len() < first.len() {
            assert(path[start + second.len()] == first[second.len() as int]);
        } else {
            assert(first =~= second);
        }
    }
}

/// Whether `name` is the marker name.
pub fn is_marker(name: &str) -> (b: bool)
    ensures
        b == (name@ == marker_name()),
{
    let marker = MARKER.to_owned();
    let given = name.to_owned();
    marker == given
}

/// Whether `name` can name an entry of a directory: it is not empty and holds
/// no separator.
pub fn is_component_name(name: &str) -> (b: bool)
    ensures
        b == is_component(name@),
{
    let len = name.unicode_len();
    if len == 0 {
        return false;
    }
    let mut i: usize = 0;
    while i < len
        invariant
            i <= len == name@.len(),
            forall|k: int| 0 <= k < i ==> name@[k] != '/',
        decreases len - i,
    {
        if name.get_char(i) == '/' {
            return false;
        }
        i = i + 1;
    }
    true
}

/// Builds the path of the entry `name` in the directory `parent`.
pub fn join_path(parent: &str, name: &str) -> (joined: String)
    ensures
        joined@ == join(parent@, name@),
{
    let len = parent.unicode_len();
    let mut joined = String::from_str(parent);
    if len > 0 && parent.get_char(len - 1) != '/' {
        proof {
            reveal_strlit("/");
        }
        joined.append("/");
    }
    joined.append(name);
    joined
}

} // verus!
