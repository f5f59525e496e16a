//! The text that reports a scan's result.

use crate::path::texts;
use vstd::prelude::*;
use vstd::string::StringExecFns;

verus! {

/// One line for each path, in order, each ended by a line feed.
pub open spec fn lines(paths: Seq<Seq<char>>) -> Seq<char>
    decreases paths.len(),
{
    if paths.len() == 0 {
        Seq::empty()
    } else {
        lines(paths.drop_last()) + paths.last() + seq!['\n']
    }
}

/// The report of a scan: each path on a line of its own, in the order given.
pub fn render_lines(paths: &Vec<String>) -> (text: String)
    ensures
        text@ == lines(texts(paths@)),
{
    let mut text = String::new();
    let mut i: usize = 0;
    while i < paths.len()
        invariant
            i <= paths.len(),
            text@ == lines(texts(paths@).take(i as int)),
        decreases paths.len() - i,
    {
        proof {
            reveal_strlit("\n");
            let ghost head = texts(paths@).take(i + 1);
            assert(head.drop_last() =~= texts(paths@).take(i as int));
        }
        text.append(paths[i].as_str());
        text.append("\n");
        i = i + 1;
    }
    assert(texts(paths@).take(i as int) =~= texts(paths@));
    text
}

} // verus!
