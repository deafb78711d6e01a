//! The text of the tree that is shown while a walk goes on.

use vstd::prelude::*;

verus! {

/// The blanks in front of a directory at `depth`: two for each level.
pub open spec fn indentation(depth: nat) -> Seq<char> {
    Seq::new(2 * depth, |i: int| ' ')
}

/// The line shown for the directory at `path`, `indent` levels below the root of the walk:
/// two blanks for each level, then the path.
pub fn folder_tree_line(indent: usize, path: &str) -> (line: String)
    ensures
        line@ == indentation(indent as nat) + path@,
{
    let mut line = String::new();
    let mut level: usize = 0;
    while level < indent
        invariant
            level <= indent,
            line@ == indentation(level as nat),
        decreases indent - level,
    {
        proof {
            reveal_strlit("  ");
        }
        line.append("  ");
        assert(line@ =~= indentation((level + 1) as nat));
        level += 1;
    }
    line.append(path);
    line
}

} // verus!
