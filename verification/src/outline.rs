//! A subtree drawn as an outline: one node per line, children below their
//! parent and one step further in.

use crate::item::{ItemView, TreeItem};
use vstd::prelude::*;
use vstd::string::StringExecFns;

verus! {

/// What stands before every row: two blanks.
pub open spec fn margin() -> Seq<char> {
    seq![' ', ' ']
}

/// What one level of depth adds before a row: a vertical bar and two blanks.
pub open spec fn bar() -> Seq<char> {
    seq!['\u{2502}', ' ', ' ']
}

/// The branch before the name of a node that has a sibling below it.
pub open spec fn tee() -> Seq<char> {
    seq!['\u{251c}', '\u{2500}', ' ']
}

/// The branch before the name of the last of its siblings.
pub open spec fn corner() -> Seq<char> {
    seq!['\u{2514}', '\u{2500}', ' ']
}

/// The rows of the node `n` and of all below it: its own row, with `indent`
/// and the branch before the name, then the rows of its children, one bar
/// further in.
pub open spec fn row(n: ItemView, indent: Seq<char>, last: bool) -> Seq<char>
    decreases n, 1nat,
{
    indent + (if last {
        corner()
    } else {
        tee()
    }) + n.name + seq!['\n'] + rows(n.children, indent + bar())
}

/// The rows of the nodes of `s`, in order; the last of them has the corner
/// for its branch.
pub open spec fn rows(s: Seq<ItemView>, indent: Seq<char>) -> Seq<char>
    decreases s, 0nat,
{
    if s.len() == 0 {
        Seq::empty()
    } else {
        upper_rows(s.drop_last(), indent) + row(s.last(), indent, true)
    }
}

/// The rows of the nodes of `s`, in order, none of which is the last of its
/// siblings.
pub open spec fn upper_rows(s: Seq<ItemView>, indent: Seq<char>) -> Seq<char>
    decreases s, 0nat,
{
    if s.len() == 0 {
        Seq::empty()
    } else {
        upper_rows(s.drop_last(), indent) + row(s.last(), indent, false)
    }
}

/// The outline of the subtree below `n`: the name of `n` on a line of its
/// own, then the rows of its children.
pub open spec fn outline(n: ItemView) -> Seq<char> {
    n.name + seq!['\n'] + rows(n.children, margin())
}

/// Appends the rows of the children of `item` to `out`.
fn write_rows(item: &TreeItem, indent: &str, out: &mut String)
    ensures
        final(out)@ == old(out)@ + rows(item@.children, indent@),
    decreases item@, 0nat,
{
    let n = item.child_count();
    let ghost s = item@.children;
    let mut i: usize = 0;
    proof {
        assert(s.take(0) =~= Seq::<ItemView>::empty());
        assert(out@ =~= old(out)@ + upper_rows(s.take(0), indent@));
    }
    while n - i > 1
        invariant
            i <= n,
            n > 0 ==> i < n,
            n == s.len(),
            s == item@.children,
            out@ == old(out)@ + upper_rows(s.take(i as int), indent@),
        decreases n - i,
    {
        proof {
            assert(s.take(i + 1).drop_last() =~= s.take(i as int));
            assert(s.take(i + 1).last() == s[i as int]);
        }
        write_row(item.child(i), indent, false, out);
        proof {
            assert(out@ =~= old(out)@ + upper_rows(s.take(i + 1), indent@));
        }
        i += 1;
    }
    if n > 0 {
        proof {
            assert(s.drop_last() =~= s.take(n - 1));
            assert(i == n - 1);
        }
        write_row(item.child(n - 1), indent, true, out);
        proof {
            assert(out@ =~= old(out)@ + rows(s, indent@));
        }
    } else {
        proof {
            assert(out@ =~= old(out)@ + rows(s, indent@));
        }
    }
}

/// Appends the row of `item` and the rows of all below it to `out`.
fn write_row(item: &TreeItem, indent: &str, last: bool, out: &mut String)
    ensures
        final(out)@ == old(out)@ + row(item@, indent@, last),
    decreases item@, 1nat,
{
    proof {
        reveal_strlit("\u{2514}\u{2500} ");
        reveal_strlit("\u{251c}\u{2500} ");
        reveal_strlit("\u{2502}  ");
        reveal_strlit("\n");
        assert("\u{2514}\u{2500} "@ =~= corner());
        assert("\u{251c}\u{2500} "@ =~= tee());
        assert("\u{2502}  "@ =~= bar());
        assert("\n"@ =~= seq!['\n']);
    }
    out.append(indent);
    if last {
        out.append("\u{2514}\u{2500} ");
    } else {
        out.append("\u{251c}\u{2500} ");
    }
    out.append(item.label());
    out.append("\n");
    let mut deeper = String::from_str(indent);
    deeper.append("\u{2502}  ");
    write_rows(item, deeper.as_str(), out);
    proof {
        assert(out@ =~= old(out)@ + row(item@, indent@, last));
    }
}

impl TreeItem {
    /// The subtree below this node as an outline: the name of the node, then
    /// one row for each node below it, children in the order in which they
    /// were added and one step further in than their parent.
    pub fn to_string(&self) -> (r: String)
        ensures
            r@ == outline(self@),
    {
        proof {
            reveal_strlit("\n");
            reveal_strlit("  ");
            assert("\n"@ =~= seq!['\n']);
            assert("  "@ =~= margin());
        }
        let mut out = String::from_str(self.label());
        out.append("\n");
        write_rows(self, "  ", &mut out);
        out
    }
}

} // verus!
