//! Walking from a node down a list of names, to read what stands there or to
//! change it in place.

use crate::disk::Disk;
use crate::error::{ErrorKind, TreeError};
use crate::item::{find_child, find_dir, with_child, ItemView, TreeItem};
use crate::text::{split, split_text, texts};
use vstd::prelude::*;

verus! {

/// `idx` put before the places of a walk that went well; a failure stays as
/// it is.
pub open spec fn prepend(idx: Seq<int>, r: Result<Seq<int>, ErrorKind>) -> Result<
    Seq<int>,
    ErrorKind,
> {
    match r {
        Ok(rest) => Ok(idx + rest),
        Err(k) => Err(k),
    }
}

/// The places of the children that a walk from `n` takes, one name of `segs`
/// after the other, each name selecting a child as `find_child` says. The walk
/// fails where a name selects none, with that failure.
pub open spec fn trail(n: ItemView, segs: Seq<Seq<char>>) -> Result<Seq<int>, ErrorKind>
    decreases segs.len(),
{
    if segs.len() == 0 {
        Ok(Seq::empty())
    } else {
        match find_child(n, segs[0]) {
            Ok(i) => prepend(seq![i], trail(n.children[i], segs.drop_first())),
            Err(k) => Err(k),
        }
    }
}

/// The places of the children that a walk through directories takes: each
/// name of `segs` selects the first child of that name that is a directory.
pub open spec fn dir_trail(n: ItemView, segs: Seq<Seq<char>>, files: Set<Seq<char>>) -> Result<
    Seq<int>,
    ErrorKind,
>
    decreases segs.len(),
{
    if segs.len() == 0 {
        Ok(Seq::empty())
    } else {
        match find_dir(n, segs[0], files) {
            Ok(i) => prepend(seq![i], dir_trail(n.children[i], segs.drop_first(), files)),
            Err(k) => Err(k),
        }
    }
}

/// The node that stands at the places `idx` below `n`.
pub open spec fn node_at(n: ItemView, idx: Seq<int>) -> ItemView
    decreases idx.len(),
{
    if idx.len() == 0 {
        n
    } else {
        node_at(n.children[idx[0]], idx.drop_first())
    }
}

/// `n` with the node at the places `idx` replaced by `new`.
pub open spec fn replace_at(n: ItemView, idx: Seq<int>, new: ItemView) -> ItemView
    decreases idx.len(),
{
    if idx.len() == 0 {
        new
    } else {
        with_child(n, idx[0], replace_at(n.children[idx[0]], idx.drop_first(), new))
    }
}

/// Whether every place of `idx` names a child that is there.
pub open spec fn in_tree(n: ItemView, idx: Seq<int>) -> bool
    decreases idx.len(),
{
    idx.len() == 0 || (0 <= idx[0] < n.children.len() && in_tree(
        n.children[idx[0]],
        idx.drop_first(),
    ))
}

/// The node one place further down is a child of the node reached so far.
pub proof fn lemma_node_at_push(n: ItemView, idx: Seq<int>, i: int)
    ensures
        node_at(n, idx.push(i)) == node_at(n, idx).children[i],
    decreases idx.len(),
{
    if idx.len() == 0 {
        assert(idx.push(i).drop_first() =~= Seq::<int>::empty());
        assert(node_at(n.children[i], Seq::<int>::empty()) == n.children[i]);
    } else {
        assert(idx.push(i).drop_first() =~= idx.drop_first().push(i));
        lemma_node_at_push(n.children[idx[0]], idx.drop_first(), i);
    }
}

/// To replace a node one place further down is to replace the node reached so
/// far by itself with that child replaced.
pub proof fn lemma_replace_at_push(n: ItemView, idx: Seq<int>, i: int, c: ItemView)
    ensures
        replace_at(n, idx.push(i), c) == replace_at(n, idx, with_child(node_at(n, idx), i, c)),
    decreases idx.len(),
{
    if idx.len() == 0 {
        assert(idx.push(i).drop_first() =~= Seq::<int>::empty());
        assert(replace_at(n.children[i], Seq::<int>::empty(), c) == c);
    } else {
        assert(idx.push(i).drop_first() =~= idx.drop_first().push(i));
        lemma_replace_at_push(n.children[idx[0]], idx.drop_first(), i, c);
    }
}

/// To replace a node by itself changes nothing.
pub proof fn lemma_replace_at_same(n: ItemView, idx: Seq<int>)
    requires
        in_tree(n, idx),
    ensures
        replace_at(n, idx, node_at(n, idx)) == n,
    decreases idx.len(),
{
    if idx.len() > 0 {
        lemma_replace_at_same(n.children[idx[0]], idx.drop_first());
        assert(n.children.update(idx[0], n.children[idx[0]]) =~= n.children);
    }
}

/// A walk that is one child further stays in the tree.
pub proof fn lemma_in_tree_push(n: ItemView, idx: Seq<int>, i: int)
    requires
        in_tree(n, idx),
        0 <= i < node_at(n, idx).children.len(),
    ensures
        in_tree(n, idx.push(i)),
    decreases idx.len(),
{
    if idx.len() == 0 {
        assert(idx.push(i).drop_first() =~= Seq::<int>::empty());
        assert(in_tree(n.children[i], Seq::<int>::empty()));
    } else {
        assert(idx.push(i).drop_first() =~= idx.drop_first().push(i));
        lemma_in_tree_push(n.children[idx[0]], idx.drop_first(), i);
    }
}

/// The child that a name selects is one of the children.
pub proof fn lemma_find_child_in_range(n: ItemView, name: Seq<char>)
    ensures
        find_child(n, name) matches Ok(i) ==> 0 <= i < n.children.len(),
{
}

/// One step further: the places so far, then the child taken, then the rest.
proof fn lemma_prepend_step(idx: Seq<int>, i: int, r: Result<Seq<int>, ErrorKind>)
    ensures
        prepend(idx, prepend(seq![i], r)) == prepend(idx.push(i), r),
{
    if let Ok(rest) = r {
        assert(idx + (seq![i] + rest) =~= idx.push(i) + rest);
    }
}

impl TreeItem {
    /// The node reached from this one by taking, for each name of `segs` in
    /// turn, the child that the name selects. The walk goes strictly down:
    /// `..` and `~` are names like any other here.
    ///
    /// Fails at the first name that selects no child, with the failure of
    /// that selection.
    pub fn descend(&self, segs: &Vec<String>) -> (r: Result<&TreeItem, TreeError>)
        ensures
            match r {
                Ok(c) => trail(self@, texts(segs@)) matches Ok(idx) && c@ == node_at(self@, idx),
                Err(e) => trail(self@, texts(segs@)) == Err::<Seq<int>, ErrorKind>(e.kind),
            },
    {
        let mut item = self;
        let mut k: usize = 0;
        let ghost mut idx = Seq::<int>::empty();
        proof {
            assert(texts(segs@).skip(0) =~= texts(segs@));
            assert(prepend(idx, trail(self@, texts(segs@))) == trail(self@, texts(segs@))) by {
                if let Ok(rest) = trail(self@, texts(segs@)) {
                    assert(idx + rest =~= rest);
                }
            }
        }
        while k < segs.len()
            invariant
                k <= segs.len(),
                trail(self@, texts(segs@)) == prepend(idx, trail(item@, texts(segs@).skip(k as int))),
                item@ == node_at(self@, idx),
            decreases segs.len() - k,
        {
            let ghost rest = texts(segs@).skip(k as int);
            proof {
                assert(rest[0] == segs@[k as int]@);
                assert(rest.drop_first() =~= texts(segs@).skip(k + 1));
            }
            match item.get_child(&segs[k]) {
                Ok(c) => {
                    proof {
                        let i = find_child(item@, rest[0])->Ok_0;
                        lemma_prepend_step(idx, i, trail(c@, rest.drop_first()));
                        lemma_node_at_push(self@, idx, i);
                        idx = idx.push(i);
                    }
                    item = c;
                },
                Err(e) => {
                    return Err(e);
                },
            }
            k += 1;
        }
        proof {
            assert(texts(segs@).skip(k as int).len() == 0);
            assert(idx + Seq::<int>::empty() =~= idx);
        }
        Ok(item)
    }

    /// The node that the path `path` names below this one: the path is cut
    /// at every `/` and `\`, and the walk takes the child that each segment
    /// selects, an empty segment too. The walk goes strictly down.
    ///
    /// Fails at the first segment that selects no child, with the failure of
    /// that selection.
    pub fn get_offspring(&self, path: &String) -> (r: Result<&TreeItem, TreeError>)
        ensures
            match r {
                Ok(c) => trail(self@, split(path@, true)) matches Ok(idx) && c@ == node_at(
                    self@,
                    idx,
                ),
                Err(e) => trail(self@, split(path@, true)) == Err::<Seq<int>, ErrorKind>(e.kind),
            },
    {
        let segs = split_text(path.as_str(), true);
        match self.descend(&segs) {
            Ok(c) => Ok(c),
            Err(e) => Err(e),
        }
    }

    /// The node that `descend` reaches, to be changed in place.
    pub fn descend_mut(&mut self, segs: &Vec<String>) -> (r: Result<&mut TreeItem, TreeError>)
        ensures
            match r {
                Ok(c) => trail(old(self)@, texts(segs@)) matches Ok(idx) && c@ == node_at(
                    old(self)@,
                    idx,
                ) && in_tree(old(self)@, idx) && final(self)@ == replace_at(
                    old(self)@,
                    idx,
                    final(c)@,
                ),
                Err(e) => trail(old(self)@, texts(segs@)) == Err::<Seq<int>, ErrorKind>(e.kind)
                    && final(self)@ == old(self)@,
            },
    {
        let mut item = self;
        let mut k: usize = 0;
        let ghost mut idx = Seq::<int>::empty();
        proof {
            assert(texts(segs@).skip(0) =~= texts(segs@));
            assert(prepend(idx, trail(old(self)@, texts(segs@))) == trail(
                old(self)@,
                texts(segs@),
            )) by {
                if let Ok(rest) = trail(old(self)@, texts(segs@)) {
                    assert(idx + rest =~= rest);
                }
            }
        }
        while k < segs.len()
            invariant
                k <= segs.len(),
                trail(old(self)@, texts(segs@)) == prepend(
                    idx,
                    trail(item@, texts(segs@).skip(k as int)),
                ),
                item@ == node_at(old(self)@, idx),
                in_tree(old(self)@, idx),
                final(self)@ == replace_at(old(self)@, idx, final(item)@),
            decreases segs.len() - k,
        {
            let ghost rest = texts(segs@).skip(k as int);
            let ghost here = item@;
            proof {
                assert(rest[0] == segs@[k as int]@);
                assert(rest.drop_first() =~= texts(segs@).skip(k + 1));
                lemma_replace_at_same(old(self)@, idx);
                lemma_find_child_in_range(here, rest[0]);
            }
            match item.get_child_mut(&segs[k]) {
                Ok(c) => {
                    proof {
                        let i = find_child(here, rest[0])->Ok_0;
                        lemma_prepend_step(idx, i, trail(c@, rest.drop_first()));
                        lemma_node_at_push(old(self)@, idx, i);
                        lemma_replace_at_push(old(self)@, idx, i, final(c)@);
                        lemma_in_tree_push(old(self)@, idx, i);
                        idx = idx.push(i);
                    }
                    item = c;
                },
                Err(e) => {
                    return Err(e);
                },
            }
            k += 1;
        }
        proof {
            assert(texts(segs@).skip(k as int).len() == 0);
            assert(idx + Seq::<int>::empty() =~= idx);
        }
        Ok(item)
    }

    /// The node reached from this one by taking, for each name of `segs` in
    /// turn, the first child of that name that is a directory. Every node on
    /// the way, the last one too, is thus a directory.
    ///
    /// Fails with `NotFound` at the first name that no child directory bears.
    pub fn descend_dirs(&self, segs: &Vec<String>, disk: &Disk) -> (r: Result<
        &TreeItem,
        TreeError,
    >)
        ensures
            match r {
                Ok(c) => dir_trail(self@, texts(segs@), disk@.files) matches Ok(idx) && c@
                    == node_at(self@, idx),
                Err(e) => dir_trail(self@, texts(segs@), disk@.files) == Err::<
                    Seq<int>,
                    ErrorKind,
                >(e.kind),
            },
    {
        let ghost files = disk@.files;
        let mut item = self;
        let mut k: usize = 0;
        let ghost mut idx = Seq::<int>::empty();
        proof {
            assert(texts(segs@).skip(0) =~= texts(segs@));
            assert(prepend(idx, dir_trail(self@, texts(segs@), files)) == dir_trail(
                self@,
                texts(segs@),
                files,
            )) by {
                if let Ok(rest) = dir_trail(self@, texts(segs@), files) {
                    assert(idx + rest =~= rest);
                }
            }
        }
        while k < segs.len()
            invariant
                k <= segs.len(),
                files == disk@.files,
                dir_trail(self@, texts(segs@), files) == prepend(
                    idx,
                    dir_trail(item@, texts(segs@).skip(k as int), files),
                ),
                item@ == node_at(self@, idx),
            decreases segs.len() - k,
        {
            let ghost rest = texts(segs@).skip(k as int);
            proof {
                assert(rest[0] == segs@[k as int]@);
                assert(rest.drop_first() =~= texts(segs@).skip(k + 1));
            }
            match item.get_child_dir(&segs[k], disk) {
                Ok(c) => {
                    proof {
                        let i = find_dir(item@, rest[0], files)->Ok_0;
                        lemma_prepend_step(idx, i, dir_trail(c@, rest.drop_first(), files));
                        lemma_node_at_push(self@, idx, i);
                        idx = idx.push(i);
                    }
                    item = c;
                },
                Err(e) => {
                    return Err(e);
                },
            }
            k += 1;
        }
        proof {
            assert(texts(segs@).skip(k as int).len() == 0);
            assert(idx + Seq::<int>::empty() =~= idx);
        }
        Ok(item)
    }

    /// The node that `descend_dirs` reaches, to be changed in place.
    pub fn descend_dirs_mut(&mut self, segs: &Vec<String>, disk: &Disk) -> (r: Result<
        &mut TreeItem,
        TreeError,
    >)
        ensures
            match r {
                Ok(c) => dir_trail(old(self)@, texts(segs@), disk@.files) matches Ok(idx) && c@
                    == node_at(old(self)@, idx) && in_tree(old(self)@, idx) && final(self)@
                    == replace_at(old(self)@, idx, final(c)@),
                Err(e) => dir_trail(old(self)@, texts(segs@), disk@.files) == Err::<
                    Seq<int>,
                    ErrorKind,
                >(e.kind) && final(self)@ == old(self)@,
            },
    {
        let ghost files = disk@.files;
        let mut item = self;
        let mut k: usize = 0;
        let ghost mut idx = Seq::<int>::empty();
        proof {
            assert(texts(segs@).skip(0) =~= texts(segs@));
            assert(prepend(idx, dir_trail(old(self)@, texts(segs@), files)) == dir_trail(
                old(self)@,
                texts(segs@),
                files,
            )) by {
                if let Ok(rest) = dir_trail(old(self)@, texts(segs@), files) {
                    assert(idx + rest =~= rest);
                }
            }
        }
        while k < segs.len()
            invariant
                k <= segs.len(),
                files == disk@.files,
                dir_trail(old(self)@, texts(segs@), files) == prepend(
                    idx,
                    dir_trail(item@, texts(segs@).skip(k as int), files),
                ),
                item@ == node_at(old(self)@, idx),
                in_tree(old(self)@, idx),
                final(self)@ == replace_at(old(self)@, idx, final(item)@),
            decreases segs.len() - k,
        {
            let ghost rest = texts(segs@).skip(k as int);
            let ghost here = item@;
            proof {
                assert(rest[0] == segs@[k as int]@);
                assert(rest.drop_first() =~= texts(segs@).skip(k + 1));
                lemma_replace_at_same(old(self)@, idx);
            }
            match item.get_child_dir_mut(&segs[k], disk) {
                Ok(c) => {
                    proof {
                        let i = find_dir(here, rest[0], files)->Ok_0;
                        lemma_prepend_step(idx, i, dir_trail(c@, rest.drop_first(), files));
                        lemma_node_at_push(old(self)@, idx, i);
                        lemma_replace_at_push(old(self)@, idx, i, final(c)@);
                        lemma_in_tree_push(old(self)@, idx, i);
                        idx = idx.push(i);
                    }
                    item = c;
                },
                Err(e) => {
                    return Err(e);
                },
            }
            k += 1;
        }
        proof {
            assert(texts(segs@).skip(k as int).len() == 0);
            assert(idx + Seq::<int>::empty() =~= idx);
        }
        Ok(item)
    }
}

} // verus!
