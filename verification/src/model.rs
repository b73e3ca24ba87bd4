//! The tree together with the current position in it.

use crate::disk::Disk;
use crate::error::{ErrorKind, TreeError};
use crate::item::{ItemView, TreeItem};
use crate::path::{clone_texts, PathVector};
use crate::text::{
    begins_with, is_text, join, lemma_texts_drop_last, lemma_texts_push, split, split_text, texts,
};
use crate::walk::{dir_trail, in_tree, node_at, replace_at, trail};
use vstd::prelude::*;
use vstd::string::StringExecFns;

verus! {

/// A tree and the position in it at which the user stands: the names of the
/// directories on the way from the root.
pub struct TreeModel {
    /// The root of the tree.
    pub root: TreeItem,
    /// The current position; empty at the root.
    pub path: PathVector,
}

/// The segments that stand for no step: the empty one, `.` and `~`.
pub open spec fn is_skipped(t: Seq<char>) -> bool {
    t.len() == 0 || t == seq!['.'] || t == seq!['~']
}

/// The segment that stands for a step to the parent: `..`.
pub open spec fn is_parent(t: Seq<char>) -> bool {
    t == seq!['.', '.']
}

/// `p` without its last segment; the empty path stays as it is.
pub open spec fn parent_of(p: Seq<Seq<char>>) -> Seq<Seq<char>> {
    if p.len() > 0 {
        p.drop_last()
    } else {
        p
    }
}

/// The position reached from `base` by the steps `segs`, taken in order: a
/// skipped segment changes nothing, `..` leaves the last segment behind (at
/// the root it changes nothing), any other segment is appended.
pub open spec fn apply_segments(base: Seq<Seq<char>>, segs: Seq<Seq<char>>) -> Seq<Seq<char>>
    decreases segs.len(),
{
    if segs.len() == 0 {
        base
    } else {
        let before = apply_segments(base, segs.drop_last());
        let t = segs.last();
        if is_skipped(t) {
            before
        } else if is_parent(t) {
            parent_of(before)
        } else {
            before.push(t)
        }
    }
}

/// The position that the typed path `path` names for a user who stands at
/// `current`. A path that begins with `~` starts at the root, any other at
/// `current`; `/` and `\` both separate its segments. Nothing says that the
/// position exists in the tree.
pub open spec fn resolve(current: Seq<Seq<char>>, path: Seq<char>) -> Seq<Seq<char>> {
    let base = if path.len() > 0 && path[0] == '~' {
        Seq::empty()
    } else {
        current
    };
    apply_segments(base, split(path, true))
}

/// Where a walk by `cd` steps ends, and the failure that stopped it, if one
/// did. The steps are taken one after the other from `cur`: an empty segment
/// is no step, `..` goes to the parent, any other segment goes to the child
/// directory of that name. The first step that fails ends the walk; the
/// steps before it stay taken.
pub open spec fn cd_steps(
    root: ItemView,
    cur: Seq<Seq<char>>,
    segs: Seq<Seq<char>>,
    files: Set<Seq<char>>,
) -> (Seq<Seq<char>>, Option<ErrorKind>)
    decreases segs.len(),
{
    if segs.len() == 0 {
        (cur, None)
    } else {
        let t = segs[0];
        if t.len() == 0 {
            cd_steps(root, cur, segs.drop_first(), files)
        } else if is_parent(t) {
            cd_steps(root, parent_of(cur), segs.drop_first(), files)
        } else {
            match dir_trail(root, cur.push(t), files) {
                Ok(_) => cd_steps(root, cur.push(t), segs.drop_first(), files),
                Err(k) => (cur, Some(k)),
            }
        }
    }
}

/// The prompt: the name of the root in brackets, then the position.
pub open spec fn prefix_text(name: Seq<char>, path: Seq<Seq<char>>) -> Seq<char> {
    seq!['/', '['] + name + seq![']', '/'] + join(path, seq!['/']) + seq![' ', '>', ' ']
}

impl TreeModel {
    /// A model of the tree below `item`, with the user at its root.
    pub fn new(item: TreeItem) -> (r: Self)
        ensures
            r.root@ == item@,
            r.path@ == Seq::<Seq<char>>::empty(),
    {
        TreeModel { root: item, path: PathVector::new() }
    }

    /// The position that the typed path `path` names, seen from the current
    /// position. It is a candidate: nothing is looked up in the tree.
    pub fn resolve_virtual_path(&self, path: &String) -> (r: Result<Vec<String>, TreeError>)
        ensures
            r matches Ok(v) && texts(v@) == resolve(self.path@, path@),
    {
        let mut cur: Vec<String> = if begins_with(path.as_str(), '~') {
            Vec::new()
        } else {
            clone_texts(&self.path.path)
        };
        let segs = split_text(path.as_str(), true);
        let ghost base = texts(cur@);
        proof {
            reveal_strlit("");
            reveal_strlit(".");
            reveal_strlit("~");
            reveal_strlit("..");
            assert(""@ =~= Seq::<char>::empty());
            assert("."@ =~= seq!['.']);
            assert("~"@ =~= seq!['~']);
            assert(".."@ =~= seq!['.', '.']);
            assert(base =~= if path@.len() > 0 && path@[0] == '~' {
                Seq::empty()
            } else {
                self.path@
            });
            assert(texts(segs@).take(0) =~= Seq::<Seq<char>>::empty());
        }
        let mut k: usize = 0;
        while k < segs.len()
            invariant
                k <= segs.len(),
                ""@ == Seq::<char>::empty(),
                "."@ == seq!['.'],
                "~"@ == seq!['~'],
                ".."@ == seq!['.', '.'],
                texts(cur@) == apply_segments(base, texts(segs@).take(k as int)),
            decreases segs.len() - k,
        {
            let seg = &segs[k];
            proof {
                let next = texts(segs@).take(k + 1);
                assert(next.drop_last() =~= texts(segs@).take(k as int));
                assert(next.last() == seg@);
                assert(texts(cur@).len() == cur@.len());
                assert(seg@.len() == 0 ==> seg@ =~= Seq::<char>::empty());
            }
            if is_text(seg, "") || is_text(seg, ".") || is_text(seg, "~") {
            } else if is_text(seg, "..") {
                proof {
                    if cur@.len() > 0 {
                        lemma_texts_drop_last(cur@);
                    }
                }
                cur.pop();
            } else {
                proof {
                    lemma_texts_push(cur@, *seg);
                }
                cur.push(seg.clone());
            }
            k += 1;
        }
        proof {
            assert(texts(segs@).take(segs@.len() as int) =~= texts(segs@));
        }
        Ok(cur)
    }

    /// The node at the position `pathvec`, walked from the root: each
    /// segment selects a child, a `#n` suffix the `n`-th of its name.
    ///
    /// Fails at the first segment that selects none.
    pub fn item_at(&self, pathvec: &Vec<String>) -> (r: Result<&TreeItem, TreeError>)
        ensures
            match r {
                Ok(c) => trail(self.root@, texts(pathvec@)) matches Ok(idx) && c@ == node_at(
                    self.root@,
                    idx,
                ),
                Err(e) => trail(self.root@, texts(pathvec@)) == Err::<Seq<int>, ErrorKind>(e.kind),
            },
    {
        self.root.descend(pathvec)
    }

    /// The node at the position `pathvec`, to be changed in place.
    pub fn item_at_mut(&mut self, pathvec: &Vec<String>) -> (r: Result<&mut TreeItem, TreeError>)
        ensures
            final(self).path == old(self).path,
            match r {
                Ok(c) => trail(old(self).root@, texts(pathvec@)) matches Ok(idx) && c@ == node_at(
                    old(self).root@,
                    idx,
                ) && in_tree(old(self).root@, idx) && final(self).root@ == replace_at(
                    old(self).root@,
                    idx,
                    final(c)@,
                ),
                Err(e) => trail(old(self).root@, texts(pathvec@)) == Err::<Seq<int>, ErrorKind>(
                    e.kind,
                ) && final(self).root@ == old(self).root@,
            },
    {
        self.root.descend_mut(pathvec)
    }

    /// The directory at the position `pathvec`, walked from the root through
    /// directories only: a segment that names a file is not found. The empty
    /// position is the root.
    pub fn dir_item_at(&self, pathvec: &Vec<String>, disk: &Disk) -> (r: Result<
        &TreeItem,
        TreeError,
    >)
        ensures
            match r {
                Ok(c) => dir_trail(self.root@, texts(pathvec@), disk@.files) matches Ok(idx) && c@
                    == node_at(self.root@, idx),
                Err(e) => dir_trail(self.root@, texts(pathvec@), disk@.files) == Err::<
                    Seq<int>,
                    ErrorKind,
                >(e.kind),
            },
    {
        self.root.descend_dirs(pathvec, disk)
    }

    /// The directory at the position `pathvec`, to be changed in place.
    pub fn dir_item_at_mut(&mut self, pathvec: &Vec<String>, disk: &Disk) -> (r: Result<
        &mut TreeItem,
        TreeError,
    >)
        ensures
            final(self).path == old(self).path,
            match r {
                Ok(c) => dir_trail(old(self).root@, texts(pathvec@), disk@.files) matches Ok(idx)
                    && c@ == node_at(old(self).root@, idx) && in_tree(old(self).root@, idx)
                    && final(self).root@ == replace_at(old(self).root@, idx, final(c)@),
                Err(e) => dir_trail(old(self).root@, texts(pathvec@), disk@.files) == Err::<
                    Seq<int>,
                    ErrorKind,
                >(e.kind) && final(self).root@ == old(self).root@,
            },
    {
        self.root.descend_dirs_mut(pathvec, disk)
    }

    /// The directory at which the user stands.
    ///
    /// Fails with `NotFound` where the position no longer leads through
    /// directories: a node on the way was removed, or became a file.
    pub fn current_item(&self, disk: &Disk) -> (r: Result<&TreeItem, TreeError>)
        ensures
            match r {
                Ok(c) => dir_trail(self.root@, self.path@, disk@.files) matches Ok(idx) && c@
                    == node_at(self.root@, idx),
                Err(e) => dir_trail(self.root@, self.path@, disk@.files) == Err::<
                    Seq<int>,
                    ErrorKind,
                >(e.kind),
            },
    {
        self.root.descend_dirs(&self.path.path, disk)
    }

    /// The directory at which the user stands, to be changed in place.
    pub fn current_item_mut(&mut self, disk: &Disk) -> (r: Result<&mut TreeItem, TreeError>)
        ensures
            final(self).path == old(self).path,
            match r {
                Ok(c) => dir_trail(old(self).root@, old(self).path@, disk@.files) matches Ok(idx)
                    && c@ == node_at(old(self).root@, idx) && in_tree(old(self).root@, idx)
                    && final(self).root@ == replace_at(old(self).root@, idx, final(c)@),
                Err(e) => dir_trail(old(self).root@, old(self).path@, disk@.files) == Err::<
                    Seq<int>,
                    ErrorKind,
                >(e.kind) && final(self).root@ == old(self).root@,
            },
    {
        self.root.descend_dirs_mut(&self.path.path, disk)
    }

    /// Whether a node stands at the position `pathvec`.
    pub fn check_path_exists(&self, pathvec: &Vec<String>) -> (r: bool)
        ensures
            r == trail(self.root@, texts(pathvec@)).is_ok(),
    {
        self.root.descend(pathvec).is_ok()
    }

    /// The node that the typed path `path` names, seen from the current
    /// position.
    pub fn get_item(&self, path: &String) -> (r: Result<&TreeItem, TreeError>)
        ensures
            match r {
                Ok(c) => trail(self.root@, resolve(self.path@, path@)) matches Ok(idx) && c@
                    == node_at(self.root@, idx),
                Err(e) => trail(self.root@, resolve(self.path@, path@)) == Err::<
                    Seq<int>,
                    ErrorKind,
                >(e.kind),
            },
    {
        match self.resolve_virtual_path(path) {
            Ok(pathvec) => match self.root.descend(&pathvec) {
                Ok(c) => Ok(c),
                Err(e) => Err(e),
            },
            Err(e) => Err(e),
        }
    }

    /// The current position, written with `/` between its segments.
    pub fn pwd(&self) -> (s: String)
        ensures
            s@ == join(self.path@, seq!['/']),
    {
        self.path.to_string()
    }

    /// Goes to the child directory `name` of the current position. The
    /// position changes only where the new one leads through directories.
    pub fn move_forward(&mut self, name: String, disk: &Disk) -> (r: Result<(), TreeError>)
        ensures
            final(self).root == old(self).root,
            match r {
                Ok(_) => dir_trail(old(self).root@, old(self).path@.push(name@), disk@.files)
                    is Ok && final(self).path@ == old(self).path@.push(name@),
                Err(e) => dir_trail(old(self).root@, old(self).path@.push(name@), disk@.files)
                    == Err::<Seq<int>, ErrorKind>(e.kind) && final(self).path@ == old(self).path@,
            },
    {
        let path = self.path.join_str(name);
        match self.root.descend_dirs(&path.path, disk) {
            Ok(_) => {
                self.path = path;
                Ok(())
            },
            Err(e) => Err(e),
        }
    }

    /// Goes `level` directories up, and stops at the root. It never fails:
    /// at the root it changes nothing, whatever `level` is.
    pub fn move_backward(&mut self, level: usize) -> (r: Result<(), TreeError>)
        ensures
            r is Ok,
            final(self).root == old(self).root,
            final(self).path@ == old(self).path@.take(
                if level <= old(self).path@.len() {
                    old(self).path@.len() - level
                } else {
                    0
                },
            ),
            old(self).path@.len() == 0 ==> final(self).path@ == old(self).path@,
    {
        self.path.pops(level);
        proof {
            if old(self).path@.len() == 0 {
                assert(old(self).path@.take(0) =~= old(self).path@);
            }
        }
        Ok(())
    }

    /// Goes to the root.
    pub fn move_to_home(&mut self)
        ensures
            final(self).root == old(self).root,
            final(self).path@ == Seq::<Seq<char>>::empty(),
    {
        self.path = PathVector::new();
    }

    /// Walks along the typed path `path`, one segment after the other: `..`
    /// goes up, any other segment goes to the child directory of that name.
    /// Only `/` separates here, and `.` and `~` are names like any other.
    ///
    /// The first step that fails ends the walk with its failure; the steps
    /// taken before it are not undone.
    pub fn move_by_string(&mut self, path: &String, disk: &Disk) -> (r: Result<(), TreeError>)
        ensures
            final(self).root == old(self).root,
            final(self).path@ == cd_steps(
                old(self).root@,
                old(self).path@,
                split(path@, false),
                disk@.files,
            ).0,
            match r {
                Ok(_) => cd_steps(
                    old(self).root@,
                    old(self).path@,
                    split(path@, false),
                    disk@.files,
                ).1 is None,
                Err(e) => cd_steps(
                    old(self).root@,
                    old(self).path@,
                    split(path@, false),
                    disk@.files,
                ).1 == Some(e.kind),
            },
    {
        let segs = split_text(path.as_str(), false);
        let ghost all = texts(segs@);
        let ghost files = disk@.files;
        proof {
            reveal_strlit("");
            reveal_strlit("..");
            assert(""@ =~= Seq::<char>::empty());
            assert(".."@ =~= seq!['.', '.']);
            assert(all.skip(0) =~= all);
        }
        let mut k: usize = 0;
        while k < segs.len()
            invariant
                k <= segs.len(),
                ""@ == Seq::<char>::empty(),
                ".."@ == seq!['.', '.'],
                all == texts(segs@),
                all == split(path@, false),
                files == disk@.files,
                self.root == old(self).root,
                cd_steps(old(self).root@, old(self).path@, all, files) == cd_steps(
                    self.root@,
                    self.path@,
                    all.skip(k as int),
                    files,
                ),
            decreases segs.len() - k,
        {
            let seg = &segs[k];
            proof {
                let rest = all.skip(k as int);
                assert(rest[0] == seg@);
                assert(rest.drop_first() =~= all.skip(k + 1));
                assert(seg@.len() == 0 ==> seg@ =~= Seq::<char>::empty());
            }
            if is_text(seg, "") {
            } else if is_text(seg, "..") {
                let ghost before = self.path@;
                let _ = self.move_backward(1);
                proof {
                    assert(self.path@ =~= parent_of(before));
                }
            } else {
                match self.move_forward(seg.clone(), disk) {
                    Ok(_) => {},
                    Err(e) => {
                        return Err(e);
                    },
                }
            }
            k += 1;
        }
        Ok(())
    }

    /// The prompt of the session: the name of the root in brackets, then the
    /// current position.
    pub fn as_prefix(&self) -> (s: String)
        ensures
            s@ == prefix_text(self.root@.name, self.path@),
    {
        proof {
            reveal_strlit("/[");
            reveal_strlit("]/");
            reveal_strlit(" > ");
            assert("/["@ =~= seq!['/', '[']);
            assert("]/"@ =~= seq![']', '/']);
            assert(" > "@ =~= seq![' ', '>', ' ']);
        }
        let mut s = String::from_str("/[");
        s.append(self.root.label());
        s.append("]/");
        let p = self.path.to_string();
        s.append(p.as_str());
        s.append(" > ");
        s
    }
}

} // verus!
