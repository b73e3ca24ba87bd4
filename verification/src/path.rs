//! A position in the tree, written as the names on the way from the root.

use crate::text::{
    join, join_text, lemma_texts_drop_last, lemma_texts_push, split, split_text, texts,
};
use vstd::prelude::*;

verus! {

/// An ordered list of path segments. It is a plain value: nothing ties it to
/// a tree, and a segment may be any text, the empty one included.
pub struct PathVector {
    pub path: Vec<String>,
}

impl View for PathVector {
    type V = Seq<Seq<char>>;

    open spec fn view(&self) -> Seq<Seq<char>> {
        texts(self.path@)
    }
}

/// A copy of `v`, string by string.
pub fn clone_texts(v: &Vec<String>) -> (r: Vec<String>)
    ensures
        texts(r@) == texts(v@),
{
    let mut out: Vec<String> = Vec::new();
    let mut i: usize = 0;
    while i < v.len()
        invariant
            i <= v.len(),
            texts(out@) == texts(v@).take(i as int),
        decreases v.len() - i,
    {
        proof {
            lemma_texts_push(out@, v@[i as int]);
            assert(texts(v@).take(i + 1) == texts(v@).take(i as int).push(v@[i as int]@));
        }
        out.push(v[i].clone());
        i += 1;
    }
    assert(texts(v@).take(v.len() as int) == texts(v@));
    out
}

impl Clone for PathVector {
    fn clone(&self) -> (r: Self)
        ensures
            r@ == self@,
    {
        PathVector { path: clone_texts(&self.path) }
    }
}

impl PathVector {
    /// The empty path: the root.
    pub fn new() -> (r: Self)
        ensures
            r@ == Seq::<Seq<char>>::empty(),
    {
        let r = PathVector { path: Vec::new() };
        assert(r@ == Seq::<Seq<char>>::empty());
        r
    }

    /// The path whose segments are `strings`.
    pub fn from_vec(strings: Vec<String>) -> (r: Self)
        ensures
            r@ == texts(strings@),
    {
        PathVector { path: strings }
    }

    /// The path written in `string`, with `/` and `\` as separators. Every
    /// run between two separators is a segment, an empty run too.
    pub fn from_string(string: String) -> (r: Self)
        ensures
            r@ == split(string@, true),
    {
        PathVector { path: split_text(string.as_str(), true) }
    }

    /// The path made of the segments of `self` followed by the segment
    /// `name`.
    pub fn join_str(&self, name: String) -> (r: Self)
        ensures
            r@ == self@.push(name@),
    {
        let mut vec = clone_texts(&self.path);
        proof {
            lemma_texts_push(vec@, name);
        }
        vec.push(name);
        PathVector { path: vec }
    }

    /// The path made of the segments of `self` followed by those of `path`.
    pub fn join_path(&self, path: &PathVector) -> (r: Self)
        ensures
            r@ == self@ + path@,
    {
        let mut vec = clone_texts(&self.path);
        let mut i: usize = 0;
        assert(self@ + path@.take(0) == self@);
        while i < path.path.len()
            invariant
                i <= path.path.len(),
                texts(vec@) == self@ + path@.take(i as int),
            decreases path.path.len() - i,
        {
            proof {
                lemma_texts_push(vec@, path.path@[i as int]);
                assert(path@.take(i + 1) == path@.take(i as int).push(path.path@[i as int]@));
                assert(self@ + path@.take(i + 1) == (self@ + path@.take(i as int)).push(
                    path.path@[i as int]@,
                ));
            }
            vec.push(path.path[i].clone());
            i += 1;
        }
        assert(path@.take(path.path.len() as int) == path@);
        PathVector { path: vec }
    }

    /// Removes the last `level` segments, or all of them where there are
    /// fewer.
    pub fn pops(&mut self, level: usize)
        ensures
            final(self)@ == old(self)@.take(
                if level <= old(self)@.len() {
                    old(self)@.len() - level
                } else {
                    0
                },
            ),
    {
        let npop: usize = if level <= self.path.len() {
            level
        } else {
            self.path.len()
        };
        let mut i: usize = 0;
        assert(self@ == old(self)@.take(old(self)@.len() as int));
        while i < npop
            invariant
                i <= npop <= old(self)@.len(),
                self@ == old(self)@.take(old(self)@.len() - i),
            decreases npop - i,
        {
            proof {
                assert(self@.len() == self.path@.len());
                lemma_texts_drop_last(self.path@);
                assert(old(self)@.take(old(self)@.len() - i).drop_last() == old(self)@.take(
                    old(self)@.len() - i - 1,
                ));
            }
            self.path.pop();
            i += 1;
        }
    }

    /// The segments written with `/` between each two.
    pub fn to_string(&self) -> (s: String)
        ensures
            s@ == join(self@, seq!['/']),
    {
        proof {
            reveal_strlit("/");
            assert("/"@ == seq!['/']);
        }
        join_text(&self.path, "/")
    }
}

} // verus!
