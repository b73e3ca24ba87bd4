//! The candidates for completing a word that is being typed.

use crate::history::{added, History};
use crate::text::{chars_of, texts};
use vstd::prelude::*;

verus! {

/// The words that begin with what was typed, and a position for stepping
/// through them.
pub struct TabCompleter {
    candidates: History<String>,
    seed: String,
}

/// The entries of `list` that begin with `seed`, in order; where there are
/// more than `max`, the last `max` of them.
pub open spec fn kept(list: Seq<Seq<char>>, seed: Seq<char>, max: nat) -> Seq<Seq<char>>
    decreases list.len(),
{
    if list.len() == 0 {
        Seq::empty()
    } else if seed.is_prefix_of(list.last()) {
        added(kept(list.drop_last(), seed, max), list.last(), max)
    } else {
        kept(list.drop_last(), seed, max)
    }
}

/// Whether `item` begins with `seed`.
pub fn starts_with(item: &String, seed: &String) -> (r: bool)
    ensures
        r == seed@.is_prefix_of(item@),
{
    let a = chars_of(item.as_str());
    let b = chars_of(seed.as_str());
    if b.len() > a.len() {
        return false;
    }
    let mut i: usize = 0;
    while i < b.len()
        invariant
            i <= b.len() <= a.len(),
            a@ == item@,
            b@ == seed@,
            forall|j: int| 0 <= j < i ==> a@[j] == b@[j],
        decreases b.len() - i,
    {
        if a[i] != b[i] {
            proof {
                if seed@.is_prefix_of(item@) {
                    assert(item@.subrange(0, seed@.len() as int)[i as int] == seed@[i as int]);
                }
            }
            return false;
        }
        i += 1;
    }
    proof {
        assert(item@.subrange(0, seed@.len() as int) =~= seed@);
    }
    true
}

impl TabCompleter {
    /// The most candidates that are kept.
    pub open spec fn limit() -> nat {
        100
    }

    /// The candidates, in order.
    pub closed spec fn words(&self) -> Seq<Seq<char>> {
        texts(self.candidates.history@)
    }

    /// What was typed.
    pub closed spec fn typed(&self) -> Seq<char> {
        self.seed@
    }

    /// The position among the candidates.
    pub closed spec fn position(&self) -> int {
        self.candidates.index as int
    }

    /// The position lies among the candidates or just behind them, and no
    /// more candidates are kept than the limit allows.
    pub closed spec fn wf(&self) -> bool {
        &&& self.candidates.wf()
        &&& self.candidates.max == Self::limit()
    }

    /// A completer without candidates, for an empty word.
    pub fn new() -> (r: Self)
        ensures
            r.wf(),
            r.words() == Seq::<Seq<char>>::empty(),
            r.typed() == Seq::<char>::empty(),
            r.position() == 0,
    {
        let r = TabCompleter { candidates: History::new(100), seed: String::new() };
        assert(r.words() =~= Seq::<Seq<char>>::empty());
        r
    }

    /// Takes `seed` as what was typed. Where it differs from what was typed
    /// before, the position goes back to the first candidate.
    pub fn set_seed(&mut self, seed: &String)
        requires
            old(self).wf(),
        ensures
            final(self).wf(),
            final(self).words() == old(self).words(),
            final(self).typed() == seed@,
            final(self).position() == if old(self).typed() == seed@ {
                old(self).position()
            } else {
                0
            },
    {
        if self.seed != *seed {
            self.candidates.index = 0;
            self.seed = seed.clone();
        }
    }

    /// Replaces the candidates by the entries of `list` that begin with what
    /// was typed, and puts the position at the first of them.
    pub fn candidates_from(&mut self, list: Vec<String>)
        requires
            old(self).wf(),
        ensures
            final(self).wf(),
            final(self).typed() == old(self).typed(),
            final(self).words() == kept(texts(list@), old(self).typed(), Self::limit()),
            final(self).position() == 0,
    {
        self.candidates.clear();
        let mut i: usize = 0;
        proof {
            assert(texts(list@).take(0) =~= Seq::<Seq<char>>::empty());
            assert(self.words() =~= Seq::<Seq<char>>::empty());
        }
        while i < list.len()
            invariant
                i <= list.len(),
                self.candidates.max == Self::limit(),
                self.seed == old(self).seed,
                self.words() == kept(texts(list@).take(i as int), self.seed@, Self::limit()),
            decreases list.len() - i,
        {
            proof {
                let next = texts(list@).take(i + 1);
                assert(next.drop_last() =~= texts(list@).take(i as int));
                assert(next.last() == list@[i as int]@);
            }
            if starts_with(&list[i], &self.seed) {
                let ghost before = self.candidates.history@;
                let item = list[i].clone();
                self.candidates.add(item);
                proof {
                    assert(texts(added(before, item, Self::limit())) =~= added(
                        texts(before),
                        item@,
                        Self::limit(),
                    ));
                }
            }
            i += 1;
        }
        proof {
            assert(texts(list@).take(list@.len() as int) =~= texts(list@));
        }
        self.candidates.index = 0;
    }

    /// The candidate at the position, and a step forward, but not past the
    /// last candidate; `None` where the position stands behind the last.
    pub fn next(&mut self) -> (r: Option<String>)
        requires
            old(self).wf(),
        ensures
            final(self).wf(),
            final(self).words() == old(self).words(),
            final(self).typed() == old(self).typed(),
            match r {
                Some(w) => 0 <= old(self).position() < old(self).words().len() && w@ == old(
                    self,
                ).words()[old(self).position()] && final(self).position() == if old(
                    self,
                ).position() + 1 < old(self).words().len() {
                    old(self).position() + 1
                } else {
                    old(self).position()
                },
                None => old(self).position() == old(self).words().len() && final(self).position()
                    == old(self).position(),
            },
    {
        self.candidates.next()
    }

    /// A step back, and the candidate that stands there; `None` at the first
    /// candidate.
    pub fn prev(&mut self) -> (r: Option<String>)
        requires
            old(self).wf(),
        ensures
            final(self).wf(),
            final(self).words() == old(self).words(),
            final(self).typed() == old(self).typed(),
            match r {
                Some(w) => 0 < old(self).position() <= old(self).words().len() && w@ == old(
                    self,
                ).words()[old(self).position() - 1] && final(self).position() == old(
                    self,
                ).position() - 1,
                None => old(self).position() == 0 && final(self).position() == 0,
            },
    {
        self.candidates.prev()
    }

    /// The candidates, in order.
    pub fn candidates(&self) -> (r: Vec<String>)
        ensures
            texts(r@) == self.words(),
    {
        let mut vec: Vec<String> = Vec::new();
        let mut i: usize = 0;
        while i < self.candidates.history.len()
            invariant
                i <= self.candidates.history@.len(),
                texts(vec@) == self.words().take(i as int),
            decreases self.candidates.history@.len() - i,
        {
            let ghost before = vec@;
            let word = self.candidates.history[i].clone();
            proof {
                crate::text::lemma_texts_push(before, word);
                assert(word@ == self.words()[i as int]);
                assert(self.words().take(i + 1) =~= self.words().take(i as int).push(word@));
            }
            vec.push(word);
            i += 1;
        }
        proof {
            assert(self.words().take(self.candidates.history@.len() as int) =~= self.words());
        }
        vec
    }
}

} // verus!
