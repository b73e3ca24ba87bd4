//! A bounded record of past entries with a position for walking back and
//! forth through it.

use std::collections::vec_deque::Iter;
use std::collections::VecDeque;
use vstd::pervasive::cloned;
use vstd::prelude::*;
use vstd::std_specs::vecdeque::spec_iter;

verus! {

/// The last `max` entries that were added, oldest first, and a position
/// among them.
pub struct History<T> {
    /// The entries, oldest first.
    pub history: VecDeque<T>,
    /// The position: that of the entry that `next` gives, or the number of
    /// entries where the walk stands behind the newest.
    pub index: usize,
    /// The most entries that are kept.
    pub max: usize,
}

/// `h` with `s` added behind it, and without its oldest entry where that
/// makes more than `max`.
pub open spec fn added<T>(h: Seq<T>, s: T, max: nat) -> Seq<T> {
    if h.len() + 1 > max {
        h.push(s).drop_first()
    } else {
        h.push(s)
    }
}

impl<T> History<T> {
    /// The position lies among the entries or just behind them.
    pub open spec fn wf(&self) -> bool {
        self.index <= self.history@.len()
    }

    /// An empty record that keeps at most `max` entries.
    pub fn new(max: usize) -> (r: Self)
        ensures
            r.history@ == Seq::<T>::empty(),
            r.index == 0,
            r.max == max,
            r.wf(),
    {
        History { history: VecDeque::new(), index: 0, max }
    }

    /// The number of entries.
    pub fn len(&self) -> (n: usize)
        ensures
            n == self.history@.len(),
    {
        self.history.len()
    }

    /// Adds `s` as the newest entry, drops the oldest where that makes more
    /// than `max`, and puts the position behind the newest.
    pub fn add(&mut self, s: T)
        ensures
            final(self).history@ == added(old(self).history@, s, old(self).max as nat),
            final(self).index == final(self).history@.len(),
            final(self).max == old(self).max,
            final(self).wf(),
    {
        self.history.push_back(s);
        if self.history.len() > self.max {
            self.history.pop_front();
            assert(self.history@ =~= old(self).history@.push(s).drop_first());
        }
        self.index = self.history.len();
    }

    /// The entries, oldest first.
    pub fn iter(&self) -> (r: Iter<'_, T>)
        ensures
            r == spec_iter(&self.history),
    {
        self.history.iter()
    }

    /// Drops all entries.
    pub fn clear(&mut self)
        ensures
            final(self).history@ == Seq::<T>::empty(),
            final(self).index == 0,
            final(self).max == old(self).max,
            final(self).wf(),
    {
        self.history.clear();
        self.index = 0;
    }
}

impl<T: Clone> History<T> {
    /// Steps back to the entry before the position and gives a copy of it;
    /// `None` at the oldest entry, where nothing changes.
    pub fn prev(&mut self) -> (r: Option<T>)
        requires
            old(self).wf(),
        ensures
            final(self).history == old(self).history,
            final(self).max == old(self).max,
            final(self).wf(),
            match r {
                Some(v) => old(self).index > 0 && final(self).index == old(self).index - 1
                    && cloned(old(self).history@[old(self).index - 1], v),
                None => old(self).index == 0 && final(self).index == 0,
            },
    {
        if self.index == 0 {
            return None;
        }
        self.index -= 1;
        Some(self.history[self.index].clone())
    }

    /// Gives a copy of the entry at the position and steps forward, but not
    /// past the newest entry; `None` where the position stands behind the
    /// newest, where nothing changes.
    pub fn next(&mut self) -> (r: Option<T>)
        requires
            old(self).wf(),
        ensures
            final(self).history == old(self).history,
            final(self).max == old(self).max,
            final(self).wf(),
            match r {
                Some(v) => old(self).index < old(self).history@.len() && cloned(
                    old(self).history@[old(self).index as int],
                    v,
                ) && final(self).index == if old(self).index + 1 < old(self).history@.len() {
                    old(self).index + 1
                } else {
                    old(self).index as int
                },
                None => old(self).index == old(self).history@.len() && final(self).index == old(
                    self,
                ).index,
            },
    {
        if self.index == self.history.len() {
            return None;
        }
        let out = Some(self.history[self.index].clone());
        if self.index < self.history.len() - 1 {
            self.index += 1;
        }
        out
    }
}

} // verus!
