use vstd::prelude::*;
use std::collections::VecDeque;
use crate::geom::Direction;

verus! {

/// A depth-bounded FIFO of buffered direction requests (an entry may also
/// be "no direction", from a key that maps to none). At most two entries
/// are ever queued: pushing onto a full queue, or pushing a value already
/// queued, clears the queue and restarts it with just the new entry, so a
/// burst of key presses inside one tick window cannot overwrite the
/// player's intent.
pub struct InputQueue {
    pub entries: VecDeque<Option<Direction>>,
}

/// Equality of two buffered entries.
fn opt_dir_eq(a: Option<Direction>, b: Option<Direction>) -> (r: bool)
    ensures
        r == (a == b),
{
    match (a, b) {
        (Option::None, Option::None) => true,
        (Option::Some(x), Option::Some(y)) => x == y,
        _ => false,
    }
}

impl InputQueue {
    /// The queue never holds more than two entries.
    pub open spec fn wf(self) -> bool {
        self.entries@.len() <= 2
    }

    /// An empty queue.
    pub fn new() -> (q: InputQueue)
        ensures
            q.entries@ =~= Seq::<Option<Direction>>::empty(),
            q.wf(),
    {
        InputQueue { entries: VecDeque::new() }
    }

    /// Whether `d` is already buffered.
    fn contains_entry(&self, d: Option<Direction>) -> (r: bool)
        ensures
            r == self.entries@.contains(d),
    {
        let mut i: usize = 0;
        while i < self.entries.len()
            invariant
                i <= self.entries@.len(),
                forall|j: int| 0 <= j < i ==> self.entries@[j] != d,
            decreases self.entries@.len() - i,
        {
            if opt_dir_eq(self.entries[i], d) {
                return true;
            }
            i += 1;
        }
        assert(!self.entries@.contains(d));
        false
    }

    /// Buffers a request: appended while fewer than two entries are queued
    /// and the value is not queued yet; otherwise the queue is cleared and
    /// restarted with just this entry.
    pub fn push(&mut self, d: Option<Direction>)
        ensures
            final(self).wf(),
            if old(self).entries@.len() < 2 && !old(self).entries@.contains(d) {
                final(self).entries@ == old(self).entries@.push(d)
            } else {
                final(self).entries@ == seq![d]
            },
    {
        if self.entries.len() < 2 && !self.contains_entry(d) {
            self.entries.push_back(d);
        } else {
            self.entries.clear();
            self.entries.push_back(d);
            proof {
                assert(self.entries@ =~= seq![d]);
            }
        }
    }

    /// FIFO removal: the oldest buffered entry, or "no direction" when the
    /// queue is empty.
    pub fn pop(&mut self) -> (r: Option<Direction>)
        ensures
            old(self).entries@.len() == 0 ==> r == Option::<Direction>::None
                && final(self).entries@ == old(self).entries@,
            old(self).entries@.len() > 0 ==> r == old(self).entries@[0] && final(self).entries@
                == old(self).entries@.subrange(1, old(self).entries@.len() as int),
    {
        match self.entries.pop_front() {
            Option::None => Option::None,
            Option::Some(d) => d,
        }
    }

    /// Whether nothing is buffered.
    pub fn is_empty(&self) -> (r: bool)
        ensures
            r == (self.entries@.len() == 0),
    {
        self.entries.len() == 0
    }

    /// The buffered entries, oldest first, for inspection.
    pub fn to_vec(&self) -> (v: Vec<Option<Direction>>)
        ensures
            v@ == self.entries@,
    {
        let mut v: Vec<Option<Direction>> = Vec::new();
        let mut i: usize = 0;
        while i < self.entries.len()
            invariant
                i <= self.entries@.len(),
                v@.len() == i,
                forall|j: int| 0 <= j < i ==> v@[j] == self.entries@[j],
            decreases self.entries@.len() - i,
        {
            v.push(self.entries[i]);
            i += 1;
        }
        proof {
            assert(v@ =~= self.entries@);
        }
        v
    }
}

} // verus!
