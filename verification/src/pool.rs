//! The slot pool: a fixed-size arena of per-file read states.
//!
//! A slot is an integer index below the pool's capacity. Each slot is either
//! free (listed on an explicit free-index stack, holding no state) or
//! occupied by the read state of one in-flight file. The well-formedness
//! invariant ties the free stack to the table exactly, so occupied slots and
//! free indices always partition the capacity.

use vstd::prelude::*;

use crate::file_state::FileReadState;

verus! {

/// How many entries of the table are occupied.
pub open spec fn n_occupied(s: Seq<Option<FileReadState>>) -> int
    decreases s.len(),
{
    if s.len() == 0 {
        0
    } else {
        n_occupied(s.drop_last()) + if s.last() is Some {
            1int
        } else {
            0int
        }
    }
}

/// Replacing one entry changes the occupied count by exactly the difference
/// the two entries make.
pub proof fn lemma_n_occupied_update(
    s: Seq<Option<FileReadState>>,
    i: int,
    v: Option<FileReadState>,
)
    requires
        0 <= i < s.len(),
    ensures
        n_occupied(s.update(i, v)) == n_occupied(s) - (if s[i] is Some {
            1int
        } else {
            0int
        }) + (if v is Some {
            1int
        } else {
            0int
        }),
    decreases s.len(),
{
    let t = s.update(i, v);
    if i == s.len() - 1 {
        assert(t.drop_last() =~= s.drop_last());
    } else {
        assert(t.drop_last() =~= s.drop_last().update(i, v));
        lemma_n_occupied_update(s.drop_last(), i, v);
    }
}

/// The occupied count never exceeds the table's length.
pub proof fn lemma_n_occupied_bounds(s: Seq<Option<FileReadState>>)
    ensures
        0 <= n_occupied(s) <= s.len(),
    decreases s.len(),
{
    if s.len() > 0 {
        lemma_n_occupied_bounds(s.drop_last());
    }
}

/// A fixed-size table of optional per-slot read states plus an explicit
/// free-index stack.
pub struct SlotPool {
    entries: Vec<Option<FileReadState>>,
    free: Vec<usize>,
}

/// Occupied slots and free indices partition the capacity: a diverging free
/// list would be an engine defect, and well-formedness rules it out.
pub proof fn lemma_pool_accounting(p: &SlotPool)
    requires
        p.wf(),
    ensures
        p.n_occ() + p.n_free() == p.capacity(),
        0 <= p.n_occ() <= p.capacity(),
        0 <= p.n_free() <= p.capacity(),
{
    lemma_n_occupied_bounds(p.slots());
}

impl SlotPool {
    /// The whole table, for statements over every slot.
    pub closed spec fn slots(&self) -> Seq<Option<FileReadState>> {
        self.entries@
    }

    /// The fixed number of slots.
    pub open spec fn capacity(&self) -> int {
        self.slots().len() as int
    }

    /// The state occupying slot `i`, if any.
    pub open spec fn slot(&self, i: int) -> Option<FileReadState> {
        self.slots()[i]
    }

    pub open spec fn is_occupied(&self, i: int) -> bool {
        self.slot(i) is Some
    }

    /// How many slots are free.
    pub closed spec fn n_free(&self) -> int {
        self.free@.len() as int
    }

    /// How many slots are occupied.
    pub open spec fn n_occ(&self) -> int {
        n_occupied(self.slots())
    }

    /// The free stack lists exactly the unoccupied indices, each once, and
    /// the occupied count and the free count partition the capacity.
    pub closed spec fn wf(&self) -> bool {
        &&& self.free@.no_duplicates()
        &&& forall|k: int|
            0 <= k < self.free@.len() ==> (#[trigger] self.free@[k]) < self.entries@.len()
        &&& forall|k: int|
            0 <= k < self.free@.len() ==> self.entries@[#[trigger] self.free@[k] as int] is None
        &&& n_occupied(self.entries@) + self.free@.len() == self.entries@.len()
    }

    /// How many slots the pool was built with.
    pub fn num_slots(&self) -> (r: usize)
        ensures
            r as int == self.capacity(),
    {
        self.entries.len()
    }

    /// How many slots are free, as a count.
    pub fn free_count(&self) -> (r: usize)
        ensures
            r as int == self.n_free(),
    {
        self.free.len()
    }

    /// How many slots are occupied, as a count.
    pub fn occupied_count(&self) -> (r: usize)
        requires
            self.wf(),
        ensures
            r as int == self.n_occ(),
    {
        proof {
            lemma_n_occupied_bounds(self.entries@);
        }
        self.entries.len() - self.free.len()
    }

    /// A pool of `n` slots, all free.
    pub fn new(n: usize) -> (p: SlotPool)
        ensures
            p.wf(),
            p.capacity() == n,
            p.n_occ() == 0,
            p.n_free() == n,
            forall|i: int| 0 <= i < n ==> p.slot(i) is None,
    {
        let mut entries: Vec<Option<FileReadState>> = Vec::new();
        let mut free: Vec<usize> = Vec::new();
        let mut i: usize = 0;
        while i < n
            invariant
                i <= n,
                entries@.len() == i,
                free@.len() == i,
                forall|k: int| 0 <= k < i ==> entries@[k] is None,
                forall|k: int| 0 <= k < i ==> (#[trigger] free@[k]) == k,
                n_occupied(entries@) == 0,
            decreases n - i,
        {
            let ghost old_entries = entries@;
            entries.push(None);
            free.push(i);
            proof {
                assert(entries@.drop_last() =~= old_entries);
            }
            i = i + 1;
        }
        SlotPool { entries, free }
    }

    /// Pop a free slot and install the given read state in it; `None` means
    /// every slot is occupied (the backpressure signal).
    pub fn acquire(&mut self, st: FileReadState) -> (r: Option<usize>)
        requires
            old(self).wf(),
        ensures
            final(self).wf(),
            final(self).capacity() == old(self).capacity(),
            r is None <==> old(self).n_free() == 0,
            r is None ==> final(self).slots() == old(self).slots() && final(self).n_free()
                == old(self).n_free(),
            r matches Some(i) ==> {
                &&& 0 <= (i as int) < old(self).capacity()
                &&& old(self).slot(i as int) is None
                &&& final(self).slots() == old(self).slots().update(i as int, Some(st))
                &&& final(self).n_occ() == old(self).n_occ() + 1
                &&& final(self).n_free() == old(self).n_free() - 1
            },
    {
        match self.free.pop() {
            None => None,
            Some(i) => {
                let ghost s = self.entries@;
                self.entries.set(i, Some(st));
                proof {
                    lemma_n_occupied_update(s, i as int, Some(st));
                    assert forall|k: int|
                        0 <= k < self.free@.len() implies self.entries@[#[trigger] self.free@[k] as int]
                        is None by {
                        assert(old(self).free@[k] == self.free@[k]);
                        assert(old(self).free@[k] != old(self).free@[old(self).free@.len() - 1]);
                    }
                }
                Some(i)
            },
        }
    }

    /// Remove the state occupying slot `i` and return the slot to the free
    /// stack; only called once the slot's in-flight operation has fully
    /// completed.
    pub fn release(&mut self, i: usize) -> (st: FileReadState)
        requires
            old(self).wf(),
            0 <= (i as int) < old(self).capacity(),
            old(self).is_occupied(i as int),
        ensures
            final(self).wf(),
            final(self).capacity() == old(self).capacity(),
            Some(st) == old(self).slot(i as int),
            final(self).slots() == old(self).slots().update(i as int, None),
            final(self).n_occ() == old(self).n_occ() - 1,
            final(self).n_free() == old(self).n_free() + 1,
    {
        let ghost s = self.entries@;
        let mut taken: Option<FileReadState> = None;
        std::mem::swap(&mut taken, &mut self.entries[i]);
        let st = match taken {
            Some(st) => st,
            None => unreached(),
        };
        self.free.push(i);
        proof {
            lemma_n_occupied_update(s, i as int, None);
        }
        st
    }

    /// Borrow the state occupying slot `i`.
    pub fn borrow_slot(&self, i: usize) -> (st: &FileReadState)
        requires
            self.wf(),
            0 <= (i as int) < self.capacity(),
            self.is_occupied(i as int),
        ensures
            Some(*st) == self.slot(i as int),
    {
        match &self.entries[i] {
            Some(st) => st,
            None => unreached(),
        }
    }

    /// Borrow the state occupying slot `i` for mutation; the slot stays
    /// occupied, by whatever the caller leaves behind the reference.
    pub fn slot_mut(&mut self, i: usize) -> (st: &mut FileReadState)
        requires
            old(self).wf(),
            0 <= (i as int) < old(self).capacity(),
            old(self).is_occupied(i as int),
        ensures
            Some(*st) == old(self).slot(i as int),
            final(self).slots() == old(self).slots().update(i as int, Some(*final(st))),
            final(self).wf(),
            final(self).capacity() == old(self).capacity(),
            final(self).n_occ() == old(self).n_occ(),
            final(self).n_free() == old(self).n_free(),
    {
        let ghost s = self.entries@;
        let entry = &mut self.entries[i];
        proof {
            lemma_n_occupied_update(s, i as int, *final(entry));
        }
        match entry {
            Some(st) => st,
            None => unreached(),
        }
    }
}

} // verus!
