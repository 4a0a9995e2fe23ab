//! The terms of the most recent log entries, in a fixed-size ring.

use vstd::prelude::*;

use crate::types::{LogIndex, Term};

verus! {

#[derive(Clone, Copy, Debug)]
struct LogMetadataSlot {
    term: Term,
    index: LogIndex,
}

/// Remembers the terms of a contiguous run of log entries, at most as many as
/// its capacity, so that most term lookups need no storage read.
pub struct LogMetadataArena {
    slots: Vec<LogMetadataSlot>,
    head: usize,
    len: usize,
    base_index: LogIndex,
}

/// The slot number of the `i`-th entry of a ring that starts at `head`.
spec fn ring(head: int, i: int, cap: int) -> int {
    if head + i < cap {
        head + i
    } else {
        head + i - cap
    }
}

fn ring_slot(head: usize, i: usize, cap: usize) -> (r: usize)
    requires
        head < cap,
        i <= cap,
    ensures
        r == ring(head as int, i as int, cap as int),
{
    if i < cap - head {
        head + i
    } else {
        i - (cap - head)
    }
}

/// What an arena holds: the terms of the entries from `base` on.
#[verifier::ext_equal]
pub struct ArenaModel {
    pub capacity: nat,
    pub base: u64,
    pub terms: Seq<Term>,
}

impl ArenaModel {
    /// The remembered term of the entry at `index`.
    pub open spec fn lookup(self, index: int) -> Option<Term> {
        if self.base <= index < self.base + self.terms.len() {
            Some(self.terms[index - self.base])
        } else {
            None
        }
    }

    /// Whether `index` continues the remembered run.
    pub open spec fn continues(self, index: u64) -> bool {
        self.terms.len() > 0 && index == self.base + self.terms.len()
    }

    /// The arena with the term of the entry at `index` remembered: an index
    /// that does not continue the run starts a new one, and a full arena
    /// forgets its oldest term.
    pub open spec fn appended(self, index: u64, term: Term) -> ArenaModel {
        if self.capacity == 0 {
            self
        } else if !self.continues(index) {
            ArenaModel { base: index, terms: seq![term], ..self }
        } else if self.terms.len() < self.capacity {
            ArenaModel { terms: self.terms.push(term), ..self }
        } else {
            ArenaModel {
                base: (self.base + 1) as u64,
                terms: self.terms.push(term).skip(1),
                ..self
            }
        }
    }

    /// The arena with every term from `from` on forgotten.
    pub open spec fn truncated(self, from: u64) -> ArenaModel {
        if self.terms.len() == 0 {
            self
        } else if from <= self.base {
            self.cleared(from)
        } else if from - self.base < self.terms.len() {
            ArenaModel { terms: self.terms.take(from - self.base), ..self }
        } else {
            self
        }
    }

    /// The empty arena, with the next run expected at `base`.
    pub open spec fn cleared(self, base: u64) -> ArenaModel {
        ArenaModel { base, terms: Seq::empty(), ..self }
    }

    /// Whether everything the arena remembers is what `terms` says.
    pub open spec fn agrees(self, term_of: spec_fn(int) -> Option<Term>) -> bool {
        forall|i: int| #[trigger] self.lookup(i) is Some ==> self.lookup(i) == term_of(i)
    }
}

impl View for LogMetadataArena {
    type V = ArenaModel;

    closed spec fn view(&self) -> ArenaModel {
        ArenaModel {
            capacity: self.slots@.len(),
            base: self.base_index.0,
            terms: Seq::new(
                self.len as nat,
                |i: int| self.slots@[ring(self.head as int, i, self.slots@.len() as int)].term,
            ),
        }
    }
}

impl LogMetadataArena {
    #[verifier::type_invariant]
    spec fn inv(self) -> bool {
        &&& self.len <= self.slots@.len()
        &&& self.slots@.len() > 0 ==> self.head < self.slots@.len()
        &&& self.len > 0 ==> self.base_index.0 + self.len - 1 <= u64::MAX
        &&& forall|i: int| #![trigger ring(self.head as int, i, self.slots@.len() as int)]
            0 <= i < self.len ==> self.slots@[ring(
                self.head as int,
                i,
                self.slots@.len() as int,
            )].index.0 == self.base_index.0 + i
    }

    pub fn new(capacity: usize) -> (r: Self)
        ensures
            r@ == (ArenaModel { capacity: capacity as nat, base: 0, terms: Seq::empty() }),
    {
        let mut slots: Vec<LogMetadataSlot> = Vec::with_capacity(capacity);
        let mut i: usize = 0;
        while i < capacity
            invariant
                i <= capacity,
                slots@.len() == i,
            decreases capacity - i,
        {
            slots.push(LogMetadataSlot { term: Term(0), index: LogIndex(0) });
            i = i + 1;
        }
        let r = LogMetadataArena { slots, head: 0, len: 0, base_index: LogIndex(0) };
        assert(r@.terms =~= Seq::<Term>::empty());
        r
    }

    /// Remembers the term of the entry at `index`. An index that does not
    /// continue the run starts a new one; a full arena forgets its oldest term.
    pub fn append(&mut self, index: LogIndex, term: Term)
        ensures
            final(self)@ == old(self)@.appended(index.0, term),
    {
        proof {
            use_type_invariant(&*self);
        }
        let cap: usize = self.slots.len();
        if cap == 0 {
            return;
        }
        let mut head: usize = self.head;
        let mut len: usize = self.len;
        let mut base: u64 = self.base_index.0;
        let contiguous: bool = len > 0 && index.0 >= base && index.0 - base == len as u64;
        if !contiguous {
            head = 0;
            len = 0;
            base = index.0;
        }
        if len == cap {
            head = ring_slot(head, 1, cap);
            base = base + 1;
            len = len - 1;
        }
        let write: usize = ring_slot(head, len, cap);
        let mut slots: Vec<LogMetadataSlot> = Vec::new();
        self.len = 0;
        self.head = 0;
        std::mem::swap(&mut slots, &mut self.slots);
        slots.set(write, LogMetadataSlot { term, index });
        assert forall|i: int| #![trigger ring(head as int, i, cap as int)] 0 <= i < len
            + 1 implies slots@[ring(head as int, i, cap as int)].index.0 == base + i by {
            let h = old(self).head as int;
            let shift: int = if contiguous && old(self).len == cap {
                1
            } else {
                0
            };
            if i < len {
                assert(ring(head as int, i, cap as int) == ring(h, i + shift, cap as int));
            }
        }
        *self = LogMetadataArena { slots, head, len: len + 1, base_index: LogIndex(base) };
        assert(self@.terms =~= old(self)@.appended(index.0, term).terms);
    }

    /// The remembered term of the entry at `index`.
    pub fn get_term(&self, index: LogIndex) -> (r: Option<Term>)
        ensures
            r == self@.lookup(index.0 as int),
    {
        proof {
            use_type_invariant(self);
        }
        let cap: usize = self.slots.len();
        if cap == 0 || self.len == 0 {
            return None;
        }
        if index.0 >= self.base_index.0 && index.0 - self.base_index.0 < self.len as u64 {
            let offset: usize = (index.0 - self.base_index.0) as usize;
            let read: usize = ring_slot(self.head, offset, cap);
            let slot = &self.slots[read];
            if slot.index == index {
                return Some(slot.term);
            }
        }
        None
    }

    /// Forgets every term from `from` on.
    pub fn truncate_suffix(&mut self, from: LogIndex)
        ensures
            final(self)@ == old(self)@.truncated(from.0),
    {
        proof {
            use_type_invariant(&*self);
        }
        if self.len == 0 {
            return;
        }
        if from.0 <= self.base_index.0 {
            self.clear(from);
            return;
        }
        if from.0 - self.base_index.0 < self.len as u64 {
            self.len = (from.0 - self.base_index.0) as usize;
            assert(self@.terms =~= old(self)@.truncated(from.0).terms);
        }
    }

    /// Forgets everything; the next run is expected at `new_base`.
    pub fn clear(&mut self, new_base: LogIndex)
        ensures
            final(self)@ == old(self)@.cleared(new_base.0),
    {
        proof {
            use_type_invariant(&*self);
        }
        self.len = 0;
        self.head = 0;
        self.base_index = new_base;
        assert(self@.terms =~= Seq::<Term>::empty());
    }
}

/// Remembering an entry makes its term known, and every other term of a
/// continued run but the oldest stays known.
pub proof fn law_append_keeps_run(arena: ArenaModel, index: u64, term: Term, other: int)
    requires
        arena.capacity > 0,
        arena.terms.len() <= arena.capacity,
    ensures
        arena.appended(index, term).lookup(index as int) == Some(term),
        arena.appended(index, term).terms.len() <= arena.capacity,
        arena.continues(index) && arena.base < other < index ==> arena.appended(
            index,
            term,
        ).lookup(other) == arena.lookup(other),
{
}

/// After a truncation no lookup at or past the cut succeeds, and every lookup
/// below it gives what it gave before.
pub proof fn law_truncate_keeps_prefix(arena: ArenaModel, from: u64, other: int)
    ensures
        other >= from ==> arena.truncated(from).lookup(other) is None,
        other < from ==> arena.truncated(from).lookup(other) == arena.lookup(other),
{
}

} // verus!
