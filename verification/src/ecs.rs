//! The entity-component store: a generation-checked entity arena plus one
//! sparse column per component kind.
//!
//! An entity is an index into the arena together with the generation the slot
//! had when the entity was created.  A reference to a deleted entity therefore
//! stays detectable: the slot's generation is bumped on deletion, so the stale
//! reference no longer validates.  Deletions requested during a turn are
//! queued and applied only at the `maintain` barrier, so iteration never
//! observes a half-deleted entity.

use vstd::prelude::*;

verus! {

/// A handle to an entity: slot index plus the generation at creation time.
#[derive(Clone, Copy, PartialEq, Eq, Structural, Debug, Hash)]
pub struct EntityId {
    pub idx: usize,
    pub gen: u64,
}

/// Sparse storage for one component kind: cell `i` holds the component of the
/// entity in arena slot `i`, if that entity has one.
pub struct Column<C> {
    cells: Vec<Option<C>>,
}

impl<C> View for Column<C> {
    type V = Seq<Option<C>>;

    closed spec fn view(&self) -> Seq<Option<C>> {
        self.cells@
    }
}

impl<C> Column<C> {
    /// True when slot `i` holds a component.
    pub open spec fn has(self, i: int) -> bool {
        0 <= i < self@.len() && self@[i] is Some
    }

    pub fn new(cap: usize) -> (r: Column<C>)
        ensures
            r@.len() == cap,
            forall|i: int| 0 <= i < cap ==> r@[i] is None,
    {
        let mut cells: Vec<Option<C>> = Vec::new();
        let mut n: usize = 0;
        while n < cap
            invariant
                n <= cap,
                cells@.len() == n,
                forall|i: int| 0 <= i < n ==> cells@[i] is None,
            decreases cap - n,
        {
            cells.push(None);
            n = n + 1;
        }
        Column { cells }
    }

    pub fn len(&self) -> (r: usize)
        ensures
            r == self@.len(),
    {
        self.cells.len()
    }

    pub fn contains(&self, i: usize) -> (r: bool)
        requires
            i < self@.len(),
        ensures
            r == self.has(i as int),
    {
        self.cells[i].is_some()
    }

    pub fn get(&self, i: usize) -> (r: Option<&C>)
        requires
            i < self@.len(),
        ensures
            r is Some <==> self@[i as int] is Some,
            r is Some ==> *r->Some_0 == self@[i as int]->Some_0,
    {
        self.cells[i].as_ref()
    }

    pub fn insert(&mut self, i: usize, c: C)
        requires
            i < old(self)@.len(),
        ensures
            final(self)@ == old(self)@.update(i as int, Some(c)),
    {
        self.cells.set(i, Some(c));
    }

    pub fn remove(&mut self, i: usize)
        requires
            i < old(self)@.len(),
        ensures
            final(self)@ == old(self)@.update(i as int, None),
    {
        self.cells.set(i, None);
    }

    /// Removes every component of this kind; used to clear one-shot intents.
    pub fn clear(&mut self)
        ensures
            final(self)@.len() == old(self)@.len(),
            forall|i: int| 0 <= i < final(self)@.len() ==> final(self)@[i] is None,
    {
        let n: usize = self.cells.len();
        let mut k: usize = 0;
        while k < n
            invariant
                k <= n,
                self.cells@.len() == n,
                forall|i: int| 0 <= i < k ==> self.cells@[i] is None,
            decreases n - k,
        {
            self.cells.set(k, None);
            k = k + 1;
        }
    }

    /// Adds one empty slot at the end, keeping pace with the arena.
    pub fn push_none(&mut self)
        ensures
            final(self)@ == old(self)@.push(None),
    {
        self.cells.push(None);
    }
}

impl<C: Clone> Column<C> {
    pub fn get_cloned(&self, i: usize) -> (r: Option<C>)
        requires
            i < self@.len(),
        ensures
            r is Some <==> self@[i as int] is Some,
    {
        match self.cells[i].as_ref() {
            Some(c) => Some(c.clone()),
            None => None,
        }
    }
}

} // verus!
