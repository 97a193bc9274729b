//! Maps from window numbers.

use vstd::prelude::*;

verus! {

/// How many window numbers there are.
pub const WINDOW_NUMBERS: usize = 256;

/// A map from window numbers to values.
#[derive(Debug)]
pub struct WindowMap<V> {
    slots: Vec<Option<V>>,
}

impl<V> WindowMap<V> {
    /// There is a slot for every window number.
    pub closed spec fn wf(&self) -> bool {
        self.slots@.len() == WINDOW_NUMBERS
    }

    /// The map.
    pub closed spec fn view(&self) -> Map<u8, V> {
        Map::new(|k: u8| self.slots@[k as int] is Some, |k: u8| self.slots@[k as int]->0)
    }

    /// An empty map.
    pub fn new() -> (r: WindowMap<V>)
        ensures
            r.wf(),
            r@ == Map::<u8, V>::empty(),
    {
        let mut slots: Vec<Option<V>> = Vec::new();
        let mut i: usize = 0;
        while i < WINDOW_NUMBERS
            invariant
                i <= WINDOW_NUMBERS,
                slots@.len() == i,
                forall|j: int| 0 <= j < i ==> (#[trigger] slots@[j]) is None,
            decreases WINDOW_NUMBERS - i,
        {
            slots.push(None);
            i = i + 1;
        }
        let r = WindowMap { slots };
        assert(r@ =~= Map::<u8, V>::empty());
        r
    }

    /// Tests whether a window has a value.
    pub fn contains(&self, k: u8) -> (r: bool)
        requires
            self.wf(),
        ensures
            r == self@.dom().contains(k),
    {
        self.slots[k as usize].is_some()
    }

    /// The value of a window.
    pub fn get(&self, k: u8) -> (r: Option<&V>)
        requires
            self.wf(),
        ensures
            self@.dom().contains(k) ==> r == Some(&self@[k]),
            !self@.dom().contains(k) ==> r is None,
    {
        match &self.slots[k as usize] {
            Some(v) => Some(v),
            None => None,
        }
    }

    /// Gives a window a value, in place of the one it had.
    pub fn insert(&mut self, k: u8, v: V)
        requires
            old(self).wf(),
        ensures
            final(self).wf(),
            final(self)@ == old(self)@.insert(k, v),
    {
        self.slots.set(k as usize, Some(v));
        assert(self@ =~= old(self)@.insert(k, v));
    }

    /// Takes the value of a window out of the map.
    pub fn remove(&mut self, k: u8) -> (r: Option<V>)
        requires
            old(self).wf(),
        ensures
            final(self).wf(),
            final(self)@ == old(self)@.remove(k),
            old(self)@.dom().contains(k) ==> r == Some(old(self)@[k]),
            !old(self)@.dom().contains(k) ==> r is None,
    {
        let mut out: Option<V> = None;
        let slot = &mut self.slots[k as usize];
        std::mem::swap(slot, &mut out);
        assert(self@ =~= old(self)@.remove(k));
        out
    }

    /// Empties the map.
    pub fn clear(&mut self)
        ensures
            final(self).wf(),
            final(self)@ == Map::<u8, V>::empty(),
    {
        *self = WindowMap::new();
    }
}

} // verus!
