use vstd::prelude::*;

verus! {

/// A finite map keyed by small integers (sequence numbers, checkpoint ids),
/// stored densely: slot `k` holds the value for key `k`, if any.
///
/// Recovery prunes these maps to the keys at or below a flush point in one
/// pass (`retain_upto`); std's `BTreeMap::retain` has no specification that
/// verified code could call, so the map keeps its own slots.
pub struct SeqMap<V> {
    slots: Vec<Option<V>>,
}

impl<V> View for SeqMap<V> {
    type V = Map<usize, V>;

    closed spec fn view(&self) -> Map<usize, V> {
        Map::new(
            |k: usize| (k as int) < self.slots@.len() && self.slots@[k as int] is Some,
            |k: usize| self.slots@[k as int]->0,
        )
    }
}

impl<V: Copy> SeqMap<V> {
    /// Number of dense slots; every key of the map is below it.
    pub closed spec fn spec_slot_count(&self) -> nat {
        self.slots@.len()
    }

    pub proof fn lemma_keys_below_slot_count(&self)
        ensures
            forall|k: usize| self@.contains_key(k) ==> (k as int) < self.spec_slot_count(),
    {
    }

    pub fn new() -> (m: Self)
        ensures
            m@ == Map::<usize, V>::empty(),
    {
        let m = SeqMap { slots: Vec::new() };
        assert(m@ =~= Map::<usize, V>::empty());
        m
    }

    pub fn slot_count(&self) -> (n: usize)
        ensures
            n == self.spec_slot_count(),
    {
        self.slots.len()
    }

    pub fn get(&self, k: usize) -> (r: Option<V>)
        ensures
            r == (if self@.contains_key(k) { Some(self@[k]) } else { None::<V> }),
    {
        if k < self.slots.len() {
            self.slots[k]
        } else {
            None
        }
    }

    /// Whether the map has no key.
    pub fn is_empty(&self) -> (r: bool)
        ensures
            r == (self@ == Map::<usize, V>::empty()),
    {
        let mut i: usize = 0;
        while i < self.slots.len()
            invariant
                i <= self.slots@.len(),
                forall|j: int| 0 <= j < i ==> self.slots@[j] is None,
            decreases self.slots@.len() - i,
        {
            if self.slots[i].is_some() {
                assert(self@.contains_key(i));
                assert(!Map::<usize, V>::empty().contains_key(i));
                return false;
            }
            i += 1;
        }
        assert(self@ =~= Map::<usize, V>::empty());
        true
    }

    pub fn contains_key(&self, k: usize) -> (r: bool)
        ensures
            r == self@.contains_key(k),
    {
        k < self.slots.len() && self.slots[k].is_some()
    }

    pub fn insert(&mut self, k: usize, v: V)
        requires
            k < usize::MAX,
        ensures
            final(self)@ == old(self)@.insert(k, v),
    {
        let ghost old_slots = self.slots@;
        while self.slots.len() <= k
            invariant
                k < usize::MAX,
                self.slots@.len() >= old_slots.len(),
                forall|i: int| 0 <= i < old_slots.len() ==> self.slots@[i] == old_slots[i],
                forall|i: int| old_slots.len() <= i < self.slots@.len() ==> self.slots@[i] is None,
            decreases k + 1 - self.slots@.len(),
        {
            self.slots.push(None);
        }
        self.slots.set(k, Some(v));
        assert(self@ =~= old(self)@.insert(k, v));
    }

    pub fn remove(&mut self, k: usize)
        ensures
            final(self)@ == old(self)@.remove(k),
    {
        if k < self.slots.len() {
            self.slots.set(k, None);
        }
        assert(self@ =~= old(self)@.remove(k));
    }

    /// Keeps exactly the keys that are at most `bound`.
    pub fn retain_upto(&mut self, bound: usize)
        ensures
            final(self)@ == old(self)@.restrict(Set::new(crate::lsu_queues::at_most(bound))),
    {
        if bound < self.slots.len() {
            self.slots.truncate(bound + 1);
        }
        assert(self@ =~= old(self)@.restrict(Set::new(crate::lsu_queues::at_most(bound))));
    }
}

} // verus!
