//! Items gathered under text keys, in the order they came.

use vstd::hash_map::StringHashMap;
use vstd::prelude::*;

verus! {

/// Items by key: a slot for every key that was ever named, and where each
/// key's slot is.
pub struct Groups<T> {
    slot_of: StringHashMap<usize>,
    slots: Vec<Vec<T>>,
}

impl<T> Groups<T> {
    /// Every key has a slot of its own.
    #[verifier::type_invariant]
    spec fn every_key_has_its_slot(self) -> bool {
        slots_agree(self.slot_of@, self.slots@.len())
    }

    /// The items gathered under a key.
    pub closed spec fn of(self, key: Seq<char>) -> Seq<T> {
        if self.slot_of@.contains_key(key) {
            self.slots@[self.slot_of@[key] as int]@
        } else {
            Seq::empty()
        }
    }

    pub fn new() -> (r: Groups<T>)
        ensures
            forall|key: Seq<char>| #[trigger] r.of(key) == Seq::<T>::empty(),
    {
        Groups { slot_of: StringHashMap::new(), slots: Vec::new() }
    }

    /// Puts an item behind those already under its key.
    pub fn put(&mut self, key: String, item: T)
        ensures
            final(self).of(key@) == old(self).of(key@).push(item),
            forall|other: Seq<char>|
                other != key@ ==> #[trigger] final(self).of(other) == old(self).of(other),
    {
        proof {
            use_type_invariant(&*self);
        }
        let mut slot_of = StringHashMap::new();
        let mut slots: Vec<Vec<T>> = Vec::new();
        std::mem::swap(&mut self.slot_of, &mut slot_of);
        std::mem::swap(&mut self.slots, &mut slots);
        let known: Option<usize> = match slot_of.get(key.as_str()) {
            Some(at) => Some(*at),
            None => None,
        };
        match known {
            Some(at) => slots[at].push(item),
            None => {
                let mut first: Vec<T> = Vec::new();
                first.push(item);
                let at: usize = slots.len();
                slots.push(first);
                slot_of.insert(key, at);
            },
        }
        *self = Groups { slot_of, slots };
    }

    /// Takes everything gathered under a key away.
    pub fn take(&mut self, key: &str) -> (r: Vec<T>)
        ensures
            r@ == old(self).of(key@),
            final(self).of(key@) == Seq::<T>::empty(),
            forall|other: Seq<char>|
                other != key@ ==> #[trigger] final(self).of(other) == old(self).of(other),
    {
        proof {
            use_type_invariant(&*self);
        }
        let mut taken: Vec<T> = Vec::new();
        let known: Option<usize> = match self.slot_of.get(key) {
            Some(at) => Some(*at),
            None => None,
        };
        if let Some(at) = known {
            let mut slots: Vec<Vec<T>> = Vec::new();
            let mut slot_of = StringHashMap::new();
            std::mem::swap(&mut self.slot_of, &mut slot_of);
            std::mem::swap(&mut self.slots, &mut slots);
            std::mem::swap(&mut slots[at], &mut taken);
            *self = Groups { slot_of, slots };
        }
        taken
    }
}

spec fn slots_agree(slot_of: Map<Seq<char>, usize>, slots: nat) -> bool {
    &&& forall|key: Seq<char>| #[trigger]
        slot_of.contains_key(key) ==> (slot_of[key] as int) < slots
    &&& forall|a: Seq<char>, b: Seq<char>|
        #![trigger slot_of.contains_key(a), slot_of.contains_key(b)]
        slot_of.contains_key(a) && slot_of.contains_key(b) && a != b ==> slot_of[a] != slot_of[b]
}

} // verus!
