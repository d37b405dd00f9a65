use crate::data_containers::Property;
use std::rc::Rc;
use vstd::prelude::*;

verus! {

/// std's `Rc::clone`: a second pointer to the same allocation, so to the same value.
#[verifier::external_body]
fn share<V>(value: &Rc<V>) -> (shared: Rc<V>)
    ensures
        shared == *value,
{
    Rc::clone(value)
}

/// One optional value for each key, shared by reference count.
pub struct HeterogeneousContainer<V> {
    data: Vec<Option<Rc<V>>>,
}

impl<V> HeterogeneousContainer<V> {
    /// The value of each slot that was set.
    pub closed spec fn values(&self) -> Map<usize, V> {
        Map::new(
            |slot: usize| slot < self.data.len() && self.data[slot as int] is Some,
            |slot: usize| *self.data[slot as int]->0,
        )
    }

    pub open spec fn value_of<K: Property>(&self) -> Option<V> {
        if self.values().contains_key(K::INDEX) {
            Some(self.values()[K::INDEX])
        } else {
            None
        }
    }

    pub fn new() -> (container: HeterogeneousContainer<V>)
        ensures
            container.values() == Map::<usize, V>::empty(),
    {
        let container = HeterogeneousContainer { data: Vec::new() };
        assert(container.values() =~= Map::<usize, V>::empty());
        container
    }

    /// Sets the slot of `K` to `value`.
    pub fn set_value<K: Property>(&mut self, value: V)
        requires
            K::INDEX < usize::MAX,
        ensures
            final(self).values() == old(self).values().insert(K::INDEX, value),
    {
        let property_index = K::INDEX;
        while self.data.len() <= property_index
            invariant
                self.values() == old(self).values(),
                old(self).data.len() <= self.data.len(),
            decreases property_index + 1 - self.data.len(),
        {
            let ghost before = self.values();
            self.data.push(None);
            assert(self.values() =~= before);
        }
        let ghost before = self.values();
        self.data[property_index] = Some(Rc::new(value));
        assert(self.values() =~= before.insert(K::INDEX, value));
    }

    /// The value in the slot of `K`, if it was set.
    pub fn get_value<K: Property>(&self) -> (value: Option<&V>)
        ensures
            match value {
                Some(v) => self.value_of::<K>() == Some(*v),
                None => self.value_of::<K>() is None,
            },
    {
        let property_index = K::INDEX;
        if property_index >= self.data.len() {
            return None;
        }
        match &self.data[property_index] {
            Some(shared) => Some(&**shared),
            None => None,
        }
    }

    /// The value in the slot of `K`, if it was set, as one more owner of it.
    pub fn get_rc_value<K: Property>(&self) -> (value: Option<Rc<V>>)
        ensures
            match value {
                Some(v) => self.value_of::<K>() == Some(*v),
                None => self.value_of::<K>() is None,
            },
    {
        let property_index = K::INDEX;
        if property_index >= self.data.len() {
            return None;
        }
        match &self.data[property_index] {
            Some(shared) => Some(share(shared)),
            None => None,
        }
    }
}

impl<V> Default for HeterogeneousContainer<V> {
    fn default() -> (container: HeterogeneousContainer<V>)
        ensures
            container.values() == Map::<usize, V>::empty(),
    {
        HeterogeneousContainer::new()
    }
}

} // verus!
