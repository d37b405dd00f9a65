use crate::data_containers::indexset_person_container::IndexSetPersonContainer;
use crate::people::PersonId;
use rand::rngs::StdRng;
use vstd::prelude::*;

verus! {

/// A set of people that numbers its members, so that one can be taken by index or drawn at
/// random.
pub struct PersonContainer {
    people: IndexSetPersonContainer,
}

impl PersonContainer {
    /// No member has two indices.
    pub closed spec fn wf(&self) -> bool {
        crate::data_containers::PersonContainer::wf(&self.people)
    }

    /// The members by index.
    pub closed spec fn order(&self) -> Seq<PersonId> {
        self.people.order()
    }

    /// The members.
    pub open spec fn members(&self) -> Set<PersonId> {
        self.order().to_set()
    }

    pub fn new() -> (container: PersonContainer)
        ensures
            container.wf(),
            container.order() == Seq::<PersonId>::empty(),
    {
        PersonContainer { people: IndexSetPersonContainer::new() }
    }

    pub fn with_capacity(n: usize) -> (container: PersonContainer)
        ensures
            container.wf(),
            container.order() == Seq::<PersonId>::empty(),
    {
        PersonContainer { people: IndexSetPersonContainer::with_capacity(n) }
    }

    /// Adds `person_id`, at the end, unless it is a member already.
    pub fn insert(&mut self, person_id: PersonId)
        requires
            old(self).wf(),
        ensures
            final(self).wf(),
            final(self).order() == if old(self).members().contains(person_id) {
                old(self).order()
            } else {
                old(self).order().push(person_id)
            },
            final(self).members() == old(self).members().insert(person_id),
    {
        crate::data_containers::PersonContainer::insert(&mut self.people, person_id);
    }

    /// Takes `person_id` out, if it is a member; the last member then takes its index.
    pub fn remove(&mut self, person_id: &PersonId)
        requires
            old(self).wf(),
        ensures
            final(self).wf(),
            final(self).members() == old(self).members().remove(*person_id),
            !old(self).members().contains(*person_id) ==> final(self).order() == old(self).order(),
            old(self).members().contains(*person_id) ==> final(self).order().len() + 1 == old(self).order().len(),
    {
        crate::data_containers::PersonContainer::remove(&mut self.people, person_id);
    }

    pub fn contains(&self, person_id: &PersonId) -> (found: bool)
        requires
            self.wf(),
        ensures
            found == self.members().contains(*person_id),
    {
        crate::data_containers::PersonContainer::contains(&self.people, person_id)
    }

    /// A member at an index that `rng` picks, or `None` if there is no member.
    pub fn get_random(&self, rng: &mut StdRng) -> (person_id: Option<PersonId>)
        requires
            self.wf(),
        ensures
            person_id is None <==> self.members().len() == 0,
            person_id matches Some(p) ==> self.members().contains(p),
    {
        crate::data_containers::PersonContainer::get_random(&self.people, rng)
    }

    /// The member at index `n`, which is below the number of members.
    pub fn get_nth(&self, n: usize) -> (person_id: PersonId)
        requires
            self.wf(),
            n < self.order().len(),
        ensures
            person_id == self.order()[n as int],
    {
        self.people.get_nth(n)
    }

    pub fn len(&self) -> (len: usize)
        requires
            self.wf(),
        ensures
            len == self.order().len(),
            len == self.members().len(),
    {
        crate::data_containers::PersonContainer::len(&self.people)
    }

    pub fn is_empty(&self) -> (empty: bool)
        requires
            self.wf(),
        ensures
            empty == (self.order().len() == 0),
            empty == (self.members().len() == 0),
    {
        crate::data_containers::PersonContainer::is_empty(&self.people)
    }
}

impl Default for PersonContainer {
    fn default() -> (container: PersonContainer)
        ensures
            container.wf(),
            container.order() == Seq::<PersonId>::empty(),
    {
        PersonContainer::new()
    }
}

} // verus!
