use crate::people::PersonId;
use rand::rngs::StdRng;
use vstd::prelude::*;

pub mod heterogeneous_container;
pub mod indexset_person_container;
pub mod person_container;
pub mod vector_heterogeneous_container;
pub mod vector_person_container;

verus! {

/// A key into a `HeterogeneousContainer`: a type that stands for one slot.
pub trait Property {
    /// The slot of this key. Two keys of one container must not share a slot.
    const INDEX: usize;
}

/// A key into a `VecDataContainer`: a type that stands for one column of 64-bit cells, and the
/// value that an index of that column reads as before anything was written there.
pub trait PropertyWithDefault {
    /// The column of this key. Two keys of one container must not share a column.
    const INDEX: usize;

    /// What an index reads as until it is set.
    const DEFAULT: u64;
}

/// A set of people from which one can be drawn at random.
pub trait PersonContainer {
    /// What the container relies on. A container that was made empty has it, and keeps it as
    /// long as nobody is inserted who is a member and nobody is removed who is none.
    spec fn wf(&self) -> bool;

    /// The members.
    spec fn members(&self) -> Set<PersonId>;

    fn insert(&mut self, person_id: PersonId)
        requires
            old(self).wf(),
        ensures
            final(self).members() == old(self).members().insert(person_id),
            !old(self).members().contains(person_id) ==> final(self).wf(),
    ;

    fn remove(&mut self, person_id: &PersonId)
        requires
            old(self).wf(),
        ensures
            final(self).members() == old(self).members().remove(*person_id),
            old(self).members().contains(*person_id) ==> final(self).wf(),
    ;

    fn contains(&self, person_id: &PersonId) -> (found: bool)
        requires
            self.wf(),
        ensures
            found == self.members().contains(*person_id),
    ;

    /// A member that `rng` picks, or `None` if there is no member.
    fn get_random(&self, rng: &mut StdRng) -> (person_id: Option<PersonId>)
        requires
            self.wf(),
        ensures
            person_id is None <==> self.members().len() == 0,
            person_id matches Some(p) ==> self.members().contains(p),
    ;

    fn len(&self) -> (len: usize)
        requires
            self.wf(),
        ensures
            len == self.members().len(),
    ;

    fn is_empty(&self) -> (empty: bool)
        requires
            self.wf(),
        ensures
            empty == (self.members().len() == 0),
    ;
}

} // verus!
