use crate::data_containers::indexset_person_container::people_of;
use crate::data_containers::PersonContainer;
use crate::observers::lemma_filter_push;
use crate::people::PersonId;
use crate::random::random_index;
use fxhash::FxBuildHasher;
use rand::rngs::StdRng;
use std::collections::HashSet;
use vstd::prelude::*;

verus! {

/// Whether a person is outside `invalid`.
pub open spec fn not_in(invalid: Set<PersonId>) -> spec_fn(PersonId) -> bool {
    |person_id: PersonId| !invalid.contains(person_id)
}

/// A set of numbers is as large as the set of the people that have them.
pub proof fn lemma_people_of_len(ids: Set<usize>)
    requires
        people_of(ids).finite(),
    ensures
        ids.finite(),
        people_of(ids).len() == ids.len(),
{
    let f = |person_id: PersonId| person_id.id;
    assert(people_of(ids).map(f) =~= ids) by {
        assert forall|id: usize| ids.contains(id) implies people_of(ids).map(f).contains(id) by {
            assert(people_of(ids).contains(PersonId { id }) && f(PersonId { id }) == id);
        }
    }
    assert(vstd::relations::injective_on(f, people_of(ids)));
    vstd::set_lib::lemma_map_size(people_of(ids), ids, f);
}

/// std's `HashSet::with_hasher`, on fxhash's default hasher: a set without items.
#[verifier::external_body]
fn fx_set_new() -> (set: HashSet<usize, FxBuildHasher>)
    ensures
        set@ == Set::<usize>::empty(),
{
    HashSet::with_hasher(FxBuildHasher::default())
}

/// std's `HashSet::insert`, on a set that hashes with fxhash: the set holds `item`
/// afterwards, and the call returns whether it lacked `item` before.
#[verifier::external_body]
fn fx_set_insert(set: &mut HashSet<usize, FxBuildHasher>, item: usize) -> (added: bool)
    ensures
        added == !old(set)@.contains(item),
        final(set)@ == old(set)@.insert(item),
{
    set.insert(item)
}

/// std's `HashSet::remove`, on a set that hashes with fxhash: the set lacks `item`
/// afterwards, and the call returns whether it held `item` before.
#[verifier::external_body]
fn fx_set_remove(set: &mut HashSet<usize, FxBuildHasher>, item: usize) -> (removed: bool)
    ensures
        removed == old(set)@.contains(item),
        final(set)@ == old(set)@.remove(item),
{
    set.remove(&item)
}

/// std's `HashSet::contains`, on a set that hashes with fxhash.
#[verifier::external_body]
fn fx_set_contains(set: &HashSet<usize, FxBuildHasher>, item: usize) -> (found: bool)
    ensures
        found == set@.contains(item),
{
    set.contains(&item)
}

/// std's `HashSet::len`, on a set that hashes with fxhash: the number of items.
#[verifier::external_body]
fn fx_set_len(set: &HashSet<usize, FxBuildHasher>) -> (len: usize)
    ensures
        len == set@.len(),
{
    set.len()
}

/// std's `HashSet::is_empty`, on a set that hashes with fxhash.
#[verifier::external_body]
fn fx_set_is_empty(set: &HashSet<usize, FxBuildHasher>) -> (empty: bool)
    ensures
        empty == (set@ == Set::<usize>::empty()),
{
    set.is_empty()
}

/// std's `HashSet::clear`, on a set that hashes with fxhash: no item is left.
#[verifier::external_body]
fn fx_set_clear(set: &mut HashSet<usize, FxBuildHasher>)
    ensures
        final(set)@ == Set::<usize>::empty(),
{
    set.clear()
}

/// A list of people in which a removal only leaves a note, until the notes are too many.
pub struct VecPersonContainer {
    people: Vec<PersonId>,
    invalid: HashSet<usize, FxBuildHasher>,
}

impl VecPersonContainer {
    /// The people that were inserted, in order, the removed ones among them until the list
    /// is next cleaned.
    pub closed spec fn people(&self) -> Seq<PersonId> {
        self.people@
    }

    /// The people of whose removal a note is kept.
    pub closed spec fn invalid(&self) -> Set<PersonId> {
        people_of(self.invalid@)
    }

    pub fn new() -> (container: VecPersonContainer)
        ensures
            container.wf(),
            container.people() == Seq::<PersonId>::empty(),
            container.invalid() == Set::<PersonId>::empty(),
    {
        let container = VecPersonContainer { people: Vec::new(), invalid: fx_set_new() };
        assert(container.invalid() =~= Set::<PersonId>::empty());
        container
    }

    /// A walk over the members, in the order of the list.
    pub fn iter(&self) -> (walk: Iter<'_>)
        ensures
            walk.remaining() == self.people().filter(not_in(self.invalid())),
    {
        let walk = Iter { container: self, position: 0 };
        assert(self.people@.skip(0) =~= self.people@);
        walk
    }

    /// The people of the list that are not noted as removed, in the order of the list.
    pub fn to_vec(&self) -> (valid: Vec<PersonId>)
        ensures
            valid@ == self.people().filter(not_in(self.invalid())),
            valid@.to_set() == self.members(),
            self.people().no_duplicates() ==> valid@.no_duplicates() && valid@.len() == self.members().len(),
    {
        let ghost keep = not_in(self.invalid());
        let mut valid: Vec<PersonId> = Vec::new();
        let mut i: usize = 0;
        assert(self.people@.take(0) =~= Seq::<PersonId>::empty());
        while i < self.people.len()
            invariant
                i <= self.people.len(),
                keep == not_in(self.invalid()),
                valid@ == self.people@.take(i as int).filter(keep),
                forall|j: int| 0 <= j < valid.len() ==>
                    self.people@.take(i as int).contains(#[trigger] valid[j]) && keep(valid[j]),
                forall|j: int| 0 <= j < i && keep(self.people[j]) ==> valid@.contains(#[trigger] self.people[j]),
                self.people@.no_duplicates() ==> valid@.no_duplicates(),
            decreases self.people.len() - i,
        {
            let person_id = self.people[i];
            proof {
                let before = self.people@.take(i as int);
                assert(self.people@.take(i + 1) =~= before.push(person_id));
                lemma_filter_push(before, person_id, keep);
                assert forall|j: int| 0 <= j < valid.len() implies self.people@.take(i + 1).contains(
                    #[trigger] valid[j],
                ) by {
                    let at = choose|at: int| 0 <= at < before.len() && before[at] == valid[j];
                    assert(self.people@.take(i + 1)[at] == valid[j]);
                }
            }
            if !fx_set_contains(&self.invalid, person_id.id) {
                proof {
                    if self.people@.no_duplicates() {
                        assert forall|j: int| 0 <= j < valid.len() implies valid[j] != person_id by {
                            let at = choose|at: int|
                                0 <= at < self.people@.take(i as int).len() && self.people@.take(i as int)[at]
                                    == valid[j];
                            assert(self.people@[at] == valid[j]);
                        }
                    }
                    assert(self.people@.take(i + 1)[i as int] == person_id);
                }
                let ghost old_valid = valid@;
                valid.push(person_id);
                proof {
                    assert forall|j: int| 0 <= j < i + 1 && keep(self.people[j]) implies valid@.contains(
                        #[trigger] self.people[j],
                    ) by {
                        if j < i {
                            let at = choose|at: int| 0 <= at < old_valid.len() && old_valid[at] == self.people[j];
                            assert(valid@[at] == self.people[j]);
                        } else {
                            assert(valid@[old_valid.len() as int] == self.people[j]);
                        }
                    }
                }
            }
            i += 1;
        }
        proof {
            assert(self.people@.take(i as int) =~= self.people@);
            assert(valid@.to_set() =~= self.members()) by {
                assert forall|p: PersonId| valid@.to_set().contains(p) implies self.members().contains(p) by {
                    let j = choose|j: int| 0 <= j < valid.len() && valid[j] == p;
                    assert(self.people@.contains(valid[j]));
                }
                assert forall|p: PersonId| self.members().contains(p) implies valid@.to_set().contains(p) by {
                    let j = choose|j: int| 0 <= j < self.people.len() && self.people[j] == p;
                    assert(valid@.contains(self.people[j]));
                }
            }
            if self.people@.no_duplicates() {
                valid@.unique_seq_to_set();
            }
        }
        valid
    }

    /// Under `wf`, the members are the people of the list less the noted ones, who all stand
    /// in the list.
    proof fn lemma_notes(&self)
        requires
            self.wf(),
        ensures
            self.invalid().finite(),
            self.invalid().len() <= self.people().len(),
            self.members().len() == self.people().len() - self.invalid().len(),
            self.members().finite(),
            self.invalid@.finite(),
            self.invalid@.len() == self.invalid().len(),
    {
        let listed = self.people@.to_set();
        let noted = self.invalid();
        self.people@.unique_seq_to_set();
        vstd::set_lib::lemma_len_subset(noted, listed);
        lemma_people_of_len(self.invalid@);
        assert(listed.intersect(noted) =~= noted);
        vstd::set_lib::lemma_set_difference_len(listed, noted);
    }
}

/// A walk over the members of a container: it stands at a place in the list and steps over
/// the people that are noted as removed.
pub struct Iter<'a> {
    container: &'a VecPersonContainer,
    position: usize,
}

impl<'a> Iter<'a> {
    /// The members that the walk has yet to come to, in order.
    pub closed spec fn remaining(&self) -> Seq<PersonId> {
        if self.position <= self.container.people@.len() {
            self.container.people@.skip(self.position as int).filter(not_in(self.container.invalid()))
        } else {
            Seq::empty()
        }
    }

    /// The next member, or `None` when the walk is at its end.
    pub fn next(&mut self) -> (person_id: Option<PersonId>)
        ensures
            match person_id {
                Some(member) => old(self).remaining().len() > 0 && member == old(self).remaining()[0] &&
                    final(self).remaining() == old(self).remaining().skip(1),
                None => old(self).remaining().len() == 0 && final(self).remaining().len() == 0,
            },
    {
        let ghost keep = not_in(self.container.invalid());
        let ghost people = self.container.people@;
        while self.position < self.container.people.len()
            invariant
                self.container == old(self).container,
                people == self.container.people@,
                keep == not_in(self.container.invalid()),
                self.remaining() == old(self).remaining(),
            decreases self.container.people.len() - self.position,
        {
            let person_id = self.container.people[self.position];
            proof {
                let rest = people.skip(self.position as int);
                assert(rest =~= seq![person_id] + people.skip(self.position + 1));
                people.skip(self.position + 1).lemma_filter_prepend(person_id, keep);
            }
            self.position += 1;
            if !fx_set_contains(&self.container.invalid, person_id.id) {
                proof {
                    let ahead = people.skip(self.position as int).filter(keep);
                    assert(keep(person_id));
                    assert(old(self).remaining() == seq![person_id] + ahead);
                    assert(old(self).remaining().skip(1) =~= ahead);
                }
                return Some(person_id);
            }
        }
        proof {
            if self.position == people.len() {
                assert(people.skip(self.position as int) =~= Seq::<PersonId>::empty());
            }
        }
        None
    }
}

impl Default for VecPersonContainer {
    fn default() -> (container: VecPersonContainer)
        ensures
            container.wf(),
            container.people() == Seq::<PersonId>::empty(),
            container.invalid() == Set::<PersonId>::empty(),
    {
        VecPersonContainer::new()
    }
}

impl PersonContainer for VecPersonContainer {
    /// Nobody stands twice in the list, and every note of a removal is of somebody in the list.
    open spec fn wf(&self) -> bool {
        &&& self.people().no_duplicates()
        &&& self.invalid().subset_of(self.people().to_set())
    }

    open spec fn members(&self) -> Set<PersonId> {
        self.people().to_set().difference(self.invalid())
    }

    /// Takes back the note of the removal of `person_id` if there is one, and else puts
    /// `person_id` at the end of the list.
    fn insert(&mut self, person_id: PersonId)
        ensures
            old(self).invalid().contains(person_id) ==> final(self).people() == old(self).people() &&
                final(self).invalid() == old(self).invalid().remove(person_id),
            !old(self).invalid().contains(person_id) ==> final(self).people() == old(self).people().push(
                person_id,
            ) && final(self).invalid() == old(self).invalid(),
    {
        if !fx_set_is_empty(&self.invalid) {
            let was_removed = fx_set_remove(&mut self.invalid, person_id.id);
            if !was_removed {
                self.people.push(person_id);
            }
        } else {
            self.people.push(person_id);
        }
        proof {
            if old(self).invalid().contains(person_id) {
                assert(old(self).invalid@.contains(person_id.id));
                assert(self.invalid() =~= old(self).invalid().remove(person_id));
                assert(self.people@.contains(person_id)) by {
                    assert(old(self).people@.to_set().contains(person_id));
                }
                assert(self.members() =~= old(self).members().insert(person_id));
                assert(self.invalid().subset_of(self.people@.to_set()));
            } else {
                assert(!old(self).invalid@.contains(person_id.id));
                assert(self.invalid() =~= old(self).invalid());
                assert(self.people@ == old(self).people@.push(person_id));
                assert forall|p: PersonId| self.people@.to_set().contains(p) <==>
                    old(self).people@.to_set().contains(p) || p == person_id by {
                        if self.people@.to_set().contains(p) {
                            let j = choose|j: int| 0 <= j < self.people@.len() && self.people@[j] == p;
                            if j < old(self).people@.len() {
                                assert(old(self).people@[j] == p);
                            }
                        }
                        if old(self).people@.to_set().contains(p) {
                            let j = choose|j: int| 0 <= j < old(self).people@.len() && old(self).people@[j] == p;
                            assert(self.people@[j] == p);
                        }
                        if p == person_id {
                            assert(self.people@[old(self).people@.len() as int] == p);
                        }
                }
                assert(self.members() =~= old(self).members().insert(person_id));
                if !old(self).members().contains(person_id) {
                    assert(!old(self).people@.contains(person_id));
                    assert(self.invalid().subset_of(self.people@.to_set()));
                    assert forall|i: int, j: int|
                        0 <= i < self.people@.len() && 0 <= j < self.people@.len() && i != j implies self.people@[i]
                        != self.people@[j] by {
                        if i < old(self).people@.len() {
                            assert(old(self).people@.contains(old(self).people@[i]));
                        }
                        if j < old(self).people@.len() {
                            assert(old(self).people@.contains(old(self).people@[j]));
                        }
                    }
                }
            }
        }
    }

    /// Notes the removal of `person_id`. When that makes the notes at least half as many as
    /// the list is long, and the list holds eight or more, the noted people leave the list
    /// and the notes are dropped.
    fn remove(&mut self, person_id: &PersonId)
        ensures
            final(self).people() == old(self).people() && final(self).invalid() == old(self).invalid().insert(
                *person_id,
            ) || final(self).people() == old(self).people().filter(
                not_in(old(self).invalid().insert(*person_id)),
            ) && final(self).invalid() == Set::<PersonId>::empty(),
    {
        fx_set_insert(&mut self.invalid, person_id.id);
        assert(self.invalid() =~= old(self).invalid().insert(*person_id));
        assert(self.members() =~= old(self).members().remove(*person_id));
        assert(old(self).members().contains(*person_id) ==> self.invalid().subset_of(self.people@.to_set()));
        let notes = fx_set_len(&self.invalid);
        let listed = self.people.len();
        if listed >= 8 && notes >= listed / 2 + listed % 2 {
            let kept = self.to_vec();
            let ghost before = *self;
            self.people = kept;
            fx_set_clear(&mut self.invalid);
            proof {
                assert(self.invalid() =~= Set::<PersonId>::empty());
                assert(self.members() =~= before.members());
                assert(kept@.no_duplicates());
                assert(self.invalid().subset_of(self.people@.to_set()));
            }
        }
    }

    fn contains(&self, person_id: &PersonId) -> (found: bool) {
        if fx_set_contains(&self.invalid, person_id.id) {
            return false;
        }
        let mut i: usize = 0;
        while i < self.people.len()
            invariant
                i <= self.people.len(),
                !self.invalid@.contains(person_id.id),
                forall|j: int| 0 <= j < i ==> self.people[j] != *person_id,
            decreases self.people.len() - i,
        {
            if self.people[i].id == person_id.id {
                assert(self.people@[i as int] == *person_id);
                assert(self.people@.to_set().contains(*person_id));
                assert(!self.invalid().contains(*person_id));
                return true;
            }
            i += 1;
        }
        false
    }

    /// One of the members, each as likely as the other.
    fn get_random(&self, rng: &mut StdRng) -> (person_id: Option<PersonId>) {
        let valid = self.to_vec();
        if valid.len() == 0 {
            return None;
        }
        let index = random_index(rng, valid.len());
        assert(valid@.to_set().contains(valid[index as int]));
        Some(valid[index])
    }

    fn len(&self) -> (len: usize) {
        proof {
            self.lemma_notes();
        }
        self.people.len() - fx_set_len(&self.invalid)
    }

    fn is_empty(&self) -> (empty: bool) {
        self.len() == 0
    }
}

} // verus!
