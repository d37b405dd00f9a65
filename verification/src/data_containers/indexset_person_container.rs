use crate::data_containers::PersonContainer;
use crate::people::PersonId;
use crate::random::random_index;
use fxhash::FxBuildHasher;
use fxhash::FxHasher;
use indexmap::set::IndexSet;
use rand::rngs::StdRng;
use std::hash::BuildHasherDefault;
use vstd::prelude::*;

verus! {

/// indexmap's `IndexSet`. Of its inside only what the wrappers below say is known.
#[verifier::external_type_specification]
#[verifier::external_body]
#[verifier::reject_recursive_types(T)]
#[verifier::reject_recursive_types(S)]
pub struct ExIndexSet<T, S>(IndexSet<T, S>);

/// fxhash's `FxHasher`, which the index sets hash with. Nothing is said of it.
#[verifier::external_type_specification]
#[verifier::external_body]
pub struct ExFxHasher(FxHasher);

/// std's `BuildHasherDefault`, which makes the hashers of the index sets. Nothing is said
/// of it.
#[verifier::external_type_specification]
#[verifier::external_body]
#[verifier::reject_recursive_types(H)]
pub struct ExBuildHasherDefault<H>(BuildHasherDefault<H>);

/// The items of an index set, in the order of their indices.
pub uninterp spec fn index_set_items(set: IndexSet<usize, FxBuildHasher>) -> Seq<usize>;

/// What `swap_remove` leaves of `items` when it takes out the item at `index`: the last item
/// moves into its place.
pub open spec fn swap_removed(items: Seq<usize>, index: int) -> Seq<usize>
    recommends
        0 <= index < items.len(),
{
    items.update(index, items.last()).drop_last()
}

/// indexmap's `IndexSet::with_hasher`, on fxhash's default hasher: a set without items.
#[verifier::external_body]
pub(crate) fn index_set_new() -> (set: IndexSet<usize, FxBuildHasher>)
    ensures
        index_set_items(set) == Seq::<usize>::empty(),
{
    IndexSet::with_hasher(FxBuildHasher::default())
}

/// indexmap's `IndexSet::with_capacity_and_hasher`: a set without items, with room for `n`.
#[verifier::external_body]
pub(crate) fn index_set_with_capacity(n: usize) -> (set: IndexSet<usize, FxBuildHasher>)
    ensures
        index_set_items(set) == Seq::<usize>::empty(),
{
    IndexSet::with_capacity_and_hasher(n, FxBuildHasher::default())
}

/// indexmap's `IndexSet::insert`: an item that the set lacks goes to the end and the call
/// returns `true`; one that it holds changes nothing and the call returns `false`.
#[verifier::external_body]
pub(crate) fn index_set_insert(set: &mut IndexSet<usize, FxBuildHasher>, item: usize) -> (added: bool)
    ensures
        added == !index_set_items(*old(set)).contains(item),
        index_set_items(*final(set)) == if added {
            index_set_items(*old(set)).push(item)
        } else {
            index_set_items(*old(set))
        },
{
    set.insert(item)
}

/// indexmap's `IndexSet::swap_remove`: an item that the set holds is taken out, the last item
/// moves into its place, and the call returns `true`; otherwise nothing changes and it
/// returns `false`.
#[verifier::external_body]
pub(crate) fn index_set_swap_remove(set: &mut IndexSet<usize, FxBuildHasher>, item: usize) -> (removed:
    bool)
    ensures
        removed == index_set_items(*old(set)).contains(item),
        index_set_items(*final(set)) == if removed {
            swap_removed(index_set_items(*old(set)), index_set_items(*old(set)).index_of(item))
        } else {
            index_set_items(*old(set))
        },
{
    set.swap_remove(&item)
}

/// indexmap's `IndexSet::contains`.
#[verifier::external_body]
pub(crate) fn index_set_contains(set: &IndexSet<usize, FxBuildHasher>, item: usize) -> (found: bool)
    ensures
        found == index_set_items(*set).contains(item),
{
    set.contains(&item)
}

/// indexmap's `IndexSet::get_index`: the item at `index`, if `index` is below the length.
#[verifier::external_body]
pub(crate) fn index_set_get_index(set: &IndexSet<usize, FxBuildHasher>, index: usize) -> (item: Option<
    usize,
>)
    ensures
        item == if index < index_set_items(*set).len() {
            Some(index_set_items(*set)[index as int])
        } else {
            None
        },
{
    set.get_index(index).copied()
}

/// indexmap's `IndexSet::len`.
#[verifier::external_body]
pub(crate) fn index_set_len(set: &IndexSet<usize, FxBuildHasher>) -> (len: usize)
    ensures
        len == index_set_items(*set).len(),
{
    set.len()
}

/// indexmap's `IndexSet::is_empty`.
#[verifier::external_body]
pub(crate) fn index_set_is_empty(set: &IndexSet<usize, FxBuildHasher>) -> (empty: bool)
    ensures
        empty == (index_set_items(*set).len() == 0),
{
    set.is_empty()
}

/// Taking an item out of a sequence without repeats leaves one without repeats, which holds
/// what the first held but for that item.
pub proof fn lemma_swap_removed(items: Seq<usize>, index: int)
    requires
        items.no_duplicates(),
        0 <= index < items.len(),
    ensures
        swap_removed(items, index).no_duplicates(),
        swap_removed(items, index).to_set() == items.to_set().remove(items[index]),
        swap_removed(items, index).len() == items.len() - 1,
{
    let rest = swap_removed(items, index);
    assert forall|i: int, j: int| 0 <= i < rest.len() && 0 <= j < rest.len() && i != j implies rest[i]
        != rest[j] by {
        let a = if i == index { items.len() - 1 } else { i };
        let b = if j == index { items.len() - 1 } else { j };
        assert(rest[i] == items[a] && rest[j] == items[b]);
    }
    assert(rest.to_set() =~= items.to_set().remove(items[index])) by {
        assert forall|x: usize| rest.to_set().contains(x) implies items.to_set().remove(
            items[index],
        ).contains(x) by {
            let i = choose|i: int| 0 <= i < rest.len() && rest[i] == x;
            let a = if i == index { items.len() - 1 } else { i };
            assert(items[a] == x);
        }
        assert forall|x: usize| items.to_set().remove(items[index]).contains(x) implies rest.to_set().contains(
            x,
        ) by {
            let a = choose|a: int| 0 <= a < items.len() && items[a] == x;
            if a == items.len() - 1 {
                assert(rest[index] == x);
            } else {
                assert(rest[a] == x);
            }
        }
    }
}

/// A set of people that also numbers its members, so that one can be drawn by index.
pub struct IndexSetPersonContainer {
    people: IndexSet<usize, FxBuildHasher>,
}

impl IndexSetPersonContainer {
    /// The members by index.
    pub closed spec fn order(&self) -> Seq<PersonId> {
        index_set_items(self.people).map_values(|id: usize| PersonId { id })
    }

    pub fn new() -> (container: IndexSetPersonContainer)
        ensures
            container.wf(),
            container.order() == Seq::<PersonId>::empty(),
    {
        let container = IndexSetPersonContainer { people: index_set_new() };
        assert(container.order() =~= Seq::<PersonId>::empty());
        container
    }

    pub fn with_capacity(n: usize) -> (container: IndexSetPersonContainer)
        ensures
            container.wf(),
            container.order() == Seq::<PersonId>::empty(),
    {
        let container = IndexSetPersonContainer { people: index_set_with_capacity(n) };
        assert(container.order() =~= Seq::<PersonId>::empty());
        container
    }

    /// The member at index `n`, which is below the number of members.
    pub fn get_nth(&self, n: usize) -> (person_id: PersonId)
        requires
            self.wf(),
            n < self.order().len(),
        ensures
            person_id == self.order()[n as int],
    {
        match index_set_get_index(&self.people, n) {
            Some(id) => PersonId { id },
            None => vstd::pervasive::unreached(),
        }
    }
}

impl Default for IndexSetPersonContainer {
    fn default() -> (container: IndexSetPersonContainer)
        ensures
            container.wf(),
            container.order() == Seq::<PersonId>::empty(),
    {
        IndexSetPersonContainer::new()
    }
}

impl PersonContainer for IndexSetPersonContainer {
    /// No member has two indices.
    closed spec fn wf(&self) -> bool {
        index_set_items(self.people).no_duplicates()
    }

    open spec fn members(&self) -> Set<PersonId> {
        self.order().to_set()
    }

    /// Adds `person_id`, at the end, unless it is a member already.
    fn insert(&mut self, person_id: PersonId)
        ensures
            final(self).wf(),
            final(self).order() == if old(self).members().contains(person_id) {
                old(self).order()
            } else {
                old(self).order().push(person_id)
            },
            final(self).members() == old(self).members().insert(person_id),
    {
        let ghost before = index_set_items(self.people);
        let added = index_set_insert(&mut self.people, person_id.id);
        proof {
            let after = index_set_items(self.people);
            lemma_members_of(before);
            lemma_members_of(after);
            if added {
                assert(after.map_values(|id: usize| PersonId { id }) =~= before.map_values(
                    |id: usize| PersonId { id },
                ).push(person_id));
                assert(after.to_set() =~= before.to_set().insert(person_id.id)) by {
                    assert forall|x: usize| after.to_set().contains(x) implies before.to_set().insert(
                        person_id.id,
                    ).contains(x) by {
                        let i = choose|i: int| 0 <= i < after.len() && after[i] == x;
                        if i < before.len() {
                            assert(before[i] == x);
                        }
                    }
                    assert forall|x: usize| before.to_set().insert(person_id.id).contains(x) implies after.to_set().contains(
                        x,
                    ) by {
                        if x == person_id.id {
                            assert(after[before.len() as int] == x);
                        } else {
                            let i = choose|i: int| 0 <= i < before.len() && before[i] == x;
                            assert(after[i] == x);
                        }
                    }
                }
                assert forall|i: int, j: int| 0 <= i < after.len() && 0 <= j < after.len() && i != j implies after[i]
                    != after[j] by {
                    if i < before.len() {
                        assert(before.contains(before[i]));
                    }
                    if j < before.len() {
                        assert(before.contains(before[j]));
                    }
                }
            } else {
                assert(before.to_set().insert(person_id.id) =~= before.to_set());
            }
            lemma_members_inserted(before.to_set(), person_id.id);
        }
    }

    /// Takes `person_id` out, if it is a member; the last member then takes its index.
    fn remove(&mut self, person_id: &PersonId)
        ensures
            final(self).wf(),
            final(self).members() == old(self).members().remove(*person_id),
            !old(self).members().contains(*person_id) ==> final(self).order() == old(self).order(),
            old(self).members().contains(*person_id) ==> final(self).order().len() + 1 == old(self).order().len(),
    {
        let ghost before = index_set_items(self.people);
        let removed = index_set_swap_remove(&mut self.people, person_id.id);
        proof {
            let after = index_set_items(self.people);
            lemma_members_of(before);
            lemma_members_of(after);
            if removed {
                let at = before.index_of(person_id.id);
                lemma_swap_removed(before, at);
            } else {
                assert(before.to_set().remove(person_id.id) =~= before.to_set());
            }
            lemma_members_removed(before.to_set(), person_id.id);
        }
    }

    fn contains(&self, person_id: &PersonId) -> (found: bool)
        ensures
            found == self.members().contains(*person_id),
    {
        proof {
            lemma_members_of(index_set_items(self.people));
        }
        index_set_contains(&self.people, person_id.id)
    }

    /// A member at an index that `rng` picks, or `None` if there is no member.
    fn get_random(&self, rng: &mut StdRng) -> (person_id: Option<PersonId>)
        ensures
            person_id is None <==> self.members().len() == 0,
            person_id matches Some(p) ==> self.members().contains(p),
    {
        proof {
            lemma_members_of(index_set_items(self.people));
            index_set_items(self.people).unique_seq_to_set();
        }
        if index_set_is_empty(&self.people) {
            return None;
        }
        let index = random_index(rng, index_set_len(&self.people));
        match index_set_get_index(&self.people, index) {
            Some(id) => {
                assert(index_set_items(self.people)[index as int] == id);
                Some(PersonId { id })
            },
            None => None,
        }
    }

    fn len(&self) -> (len: usize)
        ensures
            len == self.order().len(),
            len == self.members().len(),
    {
        proof {
            lemma_members_of(index_set_items(self.people));
            index_set_items(self.people).unique_seq_to_set();
        }
        index_set_len(&self.people)
    }

    fn is_empty(&self) -> (empty: bool)
        ensures
            empty == (self.order().len() == 0),
            empty == (self.members().len() == 0),
    {
        proof {
            lemma_members_of(index_set_items(self.people));
            index_set_items(self.people).unique_seq_to_set();
        }
        index_set_is_empty(&self.people)
    }
}


/// The people whose numbers are `ids`.
pub open spec fn people_of(ids: Set<usize>) -> Set<PersonId> {
    Set::new(|p: PersonId| ids.contains(p.id))
}

proof fn lemma_members_of(items: Seq<usize>)
    ensures
        items.map_values(|id: usize| PersonId { id }).to_set() == people_of(items.to_set()),
        items.no_duplicates() ==> people_of(items.to_set()).len() == items.to_set().len(),
        items.no_duplicates() ==> items.map_values(|id: usize| PersonId { id }).no_duplicates(),
{
    let mapped = items.map_values(|id: usize| PersonId { id });
    assert(mapped.to_set() =~= people_of(items.to_set())) by {
        assert forall|p: PersonId| mapped.to_set().contains(p) implies people_of(items.to_set()).contains(
            p,
        ) by {
            let i = choose|i: int| 0 <= i < mapped.len() && mapped[i] == p;
            assert(items[i] == p.id);
        }
        assert forall|p: PersonId| people_of(items.to_set()).contains(p) implies mapped.to_set().contains(
            p,
        ) by {
            let i = choose|i: int| 0 <= i < items.len() && items[i] == p.id;
            assert(mapped[i] == p);
        }
    }
    if items.no_duplicates() {
        assert(mapped.no_duplicates());
        mapped.unique_seq_to_set();
        items.unique_seq_to_set();
    }
}

proof fn lemma_members_inserted(ids: Set<usize>, id: usize)
    ensures
        people_of(ids.insert(id)) == people_of(ids).insert(PersonId { id }),
{
    assert(people_of(ids.insert(id)) =~= people_of(ids).insert(PersonId { id }));
}

proof fn lemma_members_removed(ids: Set<usize>, id: usize)
    ensures
        people_of(ids.remove(id)) == people_of(ids).remove(PersonId { id }),
{
    assert(people_of(ids.remove(id)) =~= people_of(ids).remove(PersonId { id }));
}

} // verus!
