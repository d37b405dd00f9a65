use crate::context::notifications;
use crate::context::told;
use crate::context::Callback;
use crate::context::Context;
use crate::context::Event;
use crate::context::Part;
use crate::data_containers::indexset_person_container::IndexSetPersonContainer;
use crate::person_properties::Column;
use crate::person_properties::PersonStore;
use crate::data_containers::PersonContainer;
use crate::observers::actions_under;
use crate::observers::keyed;
use crate::observers::not_under_key;
use crate::people::PersonId;
use crate::regions::NO_REGION;
use std::collections::HashMap;
use std::marker::PhantomData;
use vstd::prelude::*;

verus! {

/// A partition of the people: a type that stands for one slot of the partition registry.
pub trait Partition {
    /// The slot of this partition. Two partitions of one context must not share a slot.
    const INDEX: usize;
}

/// Turns the values of a person's sensitive properties, in the order in which the
/// sensitivities were declared, into the label of that person.
pub trait LabelFunction {
    /// The label as a function of the values.
    spec fn label_spec(&self, values: &[u64]) -> u64;

    fn label(&self, values: &[u64]) -> (label: u64)
        ensures
            label == self.label_spec(values),
    ;
}

/// The label function of a partition by one property: the label of a person is the value of
/// the first sensitive property, and zero where no sensitivity was declared.
pub struct FirstValue;

impl LabelFunction for FirstValue {
    open spec fn label_spec(&self, values: &[u64]) -> u64 {
        if values@.len() > 0 {
            values@[0]
        } else {
            0
        }
    }

    fn label(&self, values: &[u64]) -> (label: u64) {
        if values.len() > 0 {
            values[0]
        } else {
            0
        }
    }
}

/// A person property on whose value a label depends: its column, and the default of its key.
#[derive(Clone, Copy, Debug, PartialEq, Eq, Structural)]
pub struct Sensitivity {
    pub column: Column,
    pub default: u64,
}

/// What `person_id` has for the properties of `sensitivities`, in their order.
pub open spec fn sensitive_values(
    store: &PersonStore,
    sensitivities: Seq<Sensitivity>,
    person_id: PersonId,
) -> Seq<u64> {
    Seq::new(
        sensitivities.len(),
        |i: int| store.cell(sensitivities[i].column, sensitivities[i].default, person_id.id),
    )
}

/// A slice that holds `values`.
pub open spec fn slice_of(values: Seq<u64>) -> &'static [u64] {
    choose|slice: &[u64]| slice@ == values
}

/// Whether `values` stand in a slice. So it is with every sequence of values that was handed
/// to a label function.
pub open spec fn in_slice(values: Seq<u64>) -> bool {
    slice_of(values)@ == values
}

/// What `label_function` makes of `values`.
pub open spec fn label_for<L: LabelFunction>(label_function: &L, values: Seq<u64>) -> u64 {
    label_function.label_spec(slice_of(values))
}

/// The index of one partition: for each label the people that have it.
pub struct PartitionData<L> {
    label_map: HashMap<u64, IndexSetPersonContainer>,
    label_function: L,
    sensitivities: Vec<Sensitivity>,
}

impl<L: LabelFunction> PartitionData<L> {
    /// The people filed under `label`.
    pub closed spec fn bucket(&self, label: u64) -> Set<PersonId> {
        if self.label_map@.contains_key(label) {
            self.label_map@[label].members()
        } else {
            Set::empty()
        }
    }

    /// The labels that have a bucket: those under which somebody is filed. A bucket goes when
    /// its last member leaves.
    pub closed spec fn labels(&self) -> Set<u64> {
        self.label_map@.dom()
    }

    /// The labels that the first `population` people have on `store`.
    pub open spec fn labels_in_use(&self, store: &PersonStore, population: nat) -> Set<u64> {
        Set::new(
            |label: u64|
                exists|person_id: PersonId|
                    person_id.id < population && #[trigger] self.label_of(store, person_id) == label,
        )
    }

    pub closed spec fn label_function(&self) -> &L {
        &self.label_function
    }

    pub closed spec fn sensitivities(&self) -> Seq<Sensitivity> {
        self.sensitivities@
    }

    /// Every bucket is in order and has a member.
    pub closed spec fn wf(&self) -> bool {
        forall|label: u64| #[trigger]
            self.label_map@.contains_key(label) ==> self.label_map@[label].wf() && exists|person_id: PersonId|
                #[trigger] self.label_map@[label].members().contains(person_id)
    }

    /// A label has a bucket exactly if somebody is filed under it.
    pub proof fn lemma_labels(&self)
        requires
            self.wf(),
        ensures
            forall|label: u64|
                #[trigger] self.labels().contains(label) <==> exists|person_id: PersonId|
                    #[trigger] self.bucket(label).contains(person_id),
    {
        assert forall|label: u64| #[trigger]
            self.labels().contains(label) <==> exists|person_id: PersonId|
                #[trigger] self.bucket(label).contains(person_id) by {
            if self.labels().contains(label) {
                assert(self.label_map@.contains_key(label));
                let p = choose|p: PersonId| #[trigger] self.label_map@[label].members().contains(p);
                assert(self.bucket(label).contains(p));
            }
            if exists|person_id: PersonId| #[trigger] self.bucket(label).contains(person_id) {
                let p = choose|p: PersonId| #[trigger] self.bucket(label).contains(p);
                assert(self.label_map@.contains_key(label));
            }
        }
    }

    /// In an index that is in step with a store the labels that have a bucket are the labels
    /// that somebody has.
    pub proof fn lemma_labels_in_use(&self, store: &PersonStore, population: nat)
        requires
            self.wf(),
            self.consistent(store, population),
        ensures
            self.labels() == self.labels_in_use(store, population),
    {
        self.lemma_labels();
        assert forall|label: u64| self.labels().contains(label) == self.labels_in_use(
            store,
            population,
        ).contains(label) by {
            if self.labels().contains(label) {
                let p = choose|p: PersonId| self.bucket(label).contains(p);
                assert(p.id < population && self.label_of(store, p) == label);
            }
            if self.labels_in_use(store, population).contains(label) {
                let p = choose|p: PersonId| p.id < population && self.label_of(store, p) == label;
                assert(self.bucket(label).contains(p));
            }
        }
        assert(self.labels() =~= self.labels_in_use(store, population));
    }

    /// The label that the label function gives `person_id` on `store`.
    pub open spec fn label_of(&self, store: &PersonStore, person_id: PersonId) -> u64 {
        label_for(self.label_function(), sensitive_values(store, self.sensitivities(), person_id))
    }

    /// Whether a change of the cells of `column` can change a label.
    pub open spec fn is_sensitive_to(&self, column: Column) -> bool {
        exists|i: int| 0 <= i < self.sensitivities().len() && (#[trigger] self.sensitivities()[i]).column == column
    }

    /// The index holds each of the first `population` people under the label that the label
    /// function gives it on `store`, and nobody anywhere else.
    pub open spec fn consistent(&self, store: &PersonStore, population: nat) -> bool {
        &&& forall|label: u64, person_id: PersonId| #[trigger]
            self.bucket(label).contains(person_id) <==> person_id.id < population && self.label_of(
                store,
                person_id,
            ) == label
        &&& forall|person_id: PersonId|
            person_id.id < population ==> in_slice(
                #[trigger] sensitive_values(store, self.sensitivities(), person_id),
            )
    }

    /// Evaluates the label function for `person_id` on `store`.
    pub fn evaluate(&self, store: &PersonStore, person_id: PersonId) -> (label: u64)
        ensures
            label == self.label_of(store, person_id),
            in_slice(sensitive_values(store, self.sensitivities(), person_id)),
    {
        let mut values: Vec<u64> = Vec::new();
        let mut i: usize = 0;
        while i < self.sensitivities.len()
            invariant
                i <= self.sensitivities.len(),
                values.len() == i,
                forall|j: int|
                    0 <= j < i ==> values[j] == store.cell(
                        self.sensitivities[j].column,
                        self.sensitivities[j].default,
                        person_id.id,
                    ),
            decreases self.sensitivities.len() - i,
        {
            let sensitivity = self.sensitivities[i];
            values.push(store.get_cell(sensitivity.column, sensitivity.default, person_id.id));
            i += 1;
        }
        let given = values.as_slice();
        let label = self.label_function.label(given);
        proof {
            let wanted = sensitive_values(store, self.sensitivities(), person_id);
            assert(values@ =~= wanted);
            let chosen = slice_of(wanted);
            assert(given@ == wanted);
            assert(chosen@ == wanted);
            assert(chosen =~= given);
            assert(chosen == given);
            assert(self.label_function.label_spec(chosen) == label);
            assert(label_for(&self.label_function, wanted) == label);
        }
        label
    }

    /// Files `person_id` under `label`.
    pub fn place(&mut self, label: u64, person_id: PersonId)
        requires
            old(self).wf(),
        ensures
            final(self).wf(),
            final(self).label_function() == old(self).label_function(),
            final(self).sensitivities() == old(self).sensitivities(),
            final(self).bucket(label) == old(self).bucket(label).insert(person_id),
            forall|other: u64| other != label ==> final(self).bucket(other) == old(self).bucket(other),
    {
        let mut bucket = match self.label_map.remove(&label) {
            Some(bucket) => bucket,
            None => IndexSetPersonContainer::new(),
        };
        assert(bucket.members() =~= old(self).bucket(label));
        bucket.insert(person_id);
        assert(bucket.members().contains(person_id));
        self.label_map.insert(label, bucket);
    }

    /// Takes `person_id` out of the bucket of `label`. The bucket goes with its last member.
    pub fn displace(&mut self, label: u64, person_id: PersonId)
        requires
            old(self).wf(),
            old(self).bucket(label).contains(person_id),
        ensures
            final(self).wf(),
            final(self).label_function() == old(self).label_function(),
            final(self).sensitivities() == old(self).sensitivities(),
            final(self).bucket(label) == old(self).bucket(label).remove(person_id),
            forall|other: u64| other != label ==> final(self).bucket(other) == old(self).bucket(other),
    {
        match self.label_map.remove(&label) {
            Some(mut bucket) => {
                bucket.remove(&person_id);
                if bucket.is_empty() {
                    proof {
                        vstd::seq_lib::seq_to_set_is_finite(bucket.order());
                        vstd::set_lib::lemma_set_empty_equivalency_len(bucket.members());
                        assert(self.bucket(label) =~= old(self).bucket(label).remove(person_id));
                    }
                } else {
                    proof {
                        vstd::seq_lib::seq_to_set_is_finite(bucket.order());
                        vstd::set_lib::lemma_set_empty_equivalency_len(bucket.members());
                    }
                    self.label_map.insert(label, bucket);
                }
            },
            None => {},
        }
    }

    /// The bucket of `label`, if anybody is filed under it.
    pub fn cell(&self, label: u64) -> (cell: Option<&IndexSetPersonContainer>)
        requires
            self.wf(),
        ensures
            cell is Some <==> self.labels().contains(label),
            match cell {
                Some(bucket) => bucket.wf() && bucket.members() == self.bucket(label) && exists|person_id: PersonId|
                    #[trigger] bucket.members().contains(person_id),
                None => self.bucket(label) == Set::<PersonId>::empty(),
            },
    {
        self.label_map.get(&label)
    }

    /// `after` is `before` with `person_id` moved from the bucket of `old_label` to that of
    /// `new_label`.
    pub open spec fn moved(
        before: &PartitionData<L>,
        after: &PartitionData<L>,
        person_id: PersonId,
        old_label: u64,
        new_label: u64,
    ) -> bool {
        &&& forall|label: u64, p: PersonId| #[trigger]
            after.bucket(label).contains(p) <==> if p == person_id && label == new_label {
                true
            } else if p == person_id && label == old_label {
                false
            } else {
                before.bucket(label).contains(p)
            }
    }

    /// The buckets of `after` are those of `before`.
    pub open spec fn same_buckets(before: &PartitionData<L>, after: &PartitionData<L>) -> bool {
        forall|label: u64| #[trigger] after.bucket(label) == before.bucket(label)
    }

    /// A write to one cell of a person's properties, followed by that person's move where the
    /// partition is sensitive to the cell's column, leaves the index in step with the store.
    pub proof fn lemma_update_keeps_consistent(
        before: &PartitionData<L>,
        after: &PartitionData<L>,
        old_store: &PersonStore,
        new_store: &PersonStore,
        population: nat,
        person_id: PersonId,
        column: Column,
        value: u64,
    )
        requires
            before.consistent(old_store, population),
            new_store.cells() == old_store.cells().insert((column, person_id.id), value),
            after.label_function() == before.label_function(),
            after.sensitivities() == before.sensitivities(),
            if before.is_sensitive_to(column) && person_id.id < population {
                &&& Self::moved(
                    before,
                    after,
                    person_id,
                    before.label_of(old_store, person_id),
                    before.label_of(new_store, person_id),
                )
                &&& in_slice(sensitive_values(new_store, before.sensitivities(), person_id))
            } else {
                Self::same_buckets(before, after)
            },
        ensures
            after.consistent(new_store, population),
    {
        let sensitivities = before.sensitivities();
        assert forall|p: PersonId|
            p != person_id || !before.is_sensitive_to(column) implies #[trigger] sensitive_values(
            new_store,
            sensitivities,
            p,
        ) == sensitive_values(old_store, sensitivities, p) by {
            assert(sensitive_values(new_store, sensitivities, p) =~= sensitive_values(
                old_store,
                sensitivities,
                p,
            )) by {
                assert forall|i: int| 0 <= i < sensitivities.len() implies new_store.cell(
                    sensitivities[i].column,
                    sensitivities[i].default,
                    p.id,
                ) == old_store.cell(sensitivities[i].column, sensitivities[i].default, p.id) by {
                    if sensitivities[i].column == column && p.id == person_id.id {
                        assert(before.is_sensitive_to(column));
                    }
                }
            }
        }
        assert forall|label: u64, p: PersonId| #[trigger]
            after.bucket(label).contains(p) <==> p.id < population && after.label_of(new_store, p)
                == label by {
            assert(before.bucket(label).contains(p) <==> p.id < population && before.label_of(old_store, p)
                == label);
            assert(before.bucket(before.label_of(old_store, person_id)).contains(person_id) <==> person_id.id
                < population);
            assert(after.bucket(label) == before.bucket(label) || (before.is_sensitive_to(column)
                && person_id.id < population));
        }
    }

    /// Whether one of the sensitivities is to `column`.
    pub fn depends_on(&self, column: Column) -> (sensitive: bool)
        ensures
            sensitive == self.is_sensitive_to(column),
    {
        let mut i: usize = 0;
        while i < self.sensitivities.len()
            invariant
                i <= self.sensitivities.len(),
                forall|j: int| 0 <= j < i ==> (#[trigger] self.sensitivities[j]).column != column,
            decreases self.sensitivities.len() - i,
        {
            if self.sensitivities[i].column == column {
                assert(self.sensitivities()[i as int].column == column);
                return true;
            }
            i += 1;
        }
        false
    }

    /// An index without people, for `label_function` on the properties of `sensitivities`.
    pub fn new(label_function: L, sensitivities: Vec<Sensitivity>) -> (data: PartitionData<L>)
        ensures
            data.wf(),
            data.label_function() == &label_function,
            data.sensitivities() == sensitivities@,
            forall|label: u64| data.bucket(label) == Set::<PersonId>::empty(),
            data.labels() == Set::<u64>::empty(),
    {
        let data = PartitionData { label_map: HashMap::new(), label_function, sensitivities };
        assert(data.labels() =~= Set::<u64>::empty());
        data
    }

    /// Files the first `population` people, each under its label on `store`.
    pub fn build(
        label_function: L,
        sensitivities: Vec<Sensitivity>,
        store: &PersonStore,
        population: usize,
    ) -> (data: PartitionData<L>)
        ensures
            data.wf(),
            data.label_function() == &label_function,
            data.sensitivities() == sensitivities@,
            data.consistent(store, population as nat),
            data.labels() == data.labels_in_use(store, population as nat),
    {
        let mut data = PartitionData::new(label_function, sensitivities);
        let mut i: usize = 0;
        while i < population
            invariant
                i <= population,
                data.wf(),
                data.label_function() == &label_function,
                data.sensitivities() == sensitivities@,
                data.consistent(store, i as nat),
            decreases population - i,
        {
            data.handle_person_creation(store, PersonId { id: i });
            i += 1;
        }
        proof {
            data.lemma_labels_in_use(store, population as nat);
        }
        data
    }

    /// Files a person that was just created, the next after those that the index holds.
    pub fn handle_person_creation(&mut self, store: &PersonStore, person_id: PersonId)
        requires
            old(self).wf(),
            old(self).consistent(store, person_id.id as nat),
        ensures
            final(self).wf(),
            final(self).label_function() == old(self).label_function(),
            final(self).sensitivities() == old(self).sensitivities(),
            final(self).consistent(store, person_id.id as nat + 1),
    {
        let label = self.evaluate(store, person_id);
        self.place(label, person_id);
        assert forall|other: u64, p: PersonId| #[trigger]
            self.bucket(other).contains(p) <==> p.id < person_id.id as nat + 1 && self.label_of(store, p)
                == other by {
            assert(old(self).bucket(other).contains(p) <==> p.id < person_id.id as nat && old(
                self,
            ).label_of(store, p) == other);
        }
    }

    /// Moves `person_id` from the bucket of `old_label` to the bucket of its label on `store`.
    pub fn reevaluate_person(&mut self, store: &PersonStore, person_id: PersonId, old_label: u64)
        requires
            old(self).wf(),
            old(self).bucket(old_label).contains(person_id),
        ensures
            final(self).wf(),
            final(self).label_function() == old(self).label_function(),
            final(self).sensitivities() == old(self).sensitivities(),
            Self::moved(old(self), final(self), person_id, old_label, old(self).label_of(store, person_id)),
            in_slice(sensitive_values(store, old(self).sensitivities(), person_id)),
    {
        let new_label = self.evaluate(store, person_id);
        self.displace(old_label, person_id);
        self.place(new_label, person_id);
        assert forall|label: u64, p: PersonId| #[trigger]
            self.bucket(label).contains(p) <==> if p == person_id && label == new_label {
                true
            } else if p == person_id && label == old_label {
                false
            } else {
                old(self).bucket(label).contains(p)
            } by {
            assert(label == old_label || label == new_label || self.bucket(label) == old(self).bucket(label));
        }
    }
}

/// What a partition is made from: its label function and the properties that the function
/// reads.
pub struct PartitionSpecification<L> {
    pub label_function: L,
    pub sensitivities: Vec<Sensitivity>,
}

/// The partitions of a context, each in the slot of its key.
pub struct PartitionDataContainer<L> {
    partition_map: Vec<Option<PartitionData<L>>>,
}

impl<L: LabelFunction> PartitionDataContainer<L> {
    /// The partition in `slot`, if one is registered there.
    pub closed spec fn partition(&self, slot: usize) -> Option<PartitionData<L>> {
        if slot < self.partition_map.len() {
            self.partition_map[slot as int]
        } else {
            None
        }
    }

    /// Every registered index is well formed and in step with `store` for `population` people.
    pub open spec fn consistent(&self, store: &PersonStore, population: nat) -> bool {
        forall|slot: usize| #[trigger]
            self.partition(slot) is Some ==> self.partition(slot)->0.wf() && self.partition(
                slot,
            )->0.consistent(store, population)
    }

    /// Whether a registered partition is sensitive to `column`.
    pub open spec fn is_sensitive_to(&self, column: Column) -> bool {
        exists|slot: usize| #[trigger]
            self.partition(slot) is Some && self.partition(slot)->0.is_sensitive_to(column)
    }

    /// The same slots are taken in `after` as in `before`, by the same label functions on the
    /// same properties.
    pub open spec fn same_registrations(before: &Self, after: &Self) -> bool {
        forall|slot: usize| #[trigger]
            after.partition(slot) is Some == before.partition(slot) is Some && (before.partition(slot) is Some
                ==> after.partition(slot)->0.label_function() == before.partition(slot)->0.label_function()
                && after.partition(slot)->0.sensitivities() == before.partition(slot)->0.sensitivities())
    }

    pub fn new() -> (container: PartitionDataContainer<L>)
        ensures
            forall|slot: usize| container.partition(slot) is None,
    {
        PartitionDataContainer { partition_map: Vec::new() }
    }

    /// Builds the index of `specification` over the first `population` people and registers it
    /// in `slot`, in place of what was there.
    pub fn add_partition_internal(
        &mut self,
        slot: usize,
        specification: PartitionSpecification<L>,
        store: &PersonStore,
        population: usize,
    )
        requires
            slot < usize::MAX,
        ensures
            final(self).partition(slot) is Some,
            final(self).partition(slot)->0.wf(),
            final(self).partition(slot)->0.label_function() == &specification.label_function,
            final(self).partition(slot)->0.sensitivities() == specification.sensitivities@,
            final(self).partition(slot)->0.consistent(store, population as nat),
            final(self).partition(slot)->0.labels() == final(self).partition(slot)->0.labels_in_use(
                store,
                population as nat,
            ),
            forall|other: usize| other != slot ==> final(self).partition(other) == old(self).partition(other),
    {
        let data = PartitionData::build(
            specification.label_function,
            specification.sensitivities,
            store,
            population,
        );
        while self.partition_map.len() <= slot
            invariant
                forall|other: usize| self.partition(other) == old(self).partition(other),
            decreases slot + 1 - self.partition_map.len(),
        {
            self.partition_map.push(None);
        }
        self.partition_map[slot] = Some(data);
    }

    /// Takes the partition out of `slot`.
    pub fn remove_partition(&mut self, slot: usize) -> (data: PartitionData<L>)
        requires
            old(self).partition(slot) is Some,
        ensures
            data == old(self).partition(slot)->0,
            final(self).partition(slot) is None,
            forall|other: usize| other != slot ==> final(self).partition(other) == old(self).partition(other),
    {
        let mut taken: Option<PartitionData<L>> = None;
        std::mem::swap(&mut self.partition_map[slot], &mut taken);
        taken.unwrap()
    }

    /// Whether a partition is registered in `slot`.
    pub fn is_registered(&self, slot: usize) -> (registered: bool)
        ensures
            registered == self.partition(slot) is Some,
    {
        slot < self.partition_map.len() && self.partition_map[slot].is_some()
    }

    /// Whether a registered partition is sensitive to `column`.
    pub fn depends_on(&self, column: Column) -> (sensitive: bool)
        ensures
            sensitive == self.is_sensitive_to(column),
    {
        let mut slot: usize = 0;
        while slot < self.partition_map.len()
            invariant
                slot <= self.partition_map.len(),
                forall|other: usize| other < slot && #[trigger] self.partition(other) is Some ==> !self.partition(
                    other,
                )->0.is_sensitive_to(column),
            decreases self.partition_map.len() - slot,
        {
            match &self.partition_map[slot] {
                Some(data) => {
                    if data.depends_on(column) {
                        assert(self.partition(slot) is Some && self.partition(slot)->0.is_sensitive_to(column));
                        return true;
                    }
                },
                None => {},
            }
            slot += 1;
        }
        false
    }

    /// The label of `person_id` on `store` under the partition in `slot`.
    pub fn get_partition_label(&self, slot: usize, store: &PersonStore, person_id: PersonId) -> (label:
        u64)
        requires
            self.partition(slot) is Some,
        ensures
            label == self.partition(slot)->0.label_of(store, person_id),
    {
        match &self.partition_map[slot] {
            Some(data) => data.evaluate(store, person_id),
            None => 0,
        }
    }

    /// The bucket of `label` in the partition in `slot`, if anybody is filed under it.
    pub fn get_partition_cell(&self, slot: usize, label: u64) -> (cell: Option<&IndexSetPersonContainer>)
        requires
            self.partition(slot) is Some,
            self.partition(slot)->0.wf(),
        ensures
            cell is Some <==> self.partition(slot)->0.labels().contains(label),
            match cell {
                Some(bucket) => bucket.wf() && bucket.members() == self.partition(slot)->0.bucket(label)
                    && exists|person_id: PersonId| #[trigger] bucket.members().contains(person_id),
                None => self.partition(slot)->0.bucket(label) == Set::<PersonId>::empty(),
            },
    {
        match &self.partition_map[slot] {
            Some(data) => data.cell(label),
            None => None,
        }
    }

    /// Files a person that was just created in every registered partition.
    pub fn handle_person_creation(&mut self, store: &PersonStore, person_id: PersonId)
        requires
            old(self).consistent(store, person_id.id as nat),
        ensures
            Self::same_registrations(old(self), final(self)),
            final(self).consistent(store, person_id.id as nat + 1),
    {
        let mut slot: usize = 0;
        while slot < self.partition_map.len()
            invariant
                slot <= self.partition_map.len(),
                self.partition_map.len() == old(self).partition_map.len(),
                Self::same_registrations(old(self), self),
                forall|other: usize| #[trigger]
                    self.partition(other) is Some ==> self.partition(other)->0.wf() && self.partition(
                        other,
                    )->0.consistent(store, if other < slot { person_id.id as nat + 1 } else { person_id.id as nat }),
            decreases self.partition_map.len() - slot,
        {
            let ghost before = *self;
            assert(before.partition(slot) == before.partition_map[slot as int]);
            assert(old(self).partition(slot) is Some == before.partition(slot) is Some);
            match &mut self.partition_map[slot] {
                Some(data) => {
                    data.handle_person_creation(store, person_id);
                },
                None => {},
            }
            assert(self.partition(slot) == self.partition_map[slot as int]);
            assert forall|other: usize| other != slot implies self.partition(other) == before.partition(
                other,
            ) by {}
            assert forall|other: usize| #[trigger]
                self.partition(other) is Some == old(self).partition(other) is Some && (old(self).partition(
                    other,
                ) is Some ==> self.partition(other)->0.label_function() == old(self).partition(
                    other,
                )->0.label_function() && self.partition(other)->0.sensitivities() == old(self).partition(
                    other,
                )->0.sensitivities()) by {
                assert(before.partition(other) is Some == old(self).partition(other) is Some);
            }
            assert forall|other: usize| #[trigger] self.partition(other) is Some implies self.partition(
                other,
            )->0.wf() && self.partition(other)->0.consistent(
                store,
                if other < slot + 1 {
                    person_id.id as nat + 1
                } else {
                    person_id.id as nat
                },
            ) by {
                assert(before.partition(other) is Some);
            }
            slot += 1;
        }
    }

    /// The label of `person_id` on `store` in each partition that is sensitive to `column`,
    /// by slot.
    pub fn capture_labels(&self, store: &PersonStore, person_id: PersonId, column: Column) -> (captured:
        Vec<Option<u64>>)
        ensures
            self.captures(captured@, store, person_id, column),
    {
        let mut captured: Vec<Option<u64>> = Vec::new();
        let mut slot: usize = 0;
        while slot < self.partition_map.len()
            invariant
                slot <= self.partition_map.len(),
                captured.len() == slot,
                forall|other: usize| other < slot ==> #[trigger] captured[other as int] == self.captured_label(
                    other,
                    store,
                    person_id,
                    column,
                ),
            decreases self.partition_map.len() - slot,
        {
            let label = match &self.partition_map[slot] {
                Some(data) => {
                    if data.depends_on(column) {
                        Some(data.evaluate(store, person_id))
                    } else {
                        None
                    }
                },
                None => None,
            };
            captured.push(label);
            slot += 1;
        }
        captured
    }

    /// What `capture_labels` notes for `slot`.
    pub open spec fn captured_label(
        &self,
        slot: usize,
        store: &PersonStore,
        person_id: PersonId,
        column: Column,
    ) -> Option<u64> {
        if self.partition(slot) is Some && self.partition(slot)->0.is_sensitive_to(column) {
            Some(self.partition(slot)->0.label_of(store, person_id))
        } else {
            None
        }
    }

    /// `captured` holds, for each slot up to the last that is taken, what `capture_labels` notes.
    pub open spec fn captures(
        &self,
        captured: Seq<Option<u64>>,
        store: &PersonStore,
        person_id: PersonId,
        column: Column,
    ) -> bool {
        &&& forall|slot: usize|
            slot < captured.len() ==> #[trigger] captured[slot as int] == self.captured_label(
                slot,
                store,
                person_id,
                column,
            )
        &&& forall|slot: usize| slot >= captured.len() ==> #[trigger] self.partition(slot) is None
    }

    /// Moves `person_id`, in each partition for which `captured` holds a label, from the bucket
    /// of that label to the bucket of its label on `store`.
    pub fn reevaluate_person(&mut self, store: &PersonStore, person_id: PersonId, captured: &Vec<Option<u64>>)
        requires
            forall|slot: usize| #[trigger]
                old(self).partition(slot) is Some ==> old(self).partition(slot)->0.wf(),
            forall|slot: usize|
                slot < captured.len() && #[trigger] captured[slot as int] is Some ==> old(self).partition(
                    slot,
                ) is Some && old(self).partition(slot)->0.bucket(captured[slot as int]->0).contains(person_id),
        ensures
            Self::same_registrations(old(self), final(self)),
            forall|slot: usize| #[trigger]
                final(self).partition(slot) is Some ==> final(self).partition(slot)->0.wf(),
            forall|slot: usize| #[trigger]
                final(self).partition(slot) is Some ==> if slot < captured.len() && captured[slot as int] is Some {
                    &&& PartitionData::moved(
                        &old(self).partition(slot)->0,
                        &final(self).partition(slot)->0,
                        person_id,
                        captured[slot as int]->0,
                        old(self).partition(slot)->0.label_of(store, person_id),
                    )
                    &&& in_slice(sensitive_values(store, old(self).partition(slot)->0.sensitivities(), person_id))
                } else {
                    PartitionData::same_buckets(&old(self).partition(slot)->0, &final(self).partition(slot)->0)
                },
    {
        let mut slot: usize = 0;
        while slot < self.partition_map.len() && slot < captured.len()
            invariant
                forall|other: usize|
                    other < captured.len() && #[trigger] captured[other as int] is Some ==> old(self).partition(
                        other,
                    ) is Some && old(self).partition(other)->0.bucket(captured[other as int]->0).contains(
                        person_id,
                    ),
                self.partition_map.len() == old(self).partition_map.len(),
                Self::same_registrations(old(self), self),
                forall|other: usize| #[trigger]
                    self.partition(other) is Some ==> self.partition(other)->0.wf(),
                forall|other: usize| other >= slot ==> self.partition(other) == old(self).partition(other),
                forall|other: usize|
                    other < slot && #[trigger] self.partition(other) is Some ==> if other < captured.len()
                        && captured[other as int] is Some {
                        &&& PartitionData::moved(
                            &old(self).partition(other)->0,
                            &self.partition(other)->0,
                            person_id,
                            captured[other as int]->0,
                            old(self).partition(other)->0.label_of(store, person_id),
                        )
                        &&& in_slice(
                            sensitive_values(store, old(self).partition(other)->0.sensitivities(), person_id),
                        )
                    } else {
                        PartitionData::same_buckets(&old(self).partition(other)->0, &self.partition(other)->0)
                    },
            decreases self.partition_map.len() - slot,
        {
            let ghost before = *self;
            assert(before.partition(slot) == before.partition_map[slot as int]);
            assert(before.partition(slot) == old(self).partition(slot));
            assert(before.partition(slot) is Some ==> before.partition(slot)->0.wf());
            match captured[slot] {
                Some(old_label) => {
                    assert(captured[slot as int] is Some && captured[slot as int]->0 == old_label);
                    assert(old(self).partition(slot) is Some);
                    assert(before.partition(slot)->0.bucket(old_label).contains(person_id));
                    match &mut self.partition_map[slot] {
                        Some(data) => {
                            data.reevaluate_person(store, person_id, old_label);
                        },
                        None => {},
                    }
                },
                None => {},
            }
            assert(self.partition(slot) == self.partition_map[slot as int]);
            assert forall|other: usize| other != slot implies self.partition(other) == before.partition(
                other,
            ) by {}
            assert forall|other: usize| #[trigger]
                self.partition(other) is Some == old(self).partition(other) is Some && (old(self).partition(
                    other,
                ) is Some ==> self.partition(other)->0.label_function() == old(self).partition(
                    other,
                )->0.label_function() && self.partition(other)->0.sensitivities() == old(self).partition(
                    other,
                )->0.sensitivities()) by {
                assert(before.partition(other) is Some == old(self).partition(other) is Some);
            }
            slot += 1;
        }
    }
}

impl<L: LabelFunction> PartitionData<L> {
    /// An index that is in step with a store holds what any other such index of the same
    /// label function on the same properties holds: how it came about leaves no trace.
    pub proof fn lemma_consistent_index_is_unique(
        first: &PartitionData<L>,
        second: &PartitionData<L>,
        store: &PersonStore,
        population: nat,
    )
        requires
            first.consistent(store, population),
            second.consistent(store, population),
            first.label_function() == second.label_function(),
            first.sensitivities() == second.sensitivities(),
        ensures
            forall|label: u64| first.bucket(label) == second.bucket(label),
    {
        assert forall|label: u64| first.bucket(label) == second.bucket(label) by {
            assert forall|p: PersonId| first.bucket(label).contains(p) == second.bucket(label).contains(p) by {
                assert(first.bucket(label).contains(p) <==> p.id < population && first.label_of(store, p)
                    == label);
                assert(second.bucket(label).contains(p) <==> p.id < population && second.label_of(store, p)
                    == label);
            }
            assert(first.bucket(label) =~= second.bucket(label));
        }
    }

    /// In an index that is in step with a store, every person stands in exactly one bucket:
    /// that of its label.
    pub proof fn lemma_exactly_one_bucket(&self, store: &PersonStore, population: nat, person_id: PersonId)
        requires
            self.consistent(store, population),
            person_id.id < population,
        ensures
            self.bucket(self.label_of(store, person_id)).contains(person_id),
            forall|label: u64| #[trigger]
                self.bucket(label).contains(person_id) ==> label == self.label_of(store, person_id),
    {
    }
}

/// Registers a partition in steps: the label function, the properties that it reads, then
/// the index.
pub struct PartitionBuilder<'a, A, D, L, P> {
    pub context: &'a mut Context<A, D, L>,
    pub label_function: Option<L>,
    pub sensitivities: Vec<Sensitivity>,
    pub registration_callbacks: Vec<A>,
    pub deregistration_callbacks: Vec<A>,
    pub partition: PhantomData<P>,
}

impl<'a, A: Copy, D, L: LabelFunction, P: Partition> PartitionBuilder<'a, A, D, L, P> {
    pub fn new(context: &'a mut Context<A, D, L>) -> (builder: PartitionBuilder<'a, A, D, L, P>)
        ensures
            *builder.context == *old(context),
            *final(builder.context) == *final(context),
            builder.label_function is None,
            builder.sensitivities@ == Seq::<Sensitivity>::empty(),
            builder.registration_callbacks@ == Seq::<A>::empty(),
            builder.deregistration_callbacks@ == Seq::<A>::empty(),
    {
        PartitionBuilder {
            context,
            label_function: None,
            sensitivities: Vec::new(),
            registration_callbacks: Vec::new(),
            deregistration_callbacks: Vec::new(),
            partition: PhantomData,
        }
    }

    /// Notes `callback` as what the registrant is to run when the partition is registered:
    /// `execute` hands it out, after the callbacks that were noted before.
    pub fn add_registration_callback(&mut self, callback: A)
        ensures
            *final(self).context == *old(self).context,
            *final(final(self).context) == *final(old(self).context),
            final(self).label_function == old(self).label_function,
            final(self).sensitivities == old(self).sensitivities,
            final(self).registration_callbacks@ == old(self).registration_callbacks@.push(callback),
            final(self).deregistration_callbacks == old(self).deregistration_callbacks,
    {
        self.registration_callbacks.push(callback);
    }

    /// Notes `callback` as what is to run when the partition is taken out of the registry:
    /// `remove_partition` hands it out, after the callbacks that were noted before.
    pub fn add_deregistration_callback(&mut self, callback: A)
        ensures
            *final(self).context == *old(self).context,
            *final(final(self).context) == *final(old(self).context),
            final(self).label_function == old(self).label_function,
            final(self).sensitivities == old(self).sensitivities,
            final(self).registration_callbacks == old(self).registration_callbacks,
            final(self).deregistration_callbacks@ == old(self).deregistration_callbacks@.push(callback),
    {
        self.deregistration_callbacks.push(callback);
    }

    /// Gives the partition its label function.
    pub fn set_label_function(self, label_function: L) -> (builder: PartitionBuilder<'a, A, D, L, P>)
        ensures
            *builder.context == *old(self.context),
            *final(builder.context) == *final(self.context),
            builder.label_function == Some(label_function),
            builder.sensitivities == self.sensitivities,
            builder.registration_callbacks == self.registration_callbacks,
            builder.deregistration_callbacks == self.deregistration_callbacks,
    {
        PartitionBuilder {
            context: self.context,
            label_function: Some(label_function),
            sensitivities: self.sensitivities,
            registration_callbacks: self.registration_callbacks,
            deregistration_callbacks: self.deregistration_callbacks,
            partition: PhantomData,
        }
    }

    /// Builds the index over the people that exist, on the properties as they are, and
    /// registers it in the slot of `P`, in place of what was there. From then on every
    /// creation and every write to a property that the partition is sensitive to keeps the
    /// index in step. The callbacks of deregistration are kept for `remove_partition`, in
    /// place of those that stood under the slot; the callbacks of registration are handed
    /// out for the registrant to run at once.
    pub fn execute(self) -> (due: Vec<Callback<A>>)
        requires
            old(self.context).wf(),
            self.label_function is Some,
            P::INDEX < usize::MAX,
        ensures
            due@ == notifications(self.registration_callbacks@, Event::Direct),
            final(self.context).deregistration_callbacks() == old(
                self.context,
            ).deregistration_callbacks().filter(not_under_key(P::INDEX)) + keyed(
                P::INDEX,
                self.deregistration_callbacks@,
            ),
            final(self.context).wf(),
            final(self.context).partitions().partition(P::INDEX) is Some,
            final(self.context).partitions().partition(P::INDEX)->0.label_function() == &self.label_function->0,
            final(self.context).partitions().partition(P::INDEX)->0.sensitivities() == self.sensitivities@,
            final(self.context).partitions().partition(P::INDEX)->0.labels() ==
                final(self.context).partitions().partition(P::INDEX)->0.labels_in_use(
                old(self.context).person_properties().store(),
                old(self.context).population(),
            ),
            forall|other: usize|
                other != P::INDEX ==> final(self.context).partitions().partition(other) == old(
                    self.context,
                ).partitions().partition(other),
            Context::changes_only(old(self.context), final(self.context), set![Part::Partitions]),
    {
        let context = self.context;
        let population = context.people.count();
        let specification = PartitionSpecification {
            label_function: self.label_function.unwrap(),
            sensitivities: self.sensitivities,
        };
        context.partitions.add_partition_internal(
            P::INDEX,
            specification,
            &context.person_properties.person_property_container,
            population,
        );
        context.deregistration_callbacks.remove(P::INDEX);
        context.deregistration_callbacks.add_all(P::INDEX, &self.deregistration_callbacks);
        told(&self.registration_callbacks, Event::Direct)
    }
}

/// What the builder of a partition offers about the regions of people.
pub trait RegionsPartitionBuilder<'a, A: Copy, D, L: LabelFunction, P: Partition>: Sized {
    /// The builder that this is.
    spec fn builder(self) -> PartitionBuilder<'a, A, D, L, P>;

    /// Declares that the label function reads the region of the person: the number of the
    /// region comes after the values that were declared before, `NO_REGION` for a person
    /// without a region, and every move of a person has the person filed anew.
    fn add_region_sensitivity(self) -> (builder: PartitionBuilder<'a, A, D, L, P>)
        ensures
            *builder.context == *self.builder().context,
            *final(builder.context) == *final(self.builder().context),
            builder.label_function == self.builder().label_function,
            builder.sensitivities@ == self.builder().sensitivities@.push(
                (Sensitivity { column: Column::Region, default: NO_REGION }),
            ),
            builder.registration_callbacks == self.builder().registration_callbacks,
            builder.deregistration_callbacks == self.builder().deregistration_callbacks,
    ;
}

impl<'a, A: Copy, D, L: LabelFunction, P: Partition> RegionsPartitionBuilder<'a, A, D, L, P> for PartitionBuilder<
    'a,
    A,
    D,
    L,
    P,
> {
    open spec fn builder(self) -> PartitionBuilder<'a, A, D, L, P> {
        self
    }

    fn add_region_sensitivity(self) -> (builder: PartitionBuilder<'a, A, D, L, P>) {
        let mut builder = self;
        builder.sensitivities.push(Sensitivity { column: Column::Region, default: NO_REGION });
        builder
    }
}

impl<A: Copy, D, L: LabelFunction> Context<A, D, L> {
    /// Every person that exists stands in exactly one bucket of every registered partition:
    /// the bucket of the label that the partition's label function gives the person on the
    /// properties as they are. Nobody else stands in any bucket.
    pub proof fn lemma_exactly_one_bucket(&self, slot: usize, person_id: PersonId)
        requires
            self.wf(),
            self.partitions().partition(slot) is Some,
        ensures
            person_id.id < self.population() ==> self.partitions().partition(slot)->0.bucket(
                self.partitions().partition(slot)->0.label_of(self.person_properties().store(), person_id),
            ).contains(person_id),
            forall|label: u64| #[trigger]
                self.partitions().partition(slot)->0.bucket(label).contains(person_id) ==> person_id.id
                    < self.population() && label == self.partitions().partition(slot)->0.label_of(
                    self.person_properties().store(),
                    person_id,
                ),
    {
        let data = self.partitions().partition(slot)->0;
        let store = self.person_properties().store();
        assert(data.consistent(store, self.population()));
        assert(data.bucket(data.label_of(store, person_id)).contains(person_id) <==> person_id.id
            < self.population());
    }

    /// The people to whom partition `P` gives `label` on the properties as they are.
    pub open spec fn people_labelled<P: Partition>(&self, label: u64) -> Set<PersonId> {
        Set::new(
            |person_id: PersonId|
                person_id.id < self.population() && self.partitions().partition(P::INDEX)->0.label_of(
                    self.person_properties().store(),
                    person_id,
                ) == label,
        )
    }
}

/// What a context offers about its partitions.
pub trait PartitionContext<A: Copy, D, L: LabelFunction> {
    /// The context that this is.
    spec fn context(&self) -> &Context<A, D, L>;

    /// Starts the registration of partition `P`.
    fn add_partition<P: Partition>(&mut self) -> (builder: PartitionBuilder<'_, A, D, L, P>)
        ensures
            *builder.context == *old(self).context(),
            *final(builder.context) == *final(self).context(),
            builder.label_function is None,
            builder.sensitivities@ == Seq::<Sensitivity>::empty(),
            builder.registration_callbacks@ == Seq::<A>::empty(),
            builder.deregistration_callbacks@ == Seq::<A>::empty(),
    ;

    /// Takes partition `P` out of the registry. Nothing keeps its index in step after that.
    /// The callbacks of deregistration that were noted for the partition are handed out for
    /// the caller to run at once, and are kept no longer.
    fn remove_partition<P: Partition>(&mut self) -> (due: Vec<Callback<A>>)
        requires
            old(self).context().wf(),
            old(self).context().partitions().partition(P::INDEX) is Some,
        ensures
            due@ == notifications(
                actions_under(old(self).context().deregistration_callbacks(), P::INDEX),
                Event::Direct,
            ),
            final(self).context().deregistration_callbacks() == old(
                self,
            ).context().deregistration_callbacks().filter(not_under_key(P::INDEX)),
            final(self).context().wf(),
            final(self).context().partitions().partition(P::INDEX) is None,
            forall|other: usize|
                other != P::INDEX ==> final(self).context().partitions().partition(other) ==
                    old(self).context().partitions().partition(
                    other,
                ),
            Context::changes_only(old(self).context(), final(self).context(), set![Part::Partitions]),
    ;

    /// Whether partition `P` is registered.
    fn has_partition<P: Partition>(&self) -> (registered: bool)
        ensures
            registered == self.context().partitions().partition(P::INDEX) is Some,
    ;

    /// The label that partition `P` gives `person_id` on the properties as they are.
    fn get_partition_label<P: Partition>(&self, person_id: PersonId) -> (label: u64)
        requires
            self.context().partitions().partition(P::INDEX) is Some,
        ensures
            label == self.context().partitions().partition(P::INDEX)->0.label_of(
                self.context().person_properties().store(),
                person_id,
            ),
    ;

    /// The people that partition `P` files under `label`: those whose label on the properties
    /// as they are is `label`. `None` says that nobody has the label now.
    fn get_partition_cell<P: Partition>(&self, label: u64) -> (cell: Option<&IndexSetPersonContainer>)
        requires
            self.context().wf(),
            self.context().partitions().partition(P::INDEX) is Some,
        ensures
            match cell {
                Some(bucket) => bucket.wf() && bucket.members() == self.context().people_labelled::<P>(label)
                    && exists|person_id: PersonId| #[trigger] bucket.members().contains(person_id),
                None => self.context().people_labelled::<P>(label) == Set::<PersonId>::empty(),
            },
    ;
}

impl<A: Copy, D, L: LabelFunction> PartitionContext<A, D, L> for Context<A, D, L> {
    open spec fn context(&self) -> &Context<A, D, L> {
        self
    }

    fn add_partition<P: Partition>(&mut self) -> (builder: PartitionBuilder<'_, A, D, L, P>)
    {
        PartitionBuilder::new(self)
    }

    fn remove_partition<P: Partition>(&mut self) -> (due: Vec<Callback<A>>)
    {
        let _ = self.partitions.remove_partition(P::INDEX);
        let actions = self.deregistration_callbacks.under(P::INDEX);
        self.deregistration_callbacks.remove(P::INDEX);
        assert(self.wf_apart_from_regions());
        assert(self.regions_mirrored());
        told(&actions, Event::Direct)
    }

    fn has_partition<P: Partition>(&self) -> (registered: bool)
    {
        self.partitions.is_registered(P::INDEX)
    }

    fn get_partition_label<P: Partition>(&self, person_id: PersonId) -> (label: u64)
    {
        self.partitions.get_partition_label(
            P::INDEX,
            &self.person_properties.person_property_container,
            person_id,
        )
    }

    fn get_partition_cell<P: Partition>(&self, label: u64) -> (cell: Option<&IndexSetPersonContainer>)
    {
        proof {
            let data = self.partitions.partition(P::INDEX)->0;
            assert(data.bucket(label) =~= self.people_labelled::<P>(label)) by {
                assert forall|p: PersonId| data.bucket(label).contains(p) == self.people_labelled::<P>(
                    label,
                ).contains(p) by {
                    assert(data.bucket(label).contains(p) <==> p.id < self.population() && data.label_of(
                        self.person_properties().store(),
                        p,
                    ) == label);
                }
            }
        }
        self.partitions.get_partition_cell(P::INDEX, label)
    }
}

} // verus!
