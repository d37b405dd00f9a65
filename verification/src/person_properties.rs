use crate::context::notifications;
use crate::context::Callback;
use crate::context::Context;
use crate::context::Part;
use crate::context::Event;
use crate::data_containers::vector_heterogeneous_container::VecDataContainer;
use crate::data_containers::PropertyWithDefault;
use crate::observers::actions_under;
use crate::observers::SubscriberList;
use crate::creation::CreationBuilder;
use crate::creation::CreationStep;
use crate::partitions::LabelFunction;
use crate::partitions::Partition;
use crate::partitions::PartitionBuilder;
use crate::partitions::Sensitivity;
use crate::partitions::PartitionData;
use crate::partitions::PartitionDataContainer;
use crate::people::PersonId;
use vstd::prelude::*;

verus! {

/// A property of people: a column of the person properties, with its default.
pub trait PersonProperty: PropertyWithDefault {

}

/// What an observer of a person property is told: whose value was set, in which column, and
/// what the value was before.
#[derive(Clone, Copy, Debug, PartialEq, Eq, Structural)]
pub struct PersonPropertyChangeEvent {
    pub person_id: PersonId,
    pub property: usize,
    pub old_value: u64,
}

/// What a label can depend on: a property of the person, by its column, or the region of
/// the person.
#[derive(Clone, Copy, Debug, PartialEq, Eq, Structural)]
pub enum Column {
    Property(usize),
    Region,
}

/// The cells of the people: the columns of the person properties and, beside them, one
/// column that holds the number of the region of each person that has one.
pub struct PersonStore {
    properties: VecDataContainer,
    regions: VecDataContainer,
}

impl PersonStore {
    /// The cells that were written, by column and number of the person.
    pub closed spec fn cells(&self) -> Map<(Column, usize), u64> {
        Map::new(
            |at: (Column, usize)|
                match at.0 {
                    Column::Property(column) => self.properties.cells().contains_key((column, at.1)),
                    Column::Region => self.regions.cells().contains_key((0usize, at.1)),
                },
            |at: (Column, usize)|
                match at.0 {
                    Column::Property(column) => self.properties.cells()[(column, at.1)],
                    Column::Region => self.regions.cells()[(0usize, at.1)],
                },
        )
    }

    /// What the cell of person `index` in `column` reads as, where a cell that was never
    /// written reads as `default`.
    pub open spec fn cell(&self, column: Column, default: u64, index: usize) -> u64 {
        if self.cells().contains_key((column, index)) {
            self.cells()[(column, index)]
        } else {
            default
        }
    }

    /// The value of property `K` for person `index`.
    pub open spec fn value_at<K: PropertyWithDefault>(&self, index: usize) -> u64 {
        self.cell(Column::Property(K::INDEX), K::DEFAULT, index)
    }

    pub fn new() -> (store: PersonStore)
        ensures
            store.cells() == Map::<(Column, usize), u64>::empty(),
    {
        let store = PersonStore { properties: VecDataContainer::new(), regions: VecDataContainer::new() };
        assert(store.cells() =~= Map::<(Column, usize), u64>::empty());
        store
    }

    /// Writes `value` into the cell of person `index` in `column`. No other cell changes.
    pub fn set_cell(&mut self, column: Column, index: usize, value: u64)
        requires
            index < usize::MAX,
        ensures
            final(self).cells() == old(self).cells().insert((column, index), value),
    {
        match column {
            Column::Property(at) => self.properties.set_cell(at, index, value),
            Column::Region => self.regions.set_cell(0, index, value),
        }
        assert(self.cells() =~= old(self).cells().insert((column, index), value));
    }

    /// The cell of person `index` in `column`, or `default` if it was never written.
    pub fn get_cell(&self, column: Column, default: u64, index: usize) -> (value: u64)
        ensures
            value == self.cell(column, default, index),
    {
        match column {
            Column::Property(at) => self.properties.get_cell(at, default, index),
            Column::Region => self.regions.get_cell(0, default, index),
        }
    }

    /// The value of property `K` for person `index`: what was set last, or the default of `K`.
    pub fn get_value<K: PropertyWithDefault>(&self, index: usize) -> (value: u64)
        ensures
            value == self.value_at::<K>(index),
    {
        self.properties.get_cell(K::INDEX, K::DEFAULT, index)
    }
}

/// The values of the person properties, and who observes which property.
pub struct PersonPropertyDataContainer<A> {
    pub(crate) person_property_container: PersonStore,
    pub(crate) observers: SubscriberList<A>,
}

impl<A: Copy> PersonPropertyDataContainer<A> {
    /// The values.
    pub open(crate) spec fn store(&self) -> &PersonStore {
        &self.person_property_container
    }

    /// The observers, each under the column that it observes, oldest first.
    pub open(crate) spec fn observers(&self) -> Seq<(usize, A)> {
        self.observers.entries()
    }

    pub fn new() -> (properties: PersonPropertyDataContainer<A>)
        ensures
            properties.store().cells() == Map::<(Column, usize), u64>::empty(),
            properties.observers() == Seq::<(usize, A)>::empty(),
    {
        PersonPropertyDataContainer {
            person_property_container: PersonStore::new(),
            observers: SubscriberList::new(),
        }
    }
}

impl<A: Copy, D, L: LabelFunction> Context<A, D, L> {
    /// Writes `value` into the cell of `person_id` in `column` of the person properties. Every
    /// partition that is sensitive to `column` notes the person's label before the write and
    /// moves the person to the bucket of its new label after it. Nobody is told.
    pub fn set_person_cell(&mut self, column: usize, person_id: PersonId, value: u64)
        requires
            old(self).wf(),
            person_id.id < usize::MAX,
            old(self).partitions().is_sensitive_to(Column::Property(column)) ==> person_id.id < old(
                self,
            ).population(),
        ensures
            final(self).wf(),
            final(self).person_properties().store().cells() == old(self).person_properties().store().cells().insert(
                (Column::Property(column), person_id.id),
                value,
            ),
            final(self).person_properties().observers() == old(self).person_properties().observers(),
            PartitionDataContainer::same_registrations(old(self).partitions(), final(self).partitions()),
            forall|slot: usize| #[trigger]
                old(self).partitions().partition(slot) is Some && !old(self).partitions().partition(
                    slot,
                )->0.is_sensitive_to(Column::Property(column)) ==> PartitionData::same_buckets(
                    &old(self).partitions().partition(slot)->0,
                    &final(self).partitions().partition(slot)->0,
                ),
            Self::changes_only(old(self), final(self), set![Part::PersonProperties, Part::Partitions]),
    {
        self.write_person_cell(Column::Property(column), person_id, value);
    }

    /// As `set_person_cell`, also for the column of the regions; of the record of the regions
    /// in that column nothing is asked and nothing is promised.
    pub(crate) fn write_person_cell(&mut self, column: Column, person_id: PersonId, value: u64)
        requires
            old(self).wf_apart_from_regions(),
            person_id.id < usize::MAX,
            old(self).partitions().is_sensitive_to(column) ==> person_id.id < old(self).population(),
        ensures
            final(self).wf_apart_from_regions(),
            final(self).person_properties().store().cells() == old(self).person_properties().store().cells().insert(
                (column, person_id.id),
                value,
            ),
            final(self).person_properties().observers() == old(self).person_properties().observers(),
            PartitionDataContainer::same_registrations(old(self).partitions(), final(self).partitions()),
            forall|slot: usize| #[trigger]
                old(self).partitions().partition(slot) is Some && !old(self).partitions().partition(
                    slot,
                )->0.is_sensitive_to(column) ==> PartitionData::same_buckets(
                    &old(self).partitions().partition(slot)->0,
                    &final(self).partitions().partition(slot)->0,
                ),
            Self::changes_only(old(self), final(self), set![Part::PersonProperties, Part::Partitions]),
    {
        let captured = self.partitions.capture_labels(
            &self.person_properties.person_property_container,
            person_id,
            column,
        );
        self.person_properties.person_property_container.set_cell(column, person_id.id, value);
        proof {
            assert forall|slot: usize|
                slot < captured.len() && #[trigger] captured[slot as int] is Some implies old(
                self,
            ).partitions.partition(slot) is Some && old(self).partitions.partition(slot)->0.bucket(
                captured[slot as int]->0,
            ).contains(person_id) by {
                assert(old(self).partitions.partition(slot) is Some);
                assert(old(self).partitions.partition(slot)->0.is_sensitive_to(column));
            }
        }
        self.partitions.reevaluate_person(&self.person_properties.person_property_container, person_id, &captured);
        proof {
            let old_store = &old(self).person_properties.person_property_container;
            let new_store = &self.person_properties.person_property_container;
            assert forall|slot: usize| #[trigger] self.partitions.partition(slot) is Some implies self.partitions.partition(
                slot,
            )->0.wf() && self.partitions.partition(slot)->0.consistent(new_store, self.population()) by {
                let before = old(self).partitions.partition(slot)->0;
                let after = self.partitions.partition(slot)->0;
                assert(old(self).partitions.partition(slot) is Some);
                if before.is_sensitive_to(column) {
                    assert(slot < captured.len());
                    assert(captured[slot as int] is Some);
                }
                PartitionData::lemma_update_keeps_consistent(
                    &before,
                    &after,
                    old_store,
                    new_store,
                    self.population(),
                    person_id,
                    column,
                    value,
                );
            }
        }
    }
}

/// What a context offers about the properties of its people.
pub trait PersonPropertyContext<A: Copy, D, L: LabelFunction> {
    /// The context that this is.
    spec fn context(&self) -> &Context<A, D, L>;

    /// The value of property `T` for `person_id`: what was set last, or the default of `T`.
    fn get_person_property_value<T: PersonProperty>(&self, person_id: PersonId) -> (value: u64)
        ensures
            value == self.context().person_properties().store().value_at::<T>(person_id.id),
    ;

    /// Sets property `T` of `person_id` to `value`. Before this returns, every partition that
    /// is sensitive to `T` has moved the person to the bucket of its new label. The observers
    /// of `T` are queued behind the callbacks that are due, each with the value as it was.
    fn set_person_property_value<T: PersonProperty>(&mut self, person_id: PersonId, value: u64)
        requires
            old(self).context().wf(),
            person_id.id < usize::MAX,
            old(self).context().partitions().is_sensitive_to(Column::Property(T::INDEX)) ==>
                person_id.id < old(self).context().population(),
        ensures
            final(self).context().wf(),
            final(self).context().person_properties().store().cells() ==
                old(self).context().person_properties().store().cells().insert(
                (Column::Property(T::INDEX), person_id.id),
                value,
            ),
            final(self).context().person_properties().observers() ==
                old(self).context().person_properties().observers(),
            final(self).context().callbacks() == old(self).context().callbacks() + notifications(
                actions_under(old(self).context().person_properties().observers(), T::INDEX),
                Event::PersonPropertyChanged(
                    (PersonPropertyChangeEvent {
                        person_id,
                        property: T::INDEX,
                        old_value: old(self).context().person_properties().store().value_at::<T>(person_id.id),
                    }),
                ),
            ),
            PartitionDataContainer::same_registrations(old(self).context().partitions(),
                final(self).context().partitions()),
            forall|slot: usize| #[trigger]
                old(self).context().partitions().partition(slot) is Some &&
                    !old(self).context().partitions().partition(
                    slot,
                )->0.is_sensitive_to(Column::Property(T::INDEX)) ==> PartitionData::same_buckets(
                    &old(self).context().partitions().partition(slot)->0,
                    &final(self).context().partitions().partition(slot)->0,
                ),
            Context::changes_only(
                old(self).context(),
                final(self).context(),
                set![Part::PersonProperties, Part::Partitions, Part::Callbacks],
            ),
    ;

    /// Whether a registered partition is sensitive to property `T`.
    fn has_sensitive_partition<T: PersonProperty>(&self) -> (sensitive: bool)
        ensures
            sensitive == self.context().partitions().is_sensitive_to(Column::Property(T::INDEX)),
    ;

    /// Has `action` queued, with the person and the old value, whenever property `T` is set.
    fn observe_person_property_changes<T: PersonProperty>(&mut self, action: A)
        requires
            old(self).context().wf(),
        ensures
            final(self).context().wf(),
            final(self).context().person_properties().observers() ==
                old(self).context().person_properties().observers().push(
                (T::INDEX, action),
            ),
            final(self).context().person_properties().store() == old(self).context().person_properties().store(),
            Context::changes_only(old(self).context(), final(self).context(), set![Part::PersonProperties]),
    ;
}

impl<A: Copy, D, L: LabelFunction> PersonPropertyContext<A, D, L> for Context<A, D, L> {
    open spec fn context(&self) -> &Context<A, D, L> {
        self
    }

    fn get_person_property_value<T: PersonProperty>(&self, person_id: PersonId) -> (value: u64)
    {
        self.person_properties.person_property_container.get_value::<T>(person_id.id)
    }

    fn set_person_property_value<T: PersonProperty>(&mut self, person_id: PersonId, value: u64)
    {
        let old_value = self.person_properties.person_property_container.get_value::<T>(person_id.id);
        let change_event = PersonPropertyChangeEvent { person_id, property: T::INDEX, old_value };
        self.set_person_cell(T::INDEX, person_id, value);
        let observers = self.person_properties.observers.under(T::INDEX);
        self.notify(&observers, Event::PersonPropertyChanged(change_event));
    }

    fn has_sensitive_partition<T: PersonProperty>(&self) -> (sensitive: bool)
    {
        self.partitions.depends_on(Column::Property(T::INDEX))
    }

    fn observe_person_property_changes<T: PersonProperty>(&mut self, action: A)
    {
        self.person_properties.observers.add(T::INDEX, action);
    }
}

/// What the builder of a person offers about the person's properties.
pub trait PersonPropertiesPersonBuilder<'a, A: Copy, D, L: LabelFunction>: Sized {
    /// The builder that this is.
    spec fn builder(self) -> CreationBuilder<'a, A, D, L, PersonId>;

    /// Has property `T` of the person set to `value` before anybody hears of the person.
    fn set_person_property<T: PersonProperty>(self, value: u64) -> (builder: CreationBuilder<
        'a,
        A,
        D,
        L,
        PersonId,
    >)
        ensures
            *builder.context == *self.builder().context,
            *final(builder.context) == *final(self.builder().context),
            builder.steps() == self.builder().steps().push(
                (CreationStep::SetProperty { column: T::INDEX, value }),
            ),
    ;
}

impl<'a, A: Copy, D, L: LabelFunction> PersonPropertiesPersonBuilder<'a, A, D, L> for CreationBuilder<
    'a,
    A,
    D,
    L,
    PersonId,
> {
    open spec fn builder(self) -> CreationBuilder<'a, A, D, L, PersonId> {
        self
    }

    fn set_person_property<T: PersonProperty>(self, value: u64) -> (builder: CreationBuilder<
        'a,
        A,
        D,
        L,
        PersonId,
    >) {
        let mut builder = self;
        builder.add_callback(CreationStep::SetProperty { column: T::INDEX, value });
        builder
    }
}

/// What the builder of a partition offers about the properties of people.
pub trait PersonPropertyPartitionBuilder<'a, A: Copy, D, L: LabelFunction, P: Partition>: Sized {
    /// The builder that this is.
    spec fn builder(self) -> PartitionBuilder<'a, A, D, L, P>;

    /// Declares that the label function reads property `T`: the value of `T` comes after the
    /// values that were declared before, and every write to `T` has the person moved.
    fn add_person_property_sensitivity<T: PersonProperty>(self) -> (builder: PartitionBuilder<'a, A, D, L, P>)
        ensures
            *builder.context == *self.builder().context,
            *final(builder.context) == *final(self.builder().context),
            builder.label_function == self.builder().label_function,
            builder.sensitivities@ == self.builder().sensitivities@.push(
                (Sensitivity { column: Column::Property(T::INDEX), default: T::DEFAULT }),
            ),
            builder.registration_callbacks == self.builder().registration_callbacks,
            builder.deregistration_callbacks == self.builder().deregistration_callbacks,
    ;
}

impl<'a, A: Copy, D, L: LabelFunction, P: Partition> PersonPropertyPartitionBuilder<
    'a,
    A,
    D,
    L,
    P,
> for PartitionBuilder<'a, A, D, L, P> {
    open spec fn builder(self) -> PartitionBuilder<'a, A, D, L, P> {
        self
    }

    fn add_person_property_sensitivity<T: PersonProperty>(self) -> (builder: PartitionBuilder<'a, A, D, L, P>) {
        let mut builder = self;
        builder.sensitivities.push(Sensitivity { column: Column::Property(T::INDEX), default: T::DEFAULT });
        builder
    }
}

} // verus!
