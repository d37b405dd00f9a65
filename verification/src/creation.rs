use crate::context::notifications;
use crate::context::Callback;
use crate::context::Context;
use crate::context::Event;
use crate::context::Part;
use crate::partitions::LabelFunction;
use crate::partitions::PartitionDataContainer;
use crate::observers::actions_of;
use crate::people::PeopleContext;
use crate::people::PersonId;
use crate::person_properties::Column;
use crate::regions::RegionId;
use std::marker::PhantomData;
use vstd::prelude::*;

verus! {

/// What a builder does to what it creates, before anybody hears of the creation.
#[derive(Clone, Copy, Debug, PartialEq, Eq, Structural)]
pub enum CreationStep {
    /// Writes `value` into the cell of the created one in `column` of its properties.
    SetProperty { column: usize, value: u64 },
    /// Gives a created person its region.
    SetRegion(RegionId),
}

/// The cells of the region properties after the writes of `steps` for the region with number
/// `index`. A step that assigns a region to a person writes nothing here.
pub open spec fn cells_after(cells: Map<(usize, usize), u64>, steps: Seq<CreationStep>, index: usize) -> Map<
    (usize, usize),
    u64,
>
    decreases steps.len(),
{
    if steps.len() == 0 {
        cells
    } else {
        let before = cells_after(cells, steps.drop_last(), index);
        match steps.last() {
            CreationStep::SetProperty { column, value } => before.insert((column, index), value),
            CreationStep::SetRegion(_) => before,
        }
    }
}

/// The cells of the people after the writes of `steps` for the person with number `index`:
/// a property goes into its column, the number of an assigned region into the column of the
/// regions.
pub open spec fn person_cells_after(
    cells: Map<(Column, usize), u64>,
    steps: Seq<CreationStep>,
    index: usize,
) -> Map<(Column, usize), u64>
    decreases steps.len(),
{
    if steps.len() == 0 {
        cells
    } else {
        let before = person_cells_after(cells, steps.drop_last(), index);
        match steps.last() {
            CreationStep::SetProperty { column, value } => before.insert((Column::Property(column), index), value),
            CreationStep::SetRegion(region_id) => before.insert((Column::Region, index), region_id.id as u64),
        }
    }
}

/// The regions of the people after the assignments of `steps`.
pub open spec fn regions_after(region_map: Seq<RegionId>, steps: Seq<CreationStep>) -> Seq<RegionId>
    decreases steps.len(),
{
    if steps.len() == 0 {
        region_map
    } else {
        let before = regions_after(region_map, steps.drop_last());
        match steps.last() {
            CreationStep::SetProperty { .. } => before,
            CreationStep::SetRegion(region_id) => before.push(region_id),
        }
    }
}

/// Each assignment of a region in `steps` finds the regions of exactly the `index` people
/// before the created one.
pub open spec fn regions_in_sequence(region_map: Seq<RegionId>, steps: Seq<CreationStep>, index: usize) -> bool {
    forall|i: int|
        0 <= i < steps.len() && #[trigger] steps[i] is SetRegion ==> regions_after(region_map, steps.take(i)).len()
            == index
}

/// Creates one person or region in steps: the handle, then what the builder was told to
/// set.
pub struct CreationBuilder<'a, A, D, L, T> {
    pub context: &'a mut Context<A, D, L>,
    pub callbacks: Vec<CreationStep>,
    pub created: PhantomData<T>,
}

pub type PersonBuilder<'a, A, D, L> = CreationBuilder<'a, A, D, L, PersonId>;

impl<'a, A: Copy, D, L: LabelFunction, T> CreationBuilder<'a, A, D, L, T> {
    /// What the builder was told to set, in order.
    pub open spec fn steps(&self) -> Seq<CreationStep> {
        self.callbacks@
    }

    pub fn new(context: &'a mut Context<A, D, L>) -> (builder: CreationBuilder<'a, A, D, L, T>)
        ensures
            *builder.context == *old(context),
            *final(builder.context) == *final(context),
            builder.steps() == Seq::<CreationStep>::empty(),
    {
        CreationBuilder { context, callbacks: Vec::new(), created: PhantomData }
    }

    /// Has `step` done after the steps that the builder has.
    pub fn add_callback(&mut self, step: CreationStep)
        ensures
            *final(self).context == *old(self).context,
            *final(final(self).context) == *final(old(self).context),
            final(self).steps() == old(self).steps().push(step),
    {
        self.callbacks.push(step);
    }
}

impl<'a, A: Copy, D, L: LabelFunction> CreationBuilder<'a, A, D, L, PersonId> {
    /// Creates the person, in this order: gives it the next handle, does the steps, files it
    /// in every partition, hands out what was noted to run at once on a new person, and
    /// queues the observers of creations behind the callbacks that are due. The creator runs
    /// what is handed out before it goes on.
    pub fn execute(self) -> (created: (PersonId, Vec<Callback<A>>))
        requires
            old(self.context).wf(),
            old(self.context).population() < usize::MAX,
            regions_in_sequence(old(self.context).regions().region_map(), self.steps(),
                old(self.context).population() as usize),
        ensures
            created.1@ == notifications(
                actions_of(old(self.context).people().creation_immediate_callbacks()),
                Event::PersonCreated(created.0),
            ),
            final(self.context).callbacks() == old(self.context).callbacks() + notifications(
                actions_of(old(self.context).people().creation_observers()),
                Event::PersonCreated(created.0),
            ),
            final(self.context).wf(),
            created.0.id == old(self.context).population(),
            final(self.context).population() == old(self.context).population() + 1,
            final(self.context).person_properties().store().cells() == person_cells_after(
                old(self.context).person_properties().store().cells(),
                self.steps(),
                created.0.id,
            ),
            final(self.context).regions().region_map() == regions_after(
                old(self.context).regions().region_map(),
                self.steps(),
            ),
            PartitionDataContainer::same_registrations(old(self.context).partitions(),
                final(self.context).partitions()),
            final(self.context).person_properties().observers() == old(self.context).person_properties().observers(),
            final(self.context).people().creation_observers() == old(self.context).people().creation_observers(),
            final(self.context).people().creation_immediate_callbacks() == old(
                self.context,
            ).people().creation_immediate_callbacks(),
            final(self.context).regions().count() == old(self.context).regions().count(),
            final(self.context).regions().store() == old(self.context).regions().store(),
            final(self.context).regions().observers() == old(self.context).regions().observers(),
            Context::changes_only(
                old(self.context),
                final(self.context),
                set![Part::People, Part::PersonProperties, Part::Partitions, Part::Regions, Part::Callbacks],
            ),
    {
        let context = self.context;
        let ghost start = *context;
        let ghost steps = self.callbacks@;
        let person_id = context.people.create_person();
        let mut i: usize = 0;
        assert(steps.take(0) =~= Seq::<CreationStep>::empty());
        while i < self.callbacks.len()
            invariant
                i <= self.callbacks.len(),
                steps == self.callbacks@,
                person_id.id == start.population(),
                person_id.id < usize::MAX,
                start.wf(),
                forall|person: usize|
                    person < context.regions.region_map@.len() ==> {
                        &&& #[trigger] context.person_properties.store().cells().contains_key(
                            (Column::Region, person),
                        )
                        &&& context.person_properties.store().cells()[(Column::Region, person)]
                            == context.regions.region_map@[person as int].id as u64
                    },
                context.people.population() == start.population() + 1,
                context.people.creation_observers() == start.people.creation_observers(),
                context.people.creation_immediate_callbacks() == start.people.creation_immediate_callbacks(),
                context.regions.store() == start.regions.store(),
                context.regions.observers() == start.regions.observers(),
                context.global_properties == start.global_properties,
                context.deregistration_callbacks == start.deregistration_callbacks,
                context.groups == start.groups,
                context.reports == start.reports,
                context.random == start.random,
                context.person_properties.store().cells() == person_cells_after(
                    start.person_properties.store().cells(),
                    steps.take(i as int),
                    person_id.id,
                ),
                context.regions.region_map@.len() <= start.population() + 1,
                regions_in_sequence(start.regions.region_map@, steps, person_id.id),
                context.person_properties.observers() == start.person_properties.observers(),
                context.regions.region_map@ == regions_after(start.regions.region_map@, steps.take(i as int)),
                context.regions.count() == start.regions.count(),
                context.partitions == start.partitions,
                context.partitions.consistent(context.person_properties.store(), start.population()),
                context.plan_queue == start.plan_queue,
                context.callback_queue == start.callback_queue,
                context.time == start.time,
                context.plugin_data == start.plugin_data,
            decreases self.callbacks.len() - i,
        {
            let ghost store_before = context.person_properties.person_property_container;
            proof {
                assert(steps.take(i + 1).drop_last() =~= steps.take(i as int));
                assert(steps.take(i + 1).last() == steps[i as int]);
            }
            match self.callbacks[i] {
                CreationStep::SetProperty { column, value } => {
                    context.person_properties.person_property_container.set_cell(
                        Column::Property(column),
                        person_id.id,
                        value,
                    );
                    proof {
                        let store_after = context.person_properties.person_property_container;
                        assert forall|slot: usize| #[trigger]
                            context.partitions.partition(slot) is Some implies context.partitions.partition(
                            slot,
                        )->0.wf() && context.partitions.partition(slot)->0.consistent(
                            &store_after,
                            start.population(),
                        ) by {
                            let data = context.partitions.partition(slot)->0;
                            crate::partitions::PartitionData::lemma_update_keeps_consistent(
                                &data,
                                &data,
                                &store_before,
                                &store_after,
                                start.population(),
                                person_id,
                                Column::Property(column),
                                value,
                            );
                        }
                        assert forall|person: usize| person < context.regions.region_map@.len() implies {
                            &&& #[trigger] store_after.cells().contains_key((Column::Region, person))
                            &&& store_after.cells()[(Column::Region, person)]
                                == context.regions.region_map@[person as int].id as u64
                        } by {
                            assert(store_before.cells().contains_key((Column::Region, person)));
                        }
                    }
                },
                CreationStep::SetRegion(region_id) => {
                    assert(regions_after(start.regions.region_map@, steps.take(i as int)).len() == person_id.id);
                    let ghost map_before = context.regions.region_map@;
                    context.regions.region_map.push(region_id);
                    context.person_properties.person_property_container.set_cell(
                        Column::Region,
                        person_id.id,
                        region_id.id as u64,
                    );
                    proof {
                        let store_after = context.person_properties.person_property_container;
                        assert forall|slot: usize| #[trigger]
                            context.partitions.partition(slot) is Some implies context.partitions.partition(
                            slot,
                        )->0.wf() && context.partitions.partition(slot)->0.consistent(
                            &store_after,
                            start.population(),
                        ) by {
                            let data = context.partitions.partition(slot)->0;
                            crate::partitions::PartitionData::lemma_update_keeps_consistent(
                                &data,
                                &data,
                                &store_before,
                                &store_after,
                                start.population(),
                                person_id,
                                Column::Region,
                                region_id.id as u64,
                            );
                        }
                        assert forall|person: usize| person < context.regions.region_map@.len() implies {
                            &&& #[trigger] store_after.cells().contains_key((Column::Region, person))
                            &&& store_after.cells()[(Column::Region, person)]
                                == context.regions.region_map@[person as int].id as u64
                        } by {
                            if person < map_before.len() {
                                assert(store_before.cells().contains_key((Column::Region, person)));
                                assert(context.regions.region_map@[person as int] == map_before[person as int]);
                            }
                        }
                    }
                },
            }
            i += 1;
        }
        assert(steps.take(i as int) =~= steps);
        context.partitions.handle_person_creation(
            &context.person_properties.person_property_container,
            person_id,
        );
        assert(context.wf_apart_from_regions());
        assert(context.regions_mirrored());
        let due = context.finalize_person_creation(person_id);
        (person_id, due)
    }
}

} // verus!
