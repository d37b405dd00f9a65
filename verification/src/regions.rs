use crate::context::notifications;
use crate::context::Context;
use crate::context::Part;
use crate::context::Event;
use crate::creation::cells_after;
use crate::creation::CreationBuilder;
use crate::creation::CreationStep;
use crate::data_containers::vector_heterogeneous_container::VecDataContainer;
use crate::data_containers::PropertyWithDefault;
use crate::observers::actions_of;
use crate::observers::SubscriberList;
use crate::partitions::LabelFunction;
use crate::partitions::PartitionDataContainer;
use crate::people::PersonId;
use crate::person_properties::Column;
use vstd::prelude::*;

verus! {

/// Handle of a region: its number in the order of creation, from zero.
#[derive(Clone, Copy, Debug, PartialEq, Eq, Structural, Hash, PartialOrd, Ord)]
pub struct RegionId {
    pub id: usize,
}

impl RegionId {
    pub fn new(id: usize) -> (region_id: RegionId)
        ensures
            region_id.id == id,
    {
        RegionId { id }
    }
}

/// What the cell of a person without a region reads as, in the column of the regions.
pub const NO_REGION: u64 = u64::MAX;

/// A property of regions: a column of the region properties, with its default.
pub trait RegionProperty: PropertyWithDefault {

}

/// What an observer of regions is told: who moved, and from where.
#[derive(Clone, Copy, Debug, PartialEq, Eq, Structural)]
pub struct PersonRegionChangeEvent {
    pub person_id: PersonId,
    pub old_region_id: RegionId,
}

/// The regions: the last that was created, the region of each person that has one, the
/// values of the region properties, and who observes moves.
pub struct RegionsDataContainer<A> {
    pub(crate) max_region_id: Option<RegionId>,
    pub(crate) region_map: Vec<RegionId>,
    pub(crate) region_property_container: VecDataContainer,
    pub(crate) observers: SubscriberList<A>,
}

impl<A: Copy> RegionsDataContainer<A> {
    /// How many regions were created.
    pub open(crate) spec fn count(&self) -> nat {
        match self.max_region_id {
            Some(region_id) => region_id.id as nat + 1,
            None => 0,
        }
    }

    /// The region of each person that has one, by the person's number.
    pub open(crate) spec fn region_map(&self) -> Seq<RegionId> {
        self.region_map@
    }

    /// The values of the region properties.
    pub open(crate) spec fn store(&self) -> &VecDataContainer {
        &self.region_property_container
    }

    /// The observers of moves, oldest first.
    pub open(crate) spec fn observers(&self) -> Seq<(usize, A)> {
        self.observers.entries()
    }

    pub fn new() -> (regions: RegionsDataContainer<A>)
        ensures
            regions.count() == 0,
            regions.region_map() == Seq::<RegionId>::empty(),
            regions.store().cells() == Map::<(usize, usize), u64>::empty(),
            regions.observers() == Seq::<(usize, A)>::empty(),
    {
        RegionsDataContainer {
            max_region_id: None,
            region_map: Vec::new(),
            region_property_container: VecDataContainer::new(),
            observers: SubscriberList::new(),
        }
    }

    /// Gives the next region its handle.
    pub fn create_region(&mut self) -> (region_id: RegionId)
        requires
            old(self).count() < usize::MAX,
        ensures
            region_id.id == old(self).count(),
            final(self).count() == old(self).count() + 1,
            final(self).region_map() == old(self).region_map(),
            final(self).store() == old(self).store(),
            final(self).observers() == old(self).observers(),
    {
        let region_id = match self.max_region_id {
            None => RegionId::new(0),
            Some(max_region_id) => RegionId::new(max_region_id.id + 1),
        };
        self.max_region_id = Some(region_id);
        region_id
    }
}

/// What the builder of a region offers about the region's properties.
pub trait RegionPropertiesCreationBuilder<'a, A: Copy, D, L: LabelFunction>: Sized {
    /// The builder that this is.
    spec fn builder(self) -> CreationBuilder<'a, A, D, L, RegionId>;

    /// Has property `T` of the region set to `value`.
    fn set_region_property<T: RegionProperty>(self, value: u64) -> (builder: CreationBuilder<
        'a,
        A,
        D,
        L,
        RegionId,
    >)
        ensures
            *builder.context == *self.builder().context,
            *final(builder.context) == *final(self.builder().context),
            builder.steps() == self.builder().steps().push(
                (CreationStep::SetProperty { column: T::INDEX, value }),
            ),
    ;
}

impl<'a, A: Copy, D, L: LabelFunction> RegionPropertiesCreationBuilder<'a, A, D, L> for CreationBuilder<
    'a,
    A,
    D,
    L,
    RegionId,
> {
    open spec fn builder(self) -> CreationBuilder<'a, A, D, L, RegionId> {
        self
    }

    fn set_region_property<T: RegionProperty>(self, value: u64) -> (builder: CreationBuilder<
        'a,
        A,
        D,
        L,
        RegionId,
    >) {
        let mut builder = self;
        builder.add_callback(CreationStep::SetProperty { column: T::INDEX, value });
        builder
    }
}

impl<'a, A: Copy, D, L: LabelFunction> CreationBuilder<'a, A, D, L, RegionId> {
    /// Creates the region: gives it the next handle and writes its properties. A step that
    /// assigns a region to a person has no meaning here and does nothing.
    pub fn execute(self) -> (region_id: RegionId)
        requires
            old(self.context).wf(),
            old(self.context).regions().count() < usize::MAX,
        ensures
            final(self.context).wf(),
            region_id.id == old(self.context).regions().count(),
            final(self.context).regions().count() == old(self.context).regions().count() + 1,
            final(self.context).regions().store().cells() == cells_after(
                old(self.context).regions().store().cells(),
                self.steps(),
                region_id.id,
            ),
            final(self.context).regions().region_map() == old(self.context).regions().region_map(),
            final(self.context).regions().observers() == old(self.context).regions().observers(),
            Context::changes_only(old(self.context), final(self.context), set![Part::Regions]),
    {
        let context = self.context;
        let ghost start = *context;
        let ghost steps = self.callbacks@;
        let region_id = context.regions.create_region();
        let mut i: usize = 0;
        assert(steps.take(0) =~= Seq::<CreationStep>::empty());
        while i < self.callbacks.len()
            invariant
                i <= self.callbacks.len(),
                steps == self.callbacks@,
                region_id.id < usize::MAX,
                start.wf(),
                context.wf(),
                Context::changes_only(&start, context, set![Part::Regions]),
                context.regions.count() == start.regions.count() + 1,
                context.regions.region_map() == start.regions.region_map(),
                context.regions.observers() == start.regions.observers(),
                context.regions.store().cells() == cells_after(
                    start.regions.store().cells(),
                    steps.take(i as int),
                    region_id.id,
                ),
            decreases self.callbacks.len() - i,
        {
            proof {
                assert(steps.take(i + 1).drop_last() =~= steps.take(i as int));
                assert(steps.take(i + 1).last() == steps[i as int]);
            }
            match self.callbacks[i] {
                CreationStep::SetProperty { column, value } => {
                    context.regions.region_property_container.set_cell(column, region_id.id, value);
                },
                CreationStep::SetRegion(_) => {},
            }
            i += 1;
        }
        assert(steps.take(i as int) =~= steps);
        region_id
    }
}

/// What the builder of a person offers about the person's region.
pub trait RegionsPersonBuilder<'a, A: Copy, D, L: LabelFunction>: Sized {
    /// The builder that this is.
    spec fn builder(self) -> CreationBuilder<'a, A, D, L, PersonId>;

    /// Has the person put into `region_id` before anybody hears of the person. The people
    /// get their regions in the order of their numbers, so `execute` asks that every person
    /// before this one has a region.
    fn set_region(self, region_id: RegionId) -> (builder: CreationBuilder<'a, A, D, L, PersonId>)
        ensures
            *builder.context == *self.builder().context,
            *final(builder.context) == *final(self.builder().context),
            builder.steps() == self.builder().steps().push(CreationStep::SetRegion(region_id)),
    ;
}

impl<'a, A: Copy, D, L: LabelFunction> RegionsPersonBuilder<'a, A, D, L> for CreationBuilder<
    'a,
    A,
    D,
    L,
    PersonId,
> {
    open spec fn builder(self) -> CreationBuilder<'a, A, D, L, PersonId> {
        self
    }

    fn set_region(self, region_id: RegionId) -> (builder: CreationBuilder<'a, A, D, L, PersonId>) {
        let mut builder = self;
        builder.add_callback(CreationStep::SetRegion(region_id));
        builder
    }
}

/// What a context offers about its regions.
pub trait RegionsContext<A: Copy, D, L: LabelFunction> {
    /// The context that this is.
    spec fn context(&self) -> &Context<A, D, L>;

    /// Starts the creation of a region.
    fn add_region(&mut self) -> (builder: CreationBuilder<'_, A, D, L, RegionId>)
        ensures
            *builder.context == *old(self).context(),
            *final(builder.context) == *final(self).context(),
            builder.steps() == Seq::<CreationStep>::empty(),
    ;

    /// The region that was created last, if any was.
    fn get_maximum_region_id(&self) -> (region_id: Option<RegionId>)
        ensures
            match region_id {
                Some(last) => last.id + 1 == self.context().regions().count(),
                None => self.context().regions().count() == 0,
            },
    ;

    /// The region of `person_id`, which has one.
    fn get_person_region(&self, person_id: PersonId) -> (region_id: RegionId)
        requires
            person_id.id < self.context().regions().region_map().len(),
        ensures
            region_id == self.context().regions().region_map()[person_id.id as int],
    ;

    /// Whether `person_id` has a region.
    fn has_person_region(&self, person_id: PersonId) -> (assigned: bool)
        ensures
            assigned == (person_id.id < self.context().regions().region_map().len()),
    ;

    /// Moves `person_id`, which has a region, to `region_id`. The person's cell in
    /// the column of the regions gets the number of the region, and every
    /// partition that is sensitive to that column moves the person before this returns. The
    /// observers of moves are queued behind the callbacks that are due, each with the region
    /// that the person leaves.
    fn set_person_region(&mut self, person_id: PersonId, region_id: RegionId)
        requires
            old(self).context().wf(),
            person_id.id < old(self).context().regions().region_map().len(),
        ensures
            final(self).context().wf(),
            final(self).context().regions().region_map() == old(self).context().regions().region_map().update(
                person_id.id as int,
                region_id,
            ),
            final(self).context().person_properties().store().cells() == old(
                self,
            ).context().person_properties().store().cells().insert(
                (Column::Region, person_id.id),
                region_id.id as u64,
            ),
            final(self).context().person_properties().observers() == old(
                self,
            ).context().person_properties().observers(),
            PartitionDataContainer::same_registrations(
                old(self).context().partitions(),
                final(self).context().partitions(),
            ),
            final(self).context().regions().count() == old(self).context().regions().count(),
            final(self).context().regions().store() == old(self).context().regions().store(),
            final(self).context().regions().observers() == old(self).context().regions().observers(),
            final(self).context().callbacks() == old(self).context().callbacks() + notifications(
                actions_of(old(self).context().regions().observers()),
                Event::PersonRegionChanged(
                    (PersonRegionChangeEvent {
                        person_id,
                        old_region_id: old(self).context().regions().region_map()[person_id.id as int],
                    }),
                ),
            ),
            Context::changes_only(
                old(self).context(),
                final(self).context(),
                set![Part::Regions, Part::PersonProperties, Part::Partitions, Part::Callbacks],
            ),
    ;

    /// The value of property `T` for `region_id`: what was set last, or the default of `T`.
    fn get_region_property_value<T: RegionProperty>(&self, region_id: RegionId) -> (value: u64)
        ensures
            value == self.context().regions().store().value_at::<T>(region_id.id),
    ;

    /// Sets property `T` of `region_id` to `value`.
    fn set_region_property_value<T: RegionProperty>(&mut self, region_id: RegionId, value: u64)
        requires
            old(self).context().wf(),
            region_id.id < usize::MAX,
        ensures
            final(self).context().wf(),
            final(self).context().regions().store().cells() == old(self).context().regions().store().cells().insert(
                (T::INDEX, region_id.id),
                value,
            ),
            final(self).context().regions().count() == old(self).context().regions().count(),
            final(self).context().regions().region_map() == old(self).context().regions().region_map(),
            final(self).context().regions().observers() == old(self).context().regions().observers(),
            Context::changes_only(old(self).context(), final(self).context(), set![Part::Regions]),
    ;

    /// Has `action` queued, with the person and the region that it leaves, whenever a person
    /// moves.
    fn observe_person_region_changes(&mut self, action: A)
        requires
            old(self).context().wf(),
        ensures
            final(self).context().wf(),
            final(self).context().regions().observers() ==
                old(self).context().regions().observers().push((0usize, action)),
            final(self).context().regions().count() == old(self).context().regions().count(),
            final(self).context().regions().region_map() == old(self).context().regions().region_map(),
            final(self).context().regions().store() == old(self).context().regions().store(),
            Context::changes_only(old(self).context(), final(self).context(), set![Part::Regions]),
    ;
}

impl<A: Copy, D, L: LabelFunction> RegionsContext<A, D, L> for Context<A, D, L> {
    open spec fn context(&self) -> &Context<A, D, L> {
        self
    }

    fn add_region(&mut self) -> (builder: CreationBuilder<'_, A, D, L, RegionId>)
    {
        CreationBuilder::new(self)
    }

    fn get_maximum_region_id(&self) -> (region_id: Option<RegionId>)
    {
        self.regions.max_region_id
    }

    fn get_person_region(&self, person_id: PersonId) -> (region_id: RegionId)
    {
        self.regions.region_map[person_id.id]
    }

    fn has_person_region(&self, person_id: PersonId) -> (assigned: bool)
    {
        person_id.id < self.regions.region_map.len()
    }

    fn set_person_region(&mut self, person_id: PersonId, region_id: RegionId)
    {
        let current_region = self.regions.region_map[person_id.id];
        let change_event = PersonRegionChangeEvent { person_id, old_region_id: current_region };
        self.regions.region_map[person_id.id] = region_id;
        self.write_person_cell(Column::Region, person_id, region_id.id as u64);
        let observers = self.regions.observers.all();
        self.notify(&observers, Event::PersonRegionChanged(change_event));
    }

    fn get_region_property_value<T: RegionProperty>(&self, region_id: RegionId) -> (value: u64)
    {
        self.regions.region_property_container.get_value::<T>(region_id.id)
    }

    fn set_region_property_value<T: RegionProperty>(&mut self, region_id: RegionId, value: u64)
    {
        self.regions.region_property_container.set_value::<T>(region_id.id, value);
        assert(self.wf_apart_from_regions());
        assert(self.regions_mirrored());
    }

    fn observe_person_region_changes(&mut self, action: A)
    {
        self.regions.observers.add(0, action);
        assert(self.wf_apart_from_regions());
        assert(self.regions_mirrored());
    }
}

} // verus!
