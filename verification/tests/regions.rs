use simkernel::context::Callback;
use simkernel::context::Component;
use simkernel::context::Context;
use simkernel::context::Event;
use simkernel::context::Plugin;
use simkernel::data_containers::PropertyWithDefault;
use simkernel::data_containers::PersonContainer;
use simkernel::partitions::FirstValue;
use simkernel::partitions::Partition;
use simkernel::partitions::PartitionContext;
use simkernel::partitions::RegionsPartitionBuilder;
use simkernel::people::PeopleContext;
use simkernel::people::PersonId;
use simkernel::person_properties::PersonProperty;
use simkernel::person_properties::PersonPropertyContext;
use simkernel::regions::PersonRegionChangeEvent;
use simkernel::regions::RegionId;
use simkernel::regions::RegionPropertiesCreationBuilder;
use simkernel::regions::RegionProperty;
use simkernel::regions::RegionsContext;
use simkernel::regions::RegionsPersonBuilder;
use simkernel::regions::NO_REGION;

#[derive(Clone, Copy)]
enum Action {
    NoteRegion,
}

type Sim = Context<Action, Option<RegionId>, FirstValue>;

pub struct RegionPropertyA {}
impl PropertyWithDefault for RegionPropertyA {
    const INDEX: usize = 0;
    // the bits of 0.0
    const DEFAULT: u64 = 0;
}
impl RegionProperty for RegionPropertyA {}

#[test]
fn regions_test() {
    let mut context = Sim::new();
    assert_eq!(context.get_maximum_person_id(), None);
    assert_eq!(context.get_maximum_region_id(), None);

    // Add some regions
    let region_zero = context.add_region().execute();
    assert_eq!(context.get_maximum_region_id(), Some(region_zero));
    assert_eq!(
        f64::from_bits(context.get_region_property_value::<RegionPropertyA>(region_zero)),
        0.0
    );
    let my_float: f64 = 43.0 / 7.0;
    let region_one = context
        .add_region()
        .set_region_property::<RegionPropertyA>(my_float.to_bits())
        .execute();
    assert_eq!(
        f64::from_bits(context.get_region_property_value::<RegionPropertyA>(region_one)),
        my_float
    );

    // Add some people
    let new_person = context.add_person().set_region(region_zero).execute().0;
    assert_eq!(context.get_maximum_person_id(), Some(new_person));
    assert_eq!(context.get_person_region(new_person), region_zero);
    let new_person = context.add_person().set_region(region_one).execute().0;
    assert_eq!(context.get_maximum_person_id(), Some(new_person));
    assert_eq!(context.get_person_region(new_person), region_one);
}

struct ComponentOne {}

impl Plugin for ComponentOne {
    type DataContainer = Option<RegionId>;

    const INDEX: usize = 0;

    fn get_data_container() -> Self::DataContainer {
        None
    }
}

impl Component<Action, Option<RegionId>, FirstValue> for ComponentOne {
    fn sets_up(before: &Sim, after: &Sim) -> bool {
        after.next_plan_id() == before.next_plan_id()
    }

    fn init(context: &mut Sim) {
        context.observe_person_region_changes(Action::NoteRegion);
    }
}

fn run(context: &mut Sim, callback: Callback<Action>) {
    match (callback.action, callback.event) {
        (Action::NoteRegion, Event::PersonRegionChanged(event)) => {
            *context.get_data_container_mut::<ComponentOne>() = Some(event.old_region_id);
        }
        _ => unreachable!(),
    }
}

fn execute(context: &mut Sim) {
    while let Some(callback) = context.step() {
        run(context, callback);
    }
}

struct PartitionOneKey {}
impl Partition for PartitionOneKey {
    const INDEX: usize = 0;
}

#[test]
fn test_observe() {
    let mut context = Sim::new();

    context.add_component::<ComponentOne>();
    assert!(context.get_data_container_mut::<ComponentOne>().is_none());

    context
        .add_partition::<PartitionOneKey>()
        .set_label_function(FirstValue)
        .add_region_sensitivity()
        .execute();

    let region_zero = context.add_region().execute();
    let person_id = context.add_person().set_region(region_zero).execute().0;
    execute(&mut context);
    assert!(context.get_data_container_mut::<ComponentOne>().is_none());
    let cell = context.get_partition_cell::<PartitionOneKey>(region_zero.id as u64);
    assert!(cell.is_some());
    assert_eq!(cell.unwrap().len(), 1);
    assert!(cell.unwrap().contains(&person_id));

    let new_region = context.add_region().execute();
    context.set_person_region(person_id, new_region);
    execute(&mut context);
    assert_eq!(
        *context.get_data_container_mut::<ComponentOne>(),
        Some(region_zero)
    );
    let cell = context.get_partition_cell::<PartitionOneKey>(new_region.id as u64);
    assert!(cell.is_some());
    assert_eq!(cell.unwrap().len(), 1);
    assert!(cell.unwrap().contains(&person_id));

    context.set_person_region(person_id, region_zero);
    execute(&mut context);
    assert_eq!(
        *context.get_data_container_mut::<ComponentOne>(),
        Some(new_region)
    );
    let cell = context.get_partition_cell::<PartitionOneKey>(region_zero.id as u64);
    assert!(cell.is_some());
    assert_eq!(cell.unwrap().len(), 1);
    assert!(cell.unwrap().contains(&person_id));
    // nobody is in the region that the person left
    assert!(context
        .get_partition_cell::<PartitionOneKey>(new_region.id as u64)
        .is_none());
}

#[test]
fn person_without_region_is_filed_under_no_region() {
    let mut context = Sim::new();
    context
        .add_partition::<PartitionOneKey>()
        .set_label_function(FirstValue)
        .add_region_sensitivity()
        .execute();
    let region = context.add_region().execute();
    let with_region = context.add_person().set_region(region).execute().0;
    let without = context.add_person().execute().0;
    assert_eq!(context.get_partition_label::<PartitionOneKey>(with_region), 0);
    assert_eq!(context.get_partition_label::<PartitionOneKey>(without), NO_REGION);
    assert!(context.get_partition_cell::<PartitionOneKey>(NO_REGION).unwrap().contains(&without));
}

#[test]
fn region_changes_are_deferred() {
    let mut context = Sim::new();
    context.observe_person_region_changes(Action::NoteRegion);
    let home = context.add_region().execute();
    let away = context.add_region().execute();
    assert_eq!((home, away), (RegionId::new(0), RegionId { id: 1 }));
    let person = context.add_person().set_region(away).execute().0;
    assert!(context.has_person_region(person));
    assert!(!context.has_person_region(PersonId::new(1)));
    context.set_person_region(person, home);
    // the move is made at once, the observers wait
    assert_eq!(context.get_person_region(person), home);
    let callback = context.step().unwrap();
    match callback.event {
        Event::PersonRegionChanged(event) => assert_eq!(
            event,
            PersonRegionChangeEvent {
                person_id: person,
                old_region_id: away
            }
        ),
        _ => unreachable!(),
    }
    assert!(context.step().is_none());
    context.set_region_property_value::<RegionPropertyA>(away, 12);
    assert_eq!(context.get_region_property_value::<RegionPropertyA>(away), 12);
    assert_eq!(context.get_region_property_value::<RegionPropertyA>(home), 0);
}

struct LastColumn {}
impl PropertyWithDefault for LastColumn {
    const INDEX: usize = usize::MAX;
    const DEFAULT: u64 = 4;
}
impl PersonProperty for LastColumn {}

#[test]
fn no_property_column_is_taken_by_the_regions() {
    let mut context = Sim::new();
    context
        .add_partition::<PartitionOneKey>()
        .set_label_function(FirstValue)
        .add_region_sensitivity()
        .execute();
    let home = context.add_region().execute();
    let away = context.add_region().execute();
    let person = context.add_person().set_region(away).execute().0;
    assert_eq!(context.get_person_property_value::<LastColumn>(person), 4);
    context.set_person_property_value::<LastColumn>(person, 0);
    // the write to the last property column moves nobody between regions
    assert_eq!(context.get_person_region(person), away);
    assert_eq!(context.get_partition_label::<PartitionOneKey>(person), away.id as u64);
    context.set_person_region(person, home);
    assert_eq!(context.get_person_property_value::<LastColumn>(person), 0);
    assert_eq!(context.get_partition_label::<PartitionOneKey>(person), home.id as u64);
}
