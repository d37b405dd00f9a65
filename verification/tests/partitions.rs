use rand::rngs::StdRng;
use rand::Rng;
use rand::SeedableRng;
use simkernel::context::Context;
use simkernel::data_containers::PersonContainer;
use simkernel::data_containers::PropertyWithDefault;
use simkernel::partitions::FirstValue;
use simkernel::partitions::LabelFunction;
use simkernel::partitions::Partition;
use simkernel::partitions::PartitionContext;
use simkernel::people::PeopleContext;
use simkernel::people::PersonId;
use simkernel::person_properties::PersonPropertiesPersonBuilder;
use simkernel::person_properties::PersonProperty;
use simkernel::person_properties::PersonPropertyContext;
use simkernel::person_properties::PersonPropertyPartitionBuilder;
use std::collections::HashSet;

struct PropertyOne {}
impl PropertyWithDefault for PropertyOne {
    const INDEX: usize = 0;
    const DEFAULT: u64 = 0;
}
impl PersonProperty for PropertyOne {}

struct PropertyTwo {}
impl PropertyWithDefault for PropertyTwo {
    const INDEX: usize = 1;
    const DEFAULT: u64 = false as u64;
}
impl PersonProperty for PropertyTwo {}

struct PartitionOne {}
impl Partition for PartitionOne {
    const INDEX: usize = 0;
}

/// The label of the pair (property one, property two).
struct PairLabel;

impl LabelFunction for PairLabel {
    fn label_spec(&self, values: &[u64]) -> u64 {
        values[0] * 2 + values[1]
    }

    fn label(&self, values: &[u64]) -> u64 {
        self.label_spec(values)
    }
}

fn pair(one: u8, two: bool) -> u64 {
    (one as u64) * 2 + (two as u64)
}

type Sim = Context<(), (), PairLabel>;

#[test]
fn partitions_test() {
    let mut context = Sim::new();
    let population = 10000;
    let n_to_change_properties = 1000;

    // Add a partition on PropertyOne
    context
        .add_partition::<PartitionOne>()
        .set_label_function(PairLabel)
        .add_person_property_sensitivity::<PropertyOne>()
        .add_person_property_sensitivity::<PropertyTwo>()
        .execute();

    for _ in 0..population {
        context.add_person().execute().0;
    }

    let zero_false_value_people = context
        .get_partition_cell::<PartitionOne>(pair(0, false))
        .unwrap();
    assert_eq!(zero_false_value_people.len(), population);

    let mut people_to_change = HashSet::new();
    let mut rng = StdRng::seed_from_u64(8675309);
    loop {
        people_to_change.insert(PersonId::new(rng.gen_range(0..population)));
        if people_to_change.len() == n_to_change_properties {
            break;
        }
    }

    for person_id in &people_to_change {
        // Change one property or the other
        if rng.gen_bool(0.5) {
            context.set_person_property_value::<PropertyOne>(*person_id, 1);
        } else {
            context.set_person_property_value::<PropertyTwo>(*person_id, true as u64);
        }
    }

    let zero_false_value_people = context
        .get_partition_cell::<PartitionOne>(pair(0, false))
        .unwrap();
    assert_eq!(
        zero_false_value_people.len(),
        population - n_to_change_properties
    );
    assert!(context
        .get_partition_cell::<PartitionOne>(pair(1, true))
        .is_none());
    let one_false_value_people = context
        .get_partition_cell::<PartitionOne>(pair(1, false))
        .unwrap();
    let zero_true_value_people = context
        .get_partition_cell::<PartitionOne>(pair(0, true))
        .unwrap();
    for person_id in &people_to_change {
        assert!(!zero_false_value_people.contains(person_id));
        assert!(
            one_false_value_people.contains(person_id)
                ^ zero_true_value_people.contains(person_id)
        );
    }
    assert_eq!(
        one_false_value_people.len() + zero_true_value_people.len(),
        n_to_change_properties
    );

    context.remove_partition::<PartitionOne>();
    assert!(!context.has_partition::<PartitionOne>());
}

#[test]
fn query_of_an_unused_label_is_none() {
    let mut context = Sim::new();
    context
        .add_partition::<PartitionOne>()
        .set_label_function(PairLabel)
        .add_person_property_sensitivity::<PropertyOne>()
        .add_person_property_sensitivity::<PropertyTwo>()
        .execute();
    assert!(context.get_partition_cell::<PartitionOne>(pair(0, false)).is_none());
    let person = context.add_person().execute().0;
    assert!(context.get_partition_cell::<PartitionOne>(pair(7, true)).is_none());
    context.set_person_property_value::<PropertyOne>(person, 7);
    // nobody has the label that the person left
    assert!(context.get_partition_cell::<PartitionOne>(pair(0, false)).is_none());
    let now = context.get_partition_cell::<PartitionOne>(pair(7, false)).unwrap();
    assert_eq!(now.len(), 1);
    assert_eq!(now.get_nth(0), person);
    assert_eq!(context.get_partition_label::<PartitionOne>(person), pair(7, false));
}

#[test]
fn every_person_is_in_exactly_one_bucket() {
    let mut context = Sim::new();
    for _ in 0..5 {
        context.add_person().execute().0;
    }
    context.set_person_property_value::<PropertyOne>(PersonId::new(1), 1);
    context.set_person_property_value::<PropertyTwo>(PersonId::new(2), 1);
    // registration files the people that exist, on the values as they are
    context
        .add_partition::<PartitionOne>()
        .set_label_function(PairLabel)
        .add_person_property_sensitivity::<PropertyOne>()
        .add_person_property_sensitivity::<PropertyTwo>()
        .execute();
    context.add_person().set_person_property::<PropertyOne>(1).execute().0;
    context.set_person_property_value::<PropertyTwo>(PersonId::new(1), 1);
    context.set_person_property_value::<PropertyTwo>(PersonId::new(1), 1);
    context.set_person_property_value::<PropertyOne>(PersonId::new(4), 0);
    let labels = [pair(0, false), pair(0, true), pair(1, false), pair(1, true)];
    for id in 0..6 {
        let person = PersonId::new(id);
        let expected = context.get_partition_label::<PartitionOne>(person);
        let mut found = 0;
        for label in labels {
            if let Some(cell) = context.get_partition_cell::<PartitionOne>(label) {
                if cell.contains(&person) {
                    found += 1;
                    assert_eq!(label, expected);
                }
            }
        }
        assert_eq!(found, 1);
    }
    assert_eq!(context.get_partition_cell::<PartitionOne>(pair(0, false)).unwrap().len(), 3);
    assert_eq!(context.get_partition_cell::<PartitionOne>(pair(0, true)).unwrap().len(), 1);
    assert_eq!(context.get_partition_cell::<PartitionOne>(pair(1, false)).unwrap().len(), 1);
    assert_eq!(context.get_partition_cell::<PartitionOne>(pair(1, true)).unwrap().len(), 1);
}

struct PartitionTwo {}
impl Partition for PartitionTwo {
    const INDEX: usize = 3;
}

#[test]
fn deregistered_partition_is_rebuilt_from_current_state() {
    let mut context = Sim::new();
    context
        .add_partition::<PartitionOne>()
        .set_label_function(PairLabel)
        .add_person_property_sensitivity::<PropertyOne>()
        .add_person_property_sensitivity::<PropertyTwo>()
        .execute();
    context
        .add_partition::<PartitionTwo>()
        .set_label_function(PairLabel)
        .add_person_property_sensitivity::<PropertyTwo>()
        .add_person_property_sensitivity::<PropertyOne>()
        .execute();
    let person = context.add_person().execute().0;
    context.remove_partition::<PartitionOne>();
    assert!(!context.has_partition::<PartitionOne>());
    assert!(context.has_partition::<PartitionTwo>());
    // the other partition goes on
    context.set_person_property_value::<PropertyOne>(person, 1);
    assert_eq!(context.get_partition_label::<PartitionTwo>(person), 1);
    assert!(context.get_partition_cell::<PartitionTwo>(1).unwrap().contains(&person));
    assert!(context.get_partition_cell::<PartitionTwo>(0).is_none());
    // a new registration under the old key starts from what holds now
    context
        .add_partition::<PartitionOne>()
        .set_label_function(PairLabel)
        .add_person_property_sensitivity::<PropertyOne>()
        .add_person_property_sensitivity::<PropertyTwo>()
        .execute();
    assert!(context.get_partition_cell::<PartitionOne>(pair(0, false)).is_none());
    let cell = context.get_partition_cell::<PartitionOne>(pair(1, false)).unwrap();
    assert_eq!(cell.len(), 1);
    assert!(cell.contains(&person));
}

struct ByPropertyOne {}
impl Partition for ByPropertyOne {
    const INDEX: usize = 1;
}

#[test]
fn first_value_labels_by_one_property() {
    assert_eq!(FirstValue.label(&[]), 0);
    assert_eq!(FirstValue.label(&[4, 9]), 4);
    let mut context: Context<(), (), FirstValue> = Context::new();
    context
        .add_partition::<ByPropertyOne>()
        .set_label_function(FirstValue)
        .add_person_property_sensitivity::<PropertyOne>()
        .execute();
    let first = context.add_person().execute().0;
    let second = context.add_person().set_person_property::<PropertyOne>(3).execute().0;
    assert!(context.has_sensitive_partition::<PropertyOne>());
    assert!(!context.has_sensitive_partition::<PropertyTwo>());
    // a write to a property that the partition does not read moves nobody
    context.set_person_property_value::<PropertyTwo>(first, 1);
    assert_eq!(context.get_partition_cell::<ByPropertyOne>(0).unwrap().get_nth(0), first);
    assert_eq!(context.get_partition_cell::<ByPropertyOne>(3).unwrap().get_nth(0), second);
    assert!(context.get_partition_cell::<ByPropertyOne>(1).is_none());
}

#[test]
fn callbacks_of_registration_are_handed_out() {
    let mut context: Context<u8, (), PairLabel> = Context::new();
    let mut builder = context
        .add_partition::<PartitionOne>()
        .set_label_function(PairLabel)
        .add_person_property_sensitivity::<PropertyOne>()
        .add_person_property_sensitivity::<PropertyTwo>();
    builder.add_registration_callback(1);
    builder.add_deregistration_callback(2);
    builder.add_registration_callback(3);
    builder.add_deregistration_callback(4);
    let due: Vec<u8> = builder.execute().iter().map(|callback| callback.action).collect();
    assert_eq!(due, vec![1, 3]);
    // nothing was queued: the callbacks are for the registrant to run
    assert!(context.step().is_none());
    // a second registration under the key takes the place of the first, callbacks and all
    let mut builder = context
        .add_partition::<PartitionOne>()
        .set_label_function(PairLabel)
        .add_person_property_sensitivity::<PropertyOne>()
        .add_person_property_sensitivity::<PropertyTwo>();
    builder.add_deregistration_callback(5);
    assert!(builder.execute().is_empty());
    let mut other = context.add_partition::<PartitionTwo>().set_label_function(PairLabel);
    other.add_deregistration_callback(6);
    other.execute();
    let due: Vec<u8> = context
        .remove_partition::<PartitionOne>()
        .iter()
        .map(|callback| callback.action)
        .collect();
    assert_eq!(due, vec![5]);
    let due: Vec<u8> = context
        .remove_partition::<PartitionTwo>()
        .iter()
        .map(|callback| callback.action)
        .collect();
    assert_eq!(due, vec![6]);
}
