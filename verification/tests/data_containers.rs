use simkernel::data_containers::heterogeneous_container::HeterogeneousContainer;
use simkernel::data_containers::vector_heterogeneous_container::VecDataContainer;
use simkernel::data_containers::Property;
use simkernel::data_containers::PropertyWithDefault;

#[derive(Debug, PartialEq, Clone, Copy)]
enum Value {
    Count(usize),
    Flag(bool),
}

struct SlotOne {}
impl Property for SlotOne {
    const INDEX: usize = 0;
}

struct SlotTwo {}
impl Property for SlotTwo {
    const INDEX: usize = 1;
}

#[test]
fn test_container() {
    let mut container = HeterogeneousContainer::new();

    container.set_value::<SlotOne>(Value::Count(1));
    assert_eq!(*container.get_value::<SlotOne>().unwrap(), Value::Count(1));
    assert_eq!(container.get_value::<SlotTwo>(), None);

    container.set_value::<SlotTwo>(Value::Flag(false));
    assert_eq!(*container.get_value::<SlotOne>().unwrap(), Value::Count(1));
    assert_eq!(*container.get_value::<SlotTwo>().unwrap(), Value::Flag(false));

    container.set_value::<SlotOne>(Value::Count(2));
    assert_eq!(*container.get_value::<SlotOne>().unwrap(), Value::Count(2));
}

struct KeyOne {}
impl PropertyWithDefault for KeyOne {
    const INDEX: usize = 0;
    const DEFAULT: u64 = 0;
}

struct KeyTwo {}
impl PropertyWithDefault for KeyTwo {
    const INDEX: usize = 1;
    const DEFAULT: u64 = false as u64;
}

#[test]
fn vector_heterogeneous_container_test() {
    let mut container = VecDataContainer::new();

    assert_eq!(container.get_value::<KeyOne>(0), 0);
    assert_eq!(container.get_value::<KeyTwo>(0), false as u64);

    container.set_value::<KeyOne>(2, 2);
    assert_eq!(container.get_value::<KeyOne>(0), 0);
    assert_eq!(container.get_value::<KeyOne>(1), 0);
    assert_eq!(container.get_value::<KeyOne>(2), 2);
    assert_eq!(container.get_value::<KeyOne>(3), 0);

    container.set_value::<KeyTwo>(2, true as u64);
    assert_eq!(container.get_value::<KeyTwo>(0), false as u64);
    assert_eq!(container.get_value::<KeyTwo>(1), false as u64);
    assert_eq!(container.get_value::<KeyTwo>(2), true as u64);
    assert_eq!(container.get_value::<KeyTwo>(3), false as u64);

    container.set_value::<KeyOne>(1, 3);
    assert_eq!(container.get_value::<KeyOne>(1), 3);
}

use rand::rngs::StdRng;
use rand::SeedableRng;
use simkernel::data_containers::indexset_person_container::IndexSetPersonContainer;
use simkernel::data_containers::person_container;
use simkernel::data_containers::vector_person_container::VecPersonContainer;
use simkernel::data_containers::PersonContainer;
use simkernel::people::PersonId;

fn test_add_remove_sample(container: &mut impl PersonContainer) {
    let mut rng = StdRng::seed_from_u64(8675309);
    for i in 0..4 {
        container.insert(PersonId::new(i));
    }

    assert_eq!(container.len(), 4);
    let sample = container.get_random(&mut rng).unwrap().id;
    assert!(sample <= 3);

    container.remove(&PersonId::new(0));
    assert_eq!(container.len(), 3);
    let sample = container.get_random(&mut rng).unwrap().id;
    assert!((1..=3).contains(&sample));

    container.remove(&PersonId::new(2));
    assert_eq!(container.len(), 2);
    let sample = container.get_random(&mut rng).unwrap().id;
    assert!((sample == 1) | (sample == 3));

    container.insert(PersonId::new(0));
    assert_eq!(container.len(), 3);
    let sample = container.get_random(&mut rng).unwrap().id;
    assert!((sample <= 1) | (sample == 3));

    container.remove(&PersonId::new(0));
    assert_eq!(container.len(), 2);
    let sample = container.get_random(&mut rng).unwrap().id;
    assert!((sample == 1) | (sample == 3));

    container.remove(&PersonId::new(3));
    assert_eq!(container.len(), 1);
    let sample = container.get_random(&mut rng).unwrap().id;
    assert_eq!(sample, 1);

    container.remove(&PersonId::new(1));
    assert_eq!(container.len(), 0);
    assert!(container.get_random(&mut rng).is_none());
}

#[test]
fn indexset_person_container_new_remove_sample() {
    let mut container = IndexSetPersonContainer::new();
    test_add_remove_sample(&mut container);
}

#[test]
fn vector_person_container_new_remove_sample() {
    let mut container = VecPersonContainer::new();
    test_add_remove_sample(&mut container);
}

#[test]
fn person_container_new_remove_sample() {
    let mut container = person_container::PersonContainer::new();
    let mut rng = StdRng::seed_from_u64(8675309);
    for i in 0..4 {
        container.insert(PersonId::new(i));
    }

    assert_eq!(container.len(), 4);
    let sample = container.get_random(&mut rng).unwrap().id;
    assert!(sample <= 3);

    container.remove(&PersonId::new(0));
    assert_eq!(container.len(), 3);
    let sample = container.get_random(&mut rng).unwrap().id;
    assert!((1 <= sample) & (sample <= 3));

    container.remove(&PersonId::new(2));
    assert_eq!(container.len(), 2);
    let sample = container.get_random(&mut rng).unwrap().id;
    assert!((sample == 1) | (sample == 3));

    container.remove(&PersonId::new(3));
    assert_eq!(container.len(), 1);
    let sample = container.get_random(&mut rng).unwrap().id;
    assert_eq!(sample, 1);

    container.remove(&PersonId::new(1));
    assert_eq!(container.len(), 0);
    assert!(container.get_random(&mut rng).is_none());
}

#[test]
fn index_set_keeps_order_and_swaps_on_removal() {
    let mut container = person_container::PersonContainer::with_capacity(8);
    assert!(container.is_empty());
    for i in [5, 6, 7, 8] {
        container.insert(PersonId::new(i));
    }
    // a second insertion of a member changes nothing
    container.insert(PersonId::new(6));
    assert_eq!(container.len(), 4);
    assert!(!container.is_empty());
    assert_eq!(container.get_nth(0), PersonId::new(5));
    assert_eq!(container.get_nth(1), PersonId::new(6));
    assert_eq!(container.get_nth(3), PersonId::new(8));
    assert!(container.contains(&PersonId::new(7)));
    assert!(!container.contains(&PersonId::new(9)));
    // the last member takes the place of the one that leaves
    container.remove(&PersonId::new(6));
    assert_eq!(container.len(), 3);
    assert_eq!(container.get_nth(0), PersonId::new(5));
    assert_eq!(container.get_nth(1), PersonId::new(8));
    assert_eq!(container.get_nth(2), PersonId::new(7));
    assert!(!container.contains(&PersonId::new(6)));
    // the removal of somebody who is no member changes nothing
    container.remove(&PersonId::new(6));
    assert_eq!(container.len(), 3);

    let mut other = IndexSetPersonContainer::with_capacity(2);
    other.insert(PersonId::new(3));
    other.insert(PersonId::new(4));
    other.remove(&PersonId::new(3));
    assert_eq!(other.get_nth(0), PersonId::new(4));
    assert_eq!(IndexSetPersonContainer::default().len(), 0);
}

#[test]
fn vec_container_cleans_its_list() {
    let mut container = VecPersonContainer::default();
    for i in 0..10 {
        container.insert(PersonId::new(i));
    }
    assert_eq!(container.to_vec().len(), 10);
    for i in 0..4 {
        container.remove(&PersonId::new(i));
    }
    assert_eq!(container.len(), 6);
    assert_eq!(
        container.to_vec(),
        (4..10).map(PersonId::new).collect::<Vec<PersonId>>()
    );
    let mut walk = container.iter();
    let mut walked = Vec::new();
    while let Some(person_id) = walk.next() {
        walked.push(person_id.id);
    }
    assert_eq!(walked, vec![4, 5, 6, 7, 8, 9]);
    assert!(walk.next().is_none());
    // the fifth removal makes the notes half of the list: the list is cleaned
    container.remove(&PersonId::new(4));
    assert_eq!(container.len(), 5);
    assert!(!container.contains(&PersonId::new(4)));
    assert!(container.contains(&PersonId::new(5)));
    // nobody is noted any more, so this goes to the end of the list
    container.insert(PersonId::new(0));
    assert_eq!(
        container.to_vec(),
        [5, 6, 7, 8, 9, 0].map(PersonId::new).to_vec()
    );
    let mut rng = StdRng::seed_from_u64(1);
    for _ in 0..20 {
        let sample = container.get_random(&mut rng).unwrap();
        assert!(container.contains(&sample));
    }
}

#[test]
fn shared_value_is_the_value() {
    let mut container = HeterogeneousContainer::default();
    assert!(container.get_rc_value::<SlotTwo>().is_none());
    container.set_value::<SlotTwo>(Value::Count(41));
    let shared = container.get_rc_value::<SlotTwo>().unwrap();
    container.set_value::<SlotTwo>(Value::Count(42));
    assert_eq!(*shared, Value::Count(41));
    assert_eq!(*container.get_rc_value::<SlotTwo>().unwrap(), Value::Count(42));
    assert!(container.get_rc_value::<SlotOne>().is_none());
    assert!(container.get_value::<SlotOne>().is_none());
}

#[test]
fn cells_read_as_the_default_of_the_key() {
    let mut container = VecDataContainer::default();
    container.set_cell(4, 1, 9);
    assert_eq!(container.get_cell(4, 77, 0), 77);
    assert_eq!(container.get_cell(4, 77, 1), 9);
    assert_eq!(container.get_cell(4, 77, 2), 77);
    assert_eq!(container.get_cell(5, 3, 1), 3);
}
