use simkernel::context::Context;
use simkernel::data_containers::PersonContainer;
use simkernel::groups::GroupId;
use simkernel::groups::GroupType;
use simkernel::groups::GroupsContext;
use simkernel::partitions::FirstValue;
use simkernel::people::PersonId;

type Sim = Context<(), (), FirstValue>;

#[derive(Eq, PartialEq, Hash)]
struct GroupTypeOne {}
impl GroupType for GroupTypeOne {
    const INDEX: usize = 0;
}

#[derive(Eq, PartialEq, Hash)]
struct GroupTypeTwo {}
impl GroupType for GroupTypeTwo {
    const INDEX: usize = 1;
}

#[test]
fn groups_test() {
    let mut context = Sim::new();
    // Should be no groups of either type
    assert!(context.get_maximum_group_id::<GroupTypeOne>().is_none());
    assert!(context.get_maximum_group_id::<GroupTypeTwo>().is_none());

    // Add a group of type one
    let group_type_one_id = context.add_group::<GroupTypeOne>();
    match context.get_maximum_group_id::<GroupTypeOne>() {
        None => panic!("Error"),
        Some(group_id) => {
            assert!(group_type_one_id.eq(&group_id))
        }
    }
    assert!(context.get_maximum_group_id::<GroupTypeTwo>().is_none());
    // Add some people to the first group
    context.add_person_to_group(PersonId::new(0), group_type_one_id);
    context.add_person_to_group(PersonId::new(2), group_type_one_id);
    context.add_person_to_group(PersonId::new(3), group_type_one_id);
    let group_type_one_members = context.get_group_members(group_type_one_id);
    match group_type_one_members {
        None => panic!("Error"),
        Some(members) => {
            assert_eq!(members.len(), 3);
            assert!(members.contains(&PersonId::new(0)));
            assert!(members.contains(&PersonId::new(2)));
            assert!(members.contains(&PersonId::new(3)));
        }
    }
    // Check people's group memberships
    let group_ids = context.get_groups_for_person::<GroupTypeOne>(PersonId::new(0));
    assert_eq!(group_ids.len(), 1);
    assert!(group_ids.contains(&group_type_one_id));
    let group_ids = context.get_groups_for_person::<GroupTypeOne>(PersonId::new(1));
    assert_eq!(group_ids.len(), 0);
    let group_ids = context.get_groups_for_person::<GroupTypeOne>(PersonId::new(2));
    assert_eq!(group_ids.len(), 1);
    assert!(group_ids.contains(&group_type_one_id));
    let group_ids = context.get_groups_for_person::<GroupTypeOne>(PersonId::new(3));
    assert_eq!(group_ids.len(), 1);
    assert!(group_ids.contains(&group_type_one_id));

    // Add a group of type two
    context.add_group::<GroupTypeTwo>();
    let group_type_two_id = context.add_group::<GroupTypeTwo>();
    match context.get_maximum_group_id::<GroupTypeTwo>() {
        None => panic!("Error"),
        Some(group_id) => {
            assert!(group_type_two_id.eq(&group_id))
        }
    }
    // Add some people to the second group
    context.add_person_to_group(PersonId::new(1), group_type_two_id);
    context.add_person_to_group(PersonId::new(2), group_type_two_id);
    let group_type_two_members = context.get_group_members(group_type_two_id);
    match group_type_two_members {
        None => panic!("Error"),
        Some(members) => {
            assert_eq!(members.len(), 2);
            assert!(members.contains(&PersonId::new(1)));
            assert!(members.contains(&PersonId::new(2)));
        }
    }
    // Check people's group memberships
    let group_ids = context.get_groups_for_person::<GroupTypeTwo>(PersonId::new(0));
    assert_eq!(group_ids.len(), 0);
    let group_ids = context.get_groups_for_person::<GroupTypeTwo>(PersonId::new(1));
    assert_eq!(group_ids.len(), 1);
    assert!(group_ids.contains(&group_type_two_id));
    let group_ids = context.get_groups_for_person::<GroupTypeTwo>(PersonId::new(2));
    assert_eq!(group_ids.len(), 1);
    assert!(group_ids.contains(&group_type_two_id));
    let group_ids = context.get_groups_for_person::<GroupTypeTwo>(PersonId::new(3));
    assert_eq!(group_ids.len(), 0);
}

#[test]
fn membership_is_kept_in_both_directions() {
    let mut context = Sim::new();
    assert!(!context.has_group_members::<GroupTypeOne>());
    let first = context.add_group::<GroupTypeOne>();
    let second = context.add_group::<GroupTypeOne>();
    let third = context.add_group::<GroupTypeOne>();
    assert_eq!((first.id, second.id, third.id), (0, 1, 2));
    let person = PersonId::new(4);
    context.add_person_to_group(person, second);
    // putting a member in again changes nothing
    context.add_person_to_group(person, second);
    context.add_person_to_group(person, first);
    assert!(context.has_group_members::<GroupTypeOne>());
    assert!(!context.has_group_members::<GroupTypeTwo>());
    assert_eq!(context.get_group_members(second).unwrap().len(), 1);
    assert_eq!(context.get_group_members(first).unwrap().to_vec(), vec![person]);
    // nobody was put into the third group or a later one
    assert!(context.get_group_members(third).is_none());
    assert!(context.get_group_members(GroupId::<GroupTypeOne>::new(9)).is_none());
    let mut groups: Vec<usize> = context
        .get_groups_for_person::<GroupTypeOne>(person)
        .iter()
        .map(|group_id| group_id.id)
        .collect();
    groups.sort();
    assert_eq!(groups, vec![0, 1]);
    assert!(context.get_groups_for_person::<GroupTypeTwo>(person).is_empty());
    assert!(context.get_groups_for_person::<GroupTypeOne>(PersonId::new(40)).is_empty());
}
