use crate::context::Context;
use crate::context::Part;
use crate::data_containers::vector_person_container::VecPersonContainer;
use crate::data_containers::PersonContainer;
use crate::data_containers::PropertyWithDefault;
use crate::partitions::LabelFunction;
use crate::people::PersonId;
use std::collections::HashMap;
use std::marker::PhantomData;
use tinyset::SetUsize;
use vstd::prelude::*;

verus! {

/// A kind of group: a type that stands for one slot of the group registry.
pub trait GroupType {
    /// The slot of this kind. Two kinds of one context must not share a slot.
    const INDEX: usize;
}

/// A property of the groups of one kind.
pub trait GroupProperty: PropertyWithDefault {
    type Group: GroupType;
}

/// Handle of a group of kind `T`: its number in the order of creation, from zero.
#[derive(PartialEq, Eq, Hash, PartialOrd, Ord)]
pub struct GroupId<T: GroupType> {
    pub id: usize,
    pub group_type: PhantomData<T>,
}

impl<T: GroupType> Clone for GroupId<T> {
    fn clone(&self) -> (copy: Self)
        ensures
            copy == *self,
    {
        GroupId { id: self.id, group_type: PhantomData }
    }
}

impl<T: GroupType> Copy for GroupId<T> {

}

impl<T: GroupType> GroupId<T> {
    pub fn new(id: usize) -> (group_id: GroupId<T>)
        ensures
            group_id.id == id,
    {
        GroupId { id, group_type: PhantomData }
    }
}

/// tinyset's `SetUsize`. Of its inside only what the wrappers below say is known.
#[verifier::external_type_specification]
#[verifier::external_body]
pub struct ExSetUsize(SetUsize);

/// The numbers that a compact set holds.
pub uninterp spec fn set_usize_items(set: SetUsize) -> Set<usize>;

/// tinyset's `SetUsize::new`: a set without items.
#[verifier::external_body]
fn set_usize_new() -> (set: SetUsize)
    ensures
        set_usize_items(set) == Set::<usize>::empty(),
{
    SetUsize::new()
}

/// tinyset's `SetUsize::insert`: the set holds `item` afterwards, and the call returns
/// whether it lacked `item` before.
#[verifier::external_body]
fn set_usize_insert(set: &mut SetUsize, item: usize) -> (added: bool)
    ensures
        added == !set_usize_items(*old(set)).contains(item),
        set_usize_items(*final(set)) == set_usize_items(*old(set)).insert(item),
{
    set.insert(item)
}

/// tinyset's `SetUsize::iter`, collected: each item of the set once, in the order in which
/// the set hands them out.
#[verifier::external_body]
fn set_usize_to_vec(set: &SetUsize) -> (items: Vec<usize>)
    ensures
        items@.no_duplicates(),
        items@.to_set() == set_usize_items(*set),
{
    set.iter().collect()
}

/// The groups: for each kind the last group that was created, and who is in which group,
/// kept both by group and by person.
pub struct GroupsDataContainer {
    pub(crate) max_group_id: HashMap<usize, usize>,
    pub(crate) person_to_group_map: HashMap<usize, Vec<SetUsize>>,
    pub(crate) group_to_person_map: HashMap<usize, Vec<VecPersonContainer>>,
}

impl GroupsDataContainer {
    /// The number of the last group of the kind in `slot`, if one was created.
    pub open(crate) spec fn max_id(&self, slot: usize) -> Option<usize> {
        if self.max_group_id@.contains_key(slot) {
            Some(self.max_group_id@[slot])
        } else {
            None
        }
    }

    /// Whether anybody was ever put into a group of the kind in `slot`.
    pub open(crate) spec fn has_members(&self, slot: usize) -> bool {
        self.group_to_person_map@.contains_key(slot)
    }

    /// How many groups of the kind in `slot` have a list of members, empty or not.
    pub open(crate) spec fn listed(&self, slot: usize) -> nat {
        if self.has_members(slot) {
            self.group_to_person_map@[slot].len() as nat
        } else {
            0
        }
    }

    /// The members of group `group` of the kind in `slot`.
    pub open(crate) spec fn members(&self, slot: usize, group: usize) -> Set<PersonId> {
        if group < self.listed(slot) {
            self.group_to_person_map@[slot][group as int].members()
        } else {
            Set::empty()
        }
    }

    /// The groups of the kind in `slot` that the person with number `person` is in.
    pub open(crate) spec fn groups_of(&self, slot: usize, person: usize) -> Set<usize> {
        if self.person_to_group_map@.contains_key(slot) && person < self.person_to_group_map@[slot].len() {
            set_usize_items(self.person_to_group_map@[slot][person as int])
        } else {
            Set::empty()
        }
    }

    /// Every list of members is in order, and a person is among the members of a group
    /// exactly if the group is among the groups of the person.
    pub open(crate) spec fn wf(&self) -> bool {
        &&& forall|slot: usize, group: usize|
            group < self.listed(slot) ==> (#[trigger] self.group_to_person_map@[slot][group as int]).wf()
        &&& forall|slot: usize, group: usize, person: usize| #[trigger]
            self.members(slot, group).contains(PersonId { id: person }) <==> self.groups_of(slot, person).contains(
                group,
            )
    }

    /// Who is in which group is in `after` as it is in `before`.
    pub open spec fn same_memberships(before: &Self, after: &Self) -> bool {
        &&& forall|slot: usize| after.has_members(slot) == before.has_members(slot)
        &&& forall|slot: usize| after.listed(slot) == before.listed(slot)
        &&& forall|slot: usize, group: usize| after.members(slot, group) == before.members(slot, group)
        &&& forall|slot: usize, person: usize| after.groups_of(slot, person) == before.groups_of(slot, person)
    }

    pub fn new() -> (groups: GroupsDataContainer)
        ensures
            groups.wf(),
            forall|slot: usize| groups.max_id(slot) is None,
            forall|slot: usize| !groups.has_members(slot),
            forall|slot: usize, group: usize| groups.members(slot, group) == Set::<PersonId>::empty(),
            forall|slot: usize, person: usize| groups.groups_of(slot, person) == Set::<usize>::empty(),
    {
        GroupsDataContainer {
            max_group_id: HashMap::new(),
            person_to_group_map: HashMap::new(),
            group_to_person_map: HashMap::new(),
        }
    }

    /// Gives the next group of the kind in `slot` its number.
    pub fn add_group(&mut self, slot: usize) -> (id: usize)
        requires
            old(self).wf(),
            old(self).max_id(slot) != Some(usize::MAX),
        ensures
            final(self).wf(),
            id == match old(self).max_id(slot) {
                Some(last) => last + 1,
                None => 0,
            },
            final(self).max_id(slot) == Some(id),
            forall|other: usize| other != slot ==> final(self).max_id(other) == old(self).max_id(other),
            Self::same_memberships(old(self), final(self)),
    {
        let id = match self.max_group_id.get(&slot) {
            None => 0,
            Some(max_group_id) => *max_group_id + 1,
        };
        self.max_group_id.insert(slot, id);
        proof {
            assert forall|s: usize, g: usize, p: usize| #[trigger]
                self.members(s, g).contains(PersonId { id: p }) <==> self.groups_of(s, p).contains(g) by {
                assert(old(self).members(s, g).contains(PersonId { id: p }) <==> old(self).groups_of(
                    s,
                    p,
                ).contains(g));
            }
            assert forall|s: usize, g: usize| g < self.listed(s) implies (
            #[trigger] self.group_to_person_map@[s][g as int]).wf() by {
                assert(g < old(self).listed(s));
                assert(old(self).group_to_person_map@[s][g as int].wf());
            }
        }
        id
    }

    /// The number of the last group of the kind in `slot`, if one was created.
    pub fn get_maximum_group_id(&self, slot: usize) -> (id: Option<usize>)
        ensures
            id == self.max_id(slot),
    {
        match self.max_group_id.get(&slot) {
            Some(id) => Some(*id),
            None => None,
        }
    }

    /// Puts `person_id` into group `group` of the kind in `slot`, in both directions.
    pub fn add_person_to_group(&mut self, slot: usize, person_id: PersonId, group: usize)
        requires
            old(self).wf(),
            person_id.id < usize::MAX,
            group < usize::MAX,
        ensures
            final(self).wf(),
            final(self).has_members(slot),
            final(self).listed(slot) == if group < old(self).listed(slot) {
                old(self).listed(slot)
            } else {
                group as nat + 1
            },
            forall|other: usize| other != slot ==> final(self).has_members(other) == old(self).has_members(other),
            forall|other: usize| other != slot ==> final(self).listed(other) == old(self).listed(other),
            final(self).members(slot, group) == old(self).members(slot, group).insert(person_id),
            forall|s: usize, g: usize|
                !(s == slot && g == group) ==> final(self).members(s, g) == old(self).members(s, g),
            final(self).groups_of(slot, person_id.id) == old(self).groups_of(slot, person_id.id).insert(group),
            forall|s: usize, p: usize|
                !(s == slot && p == person_id.id) ==> final(self).groups_of(s, p) == old(self).groups_of(s, p),
            forall|other: usize| final(self).max_id(other) == old(self).max_id(other),
    {
        let mut people_groups = match self.person_to_group_map.remove(&slot) {
            Some(people_groups) => people_groups,
            None => Vec::new(),
        };
        let ghost groups_before = people_groups@;
        while people_groups.len() <= person_id.id
            invariant
                groups_before.len() <= people_groups.len(),
                forall|i: int| 0 <= i < groups_before.len() ==> people_groups[i] == groups_before[i],
                forall|i: int|
                    groups_before.len() <= i < people_groups.len() ==> set_usize_items(people_groups[i])
                        == Set::<usize>::empty(),
            decreases person_id.id + 1 - people_groups.len(),
        {
            people_groups.push(set_usize_new());
        }
        let added = set_usize_insert(&mut people_groups[person_id.id], group);
        self.person_to_group_map.insert(slot, people_groups);

        let mut group_people = match self.group_to_person_map.remove(&slot) {
            Some(group_people) => group_people,
            None => Vec::new(),
        };
        let ghost people_before = group_people@;
        while group_people.len() <= group
            invariant
                people_before.len() <= group_people.len(),
                group_people.len() <= people_before.len() || group_people.len() <= group + 1,
                forall|i: int| 0 <= i < people_before.len() ==> group_people[i] == people_before[i],
                forall|i: int|
                    people_before.len() <= i < group_people.len() ==> (#[trigger] group_people[i]).wf()
                        && group_people[i].members() == Set::<PersonId>::empty(),
            decreases group + 1 - group_people.len(),
        {
            group_people.push(VecPersonContainer::new());
        }
        proof {
            assert(old(self).members(slot, group).contains(person_id) <==> old(self).groups_of(
                slot,
                person_id.id,
            ).contains(group));
            if group < people_before.len() {
                assert(group < old(self).listed(slot));
                assert(old(self).group_to_person_map@[slot][group as int].wf());
            }
        }
        if added {
            group_people[group].insert(person_id);
        }
        self.group_to_person_map.insert(slot, group_people);
        proof {
            assert(self.members(slot, group) =~= old(self).members(slot, group).insert(person_id));
            assert forall|s: usize, g: usize| !(s == slot && g == group) implies self.members(s, g) == old(
                self,
            ).members(s, g) by {
                if s == slot && g < self.listed(slot) {
                    if g < people_before.len() {
                        assert(self.group_to_person_map@[slot][g as int] == people_before[g as int]);
                    }
                }
            }
            assert forall|s: usize, p: usize| !(s == slot && p == person_id.id) implies self.groups_of(s, p)
                == old(self).groups_of(s, p) by {
                if s == slot && p < self.person_to_group_map@[slot].len() {
                    if p < groups_before.len() {
                        assert(self.person_to_group_map@[slot][p as int] == groups_before[p as int]);
                    }
                }
            }
            assert forall|s: usize, g: usize| g < self.listed(s) implies (
            #[trigger] self.group_to_person_map@[s][g as int]).wf() by {
                if s == slot {
                    if g < people_before.len() {
                        assert(g < old(self).listed(slot));
                        assert(old(self).group_to_person_map@[slot][g as int].wf());
                    }
                } else {
                    assert(g < old(self).listed(s));
                    assert(old(self).group_to_person_map@[s][g as int].wf());
                }
            }
            assert forall|s: usize, g: usize, p: usize| #[trigger]
                self.members(s, g).contains(PersonId { id: p }) <==> self.groups_of(s, p).contains(g) by {
                assert(old(self).members(s, g).contains(PersonId { id: p }) <==> old(self).groups_of(
                    s,
                    p,
                ).contains(g));
                if s == slot && g == group && p == person_id.id {
                    assert(PersonId { id: p } == person_id);
                }
            }
        }
    }

    /// The members of group `group` of the kind in `slot`, into whose groups somebody was put
    /// before; `None` if nobody was ever put into the group or a later one.
    pub fn get_group_members(&self, slot: usize, group: usize) -> (members: Option<&VecPersonContainer>)
        requires
            self.wf(),
            self.has_members(slot),
        ensures
            match members {
                Some(container) => group < self.listed(slot) && container.wf() && container.members()
                    == self.members(slot, group),
                None => group >= self.listed(slot),
            },
    {
        match self.group_to_person_map.get(&slot) {
            Some(group_people) => {
                if group >= group_people.len() {
                    return None;
                }
                Some(&group_people[group])
            },
            None => None,
        }
    }

    /// The groups of the kind in `slot` that `person_id` is in, each once.
    pub fn get_groups_for_person(&self, slot: usize, person_id: PersonId) -> (groups: Vec<usize>)
        ensures
            groups@.no_duplicates(),
            groups@.to_set() == self.groups_of(slot, person_id.id),
    {
        match self.person_to_group_map.get(&slot) {
            None => {
                let groups: Vec<usize> = Vec::new();
                assert(groups@.to_set() =~= Set::<usize>::empty());
                groups
            },
            Some(people_groups) => {
                if person_id.id >= people_groups.len() {
                    let groups: Vec<usize> = Vec::new();
                    assert(groups@.to_set() =~= Set::<usize>::empty());
                    return groups;
                }
                set_usize_to_vec(&people_groups[person_id.id])
            },
        }
    }
}

/// What a context offers about its groups.
pub trait GroupsContext<A: Copy, D, L: LabelFunction> {
    /// The context that this is.
    spec fn context(&self) -> &Context<A, D, L>;

    /// Creates a group of kind `T`.
    fn add_group<T: GroupType>(&mut self) -> (group_id: GroupId<T>)
        requires
            old(self).context().wf(),
            old(self).context().groups().max_id(T::INDEX) != Some(usize::MAX),
        ensures
            final(self).context().wf(),
            group_id.id == match old(self).context().groups().max_id(T::INDEX) {
                Some(last) => last + 1,
                None => 0,
            },
            final(self).context().groups().max_id(T::INDEX) == Some(group_id.id),
            forall|other: usize|
                other != T::INDEX ==> final(self).context().groups().max_id(other) ==
                    old(self).context().groups().max_id(other),
            GroupsDataContainer::same_memberships(old(self).context().groups(), final(self).context().groups()),
            Context::changes_only(old(self).context(), final(self).context(), set![Part::Groups]),
    ;

    /// The group of kind `T` that was created last, if any was.
    fn get_maximum_group_id<T: GroupType>(&self) -> (group_id: Option<GroupId<T>>)
        ensures
            match group_id {
                Some(last) => self.context().groups().max_id(T::INDEX) == Some(last.id),
                None => self.context().groups().max_id(T::INDEX) is None,
            },
    ;

    /// Puts `person_id` into `group_id`. Nothing asks whether the person or the group was
    /// created.
    fn add_person_to_group<T: GroupType>(&mut self, person_id: PersonId, group_id: GroupId<T>)
        requires
            old(self).context().wf(),
            person_id.id < usize::MAX,
            group_id.id < usize::MAX,
        ensures
            final(self).context().wf(),
            final(self).context().groups().has_members(T::INDEX),
            final(self).context().groups().listed(T::INDEX) ==
                if group_id.id < old(self).context().groups().listed(T::INDEX) {
                old(self).context().groups().listed(T::INDEX)
            } else {
                group_id.id as nat + 1
            },
            final(self).context().groups().members(T::INDEX, group_id.id) == old(self).context().groups().members(
                T::INDEX,
                group_id.id,
            ).insert(person_id),
            forall|slot: usize, group: usize|
                !(slot == T::INDEX && group == group_id.id) ==>
                    final(self).context().groups().members(slot, group) ==
                    old(self).context().groups().members(slot, group),
            final(self).context().groups().groups_of(T::INDEX, person_id.id) ==
                old(self).context().groups().groups_of(
                T::INDEX,
                person_id.id,
            ).insert(group_id.id),
            forall|slot: usize, person: usize|
                !(slot == T::INDEX && person == person_id.id) ==>
                    final(self).context().groups().groups_of(slot, person)
                    == old(self).context().groups().groups_of(slot, person),
            forall|slot: usize| final(self).context().groups().max_id(slot) ==
                old(self).context().groups().max_id(slot),
            Context::changes_only(old(self).context(), final(self).context(), set![Part::Groups]),
    ;

    /// Whether anybody was ever put into a group of kind `T`.
    fn has_group_members<T: GroupType>(&self) -> (listed: bool)
        ensures
            listed == self.context().groups().has_members(T::INDEX),
    ;

    /// The members of `group_id`; `None` if nobody was ever put into that group or a later
    /// one of its kind. Somebody must have been put into a group of kind `T` before.
    fn get_group_members<T: GroupType>(&self, group_id: GroupId<T>) -> (members: Option<&VecPersonContainer>)
        requires
            self.context().wf(),
            self.context().groups().has_members(T::INDEX),
        ensures
            match members {
                Some(container) => group_id.id < self.context().groups().listed(T::INDEX) && container.wf()
                    && container.members() == self.context().groups().members(T::INDEX, group_id.id),
                None => group_id.id >= self.context().groups().listed(T::INDEX),
            },
    ;

    /// The groups of kind `T` that `person_id` is in, each once.
    fn get_groups_for_person<T: GroupType>(&self, person_id: PersonId) -> (groups: Vec<GroupId<T>>)
        ensures
            groups@.len() == self.context().groups().groups_of(T::INDEX, person_id.id).len(),
            forall|group: usize|
                self.context().groups().groups_of(T::INDEX, person_id.id).contains(group) <==> exists|i: int|
                    0 <= i < groups@.len() && (#[trigger] groups@[i]).id == group,
            forall|i: int, j: int| 0 <= i < j < groups@.len() ==> groups@[i].id != groups@[j].id,
    ;
}

impl<A: Copy, D, L: LabelFunction> GroupsContext<A, D, L> for Context<A, D, L> {
    open spec fn context(&self) -> &Context<A, D, L> {
        self
    }

    fn add_group<T: GroupType>(&mut self) -> (group_id: GroupId<T>)
    {
        GroupId::new(self.groups.add_group(T::INDEX))
    }

    fn get_maximum_group_id<T: GroupType>(&self) -> (group_id: Option<GroupId<T>>)
    {
        match self.groups.get_maximum_group_id(T::INDEX) {
            Some(id) => Some(GroupId::new(id)),
            None => None,
        }
    }

    fn add_person_to_group<T: GroupType>(&mut self, person_id: PersonId, group_id: GroupId<T>)
    {
        self.groups.add_person_to_group(T::INDEX, person_id, group_id.id);
    }

    fn has_group_members<T: GroupType>(&self) -> (listed: bool)
    {
        self.groups.group_to_person_map.contains_key(&T::INDEX)
    }

    fn get_group_members<T: GroupType>(&self, group_id: GroupId<T>) -> (members: Option<&VecPersonContainer>)
    {
        self.groups.get_group_members(T::INDEX, group_id.id)
    }

    fn get_groups_for_person<T: GroupType>(&self, person_id: PersonId) -> (groups: Vec<GroupId<T>>)
    {
        let ids = self.groups.get_groups_for_person(T::INDEX, person_id);
        let mut groups: Vec<GroupId<T>> = Vec::new();
        let mut i: usize = 0;
        while i < ids.len()
            invariant
                i <= ids.len(),
                groups.len() == i,
                forall|j: int| 0 <= j < i ==> (#[trigger] groups[j]).id == ids[j],
            decreases ids.len() - i,
        {
            groups.push(GroupId::new(ids[i]));
            i += 1;
        }
        proof {
            ids@.unique_seq_to_set();
            assert forall|group: usize|
                self.groups().groups_of(T::INDEX, person_id.id).contains(group) <==> exists|i: int|
                    0 <= i < groups@.len() && (#[trigger] groups@[i]).id == group by {
                if self.groups().groups_of(T::INDEX, person_id.id).contains(group) {
                    assert(ids@.to_set().contains(group));
                    let at = choose|at: int| 0 <= at < ids@.len() && ids@[at] == group;
                    assert(groups@[at].id == group);
                }
                if exists|i: int| 0 <= i < groups@.len() && (#[trigger] groups@[i]).id == group {
                    let at = choose|at: int| 0 <= at < groups@.len() && (#[trigger] groups@[at]).id == group;
                    assert(ids@[at] == group);
                    assert(ids@.to_set().contains(group));
                }
            }
        }
        groups
    }
}

} // verus!
