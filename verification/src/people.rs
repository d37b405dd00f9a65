use crate::context::notifications;
use crate::context::told;
use crate::context::Callback;
use crate::context::Context;
use crate::context::Part;
use crate::context::Event;
use crate::context::Plugin;
use crate::creation::CreationBuilder;
use crate::creation::PersonBuilder;
use crate::observers::actions_of;
use crate::observers::not_under_key;
use crate::observers::SubscriberList;
use crate::partitions::LabelFunction;
use vstd::prelude::*;

verus! {

/// Handle of a person: its number in the order of creation, from zero.
#[derive(Clone, Copy, Debug, PartialEq, Eq, Structural, Hash, PartialOrd, Ord)]
pub struct PersonId {
    pub id: usize,
}

impl PersonId {
    pub fn new(id: usize) -> (person_id: PersonId)
        ensures
            person_id.id == id,
    {
        PersonId { id }
    }
}

/// What the context knows of its people: the last that was created, and who wants to hear of
/// a creation, at once or when the callbacks are drained.
pub struct PeopleDataContainer<A> {
    pub(crate) max_person_id: Option<PersonId>,
    pub(crate) creation_immediate_callbacks: SubscriberList<A>,
    pub(crate) creation_observers: SubscriberList<A>,
}

impl<A: Copy> PeopleDataContainer<A> {
    /// How many people were created.
    pub open(crate) spec fn population(&self) -> nat {
        match self.max_person_id {
            Some(person_id) => person_id.id as nat + 1,
            None => 0,
        }
    }

    /// Who hears of a creation when the callbacks are drained, each under its key.
    pub open(crate) spec fn creation_observers(&self) -> Seq<(usize, A)> {
        self.creation_observers.entries()
    }

    /// Who is to hear of a creation before its creator goes on, each under its key.
    pub open(crate) spec fn creation_immediate_callbacks(&self) -> Seq<(usize, A)> {
        self.creation_immediate_callbacks.entries()
    }

    pub fn new() -> (people: PeopleDataContainer<A>)
        ensures
            people.population() == 0,
            people.creation_observers() == Seq::<(usize, A)>::empty(),
            people.creation_immediate_callbacks() == Seq::<(usize, A)>::empty(),
    {
        PeopleDataContainer {
            max_person_id: None,
            creation_immediate_callbacks: SubscriberList::new(),
            creation_observers: SubscriberList::new(),
        }
    }

    /// The number of people, as a machine integer.
    pub fn count(&self) -> (count: usize)
        requires
            self.population() <= usize::MAX,
        ensures
            count == self.population(),
    {
        match self.max_person_id {
            Some(person_id) => person_id.id + 1,
            None => 0,
        }
    }

    /// Gives the next person its handle.
    pub fn create_person(&mut self) -> (person_id: PersonId)
        requires
            old(self).population() < usize::MAX,
        ensures
            person_id.id == old(self).population(),
            final(self).population() == old(self).population() + 1,
            final(self).creation_observers() == old(self).creation_observers(),
            final(self).creation_immediate_callbacks() == old(self).creation_immediate_callbacks(),
    {
        let person_id = match self.max_person_id {
            None => PersonId::new(0),
            Some(max_person_id) => PersonId::new(max_person_id.id + 1),
        };
        self.max_person_id = Some(person_id);
        person_id
    }
}

/// What a context offers about its people.
pub trait PeopleContext<A: Copy, D, L: LabelFunction> {
    /// The context that this is.
    spec fn context(&self) -> &Context<A, D, L>;

    /// Starts the creation of a person.
    fn add_person(&mut self) -> (builder: PersonBuilder<'_, A, D, L>)
        ensures
            *builder.context == *old(self).context(),
            *final(builder.context) == *final(self).context(),
            builder.steps() == Seq::<crate::creation::CreationStep>::empty(),
    ;

    /// The person that was created last, if any was.
    fn get_maximum_person_id(&self) -> (person_id: Option<PersonId>)
        ensures
            match person_id {
                Some(last) => last.id + 1 == self.context().population(),
                None => self.context().population() == 0,
            },
    ;

    /// Has `action` queued, with the person, whenever a person is created. It takes the place
    /// of what module `T` observed creations with before.
    fn observe_person_creation<T: Plugin>(&mut self, action: A)
        requires
            old(self).context().wf(),
        ensures
            final(self).context().wf(),
            final(self).context().people().creation_observers() ==
                old(self).context().people().creation_observers().filter(
                not_under_key(T::INDEX),
            ).push((T::INDEX, action)),
            final(self).context().people().creation_immediate_callbacks() ==
                old(self).context().people().creation_immediate_callbacks(),
            final(self).context().population() == old(self).context().population(),
            Context::changes_only(old(self).context(), final(self).context(), set![Part::People]),
    ;

    /// Module `T` no longer observes creations.
    fn ignore_person_creation<T: Plugin>(&mut self)
        requires
            old(self).context().wf(),
        ensures
            final(self).context().wf(),
            final(self).context().people().creation_observers() ==
                old(self).context().people().creation_observers().filter(
                not_under_key(T::INDEX),
            ),
            final(self).context().people().creation_immediate_callbacks() ==
                old(self).context().people().creation_immediate_callbacks(),
            final(self).context().population() == old(self).context().population(),
            Context::changes_only(old(self).context(), final(self).context(), set![Part::People]),
    ;

    /// Notes `action` as what module `T` wants run on a new person before the creator goes
    /// on. It takes the place of what `T` had noted.
    fn add_immediate_creation_callback<T: Plugin>(&mut self, action: A)
        requires
            old(self).context().wf(),
        ensures
            final(self).context().wf(),
            final(self).context().people().creation_immediate_callbacks() ==
                old(self).context().people().creation_immediate_callbacks().filter(not_under_key(T::INDEX)).push((T::INDEX, action)),
            final(self).context().people().creation_observers() == old(self).context().people().creation_observers(),
            final(self).context().population() == old(self).context().population(),
            Context::changes_only(old(self).context(), final(self).context(), set![Part::People]),
    ;

    /// Module `T` wants nothing run at once on a new person any more.
    fn remove_immediate_creation_callback<T: Plugin>(&mut self)
        requires
            old(self).context().wf(),
        ensures
            final(self).context().wf(),
            final(self).context().people().creation_immediate_callbacks() ==
                old(self).context().people().creation_immediate_callbacks().filter(not_under_key(T::INDEX)),
            final(self).context().people().creation_observers() == old(self).context().people().creation_observers(),
            final(self).context().population() == old(self).context().population(),
            Context::changes_only(old(self).context(), final(self).context(), set![Part::People]),
    ;

    /// Finishes the creation of `person_id`, which is filed in every partition by then: hands
    /// out what was noted to run at once on a new person, oldest first, each told of the
    /// person, for the creator to run before it goes on, and queues the observers of
    /// creations behind the callbacks that are due, each told of the person.
    fn finalize_person_creation(&mut self, person_id: PersonId) -> (due: Vec<Callback<A>>)
        requires
            old(self).context().wf(),
        ensures
            due@ == notifications(
                actions_of(old(self).context().people().creation_immediate_callbacks()),
                Event::PersonCreated(person_id),
            ),
            final(self).context().wf(),
            final(self).context().callbacks() == old(self).context().callbacks() + notifications(
                actions_of(old(self).context().people().creation_observers()),
                Event::PersonCreated(person_id),
            ),
            Context::changes_only(old(self).context(), final(self).context(), set![Part::Callbacks]),
    ;
}

impl<A: Copy, D, L: LabelFunction> PeopleContext<A, D, L> for Context<A, D, L> {
    open spec fn context(&self) -> &Context<A, D, L> {
        self
    }

    fn add_person(&mut self) -> (builder: PersonBuilder<'_, A, D, L>)
    {
        CreationBuilder::new(self)
    }

    fn get_maximum_person_id(&self) -> (person_id: Option<PersonId>)
    {
        self.people.max_person_id
    }

    fn observe_person_creation<T: Plugin>(&mut self, action: A)
    {
        self.people.creation_observers.replace(T::INDEX, action);
        assert(self.wf_apart_from_regions());
        assert(self.regions_mirrored());
    }

    fn ignore_person_creation<T: Plugin>(&mut self)
    {
        self.people.creation_observers.remove(T::INDEX);
        assert(self.wf_apart_from_regions());
        assert(self.regions_mirrored());
    }

    fn add_immediate_creation_callback<T: Plugin>(&mut self, action: A)
    {
        self.people.creation_immediate_callbacks.replace(T::INDEX, action);
        assert(self.wf_apart_from_regions());
        assert(self.regions_mirrored());
    }

    fn remove_immediate_creation_callback<T: Plugin>(&mut self)
    {
        self.people.creation_immediate_callbacks.remove(T::INDEX);
        assert(self.wf_apart_from_regions());
        assert(self.regions_mirrored());
    }

    fn finalize_person_creation(&mut self, person_id: PersonId) -> (due: Vec<Callback<A>>)
    {
        let immediate = self.people.creation_immediate_callbacks.all();
        let observers = self.people.creation_observers.all();
        self.notify(&observers, Event::PersonCreated(person_id));
        told(&immediate, Event::PersonCreated(person_id))
    }
}

} // verus!
