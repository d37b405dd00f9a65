use simkernel::context::Callback;
use simkernel::context::Context;
use simkernel::context::Event;
use simkernel::context::Plugin;
use simkernel::partitions::FirstValue;
use simkernel::people::PeopleContext;
use simkernel::people::PersonId;

#[derive(Clone, Copy)]
enum Action {
    NoteCreation,
}

type Sim = Context<Action, Option<PersonId>, FirstValue>;

struct PluginA {}
impl Plugin for PluginA {
    type DataContainer = Option<PersonId>;

    const INDEX: usize = 0;

    fn get_data_container() -> Self::DataContainer {
        None
    }
}

struct PluginB {}
impl Plugin for PluginB {
    type DataContainer = Option<PersonId>;

    const INDEX: usize = 1;

    fn get_data_container() -> Self::DataContainer {
        None
    }
}

fn run(context: &mut Sim, callback: Callback<Action>) {
    match (callback.action, callback.event) {
        (Action::NoteCreation, Event::PersonCreated(person_id)) => {
            *context.get_data_container_mut::<PluginA>() = Some(person_id)
        }
        _ => unreachable!(),
    }
}

fn execute(context: &mut Sim) {
    while let Some(callback) = context.step() {
        run(context, callback);
    }
}

/// Creates a person and runs at once what the creator of a person has to run.
fn add_person(context: &mut Sim) -> PersonId {
    let (person_id, due) = context.add_person().execute();
    for callback in due {
        run(context, callback);
    }
    person_id
}

#[test]
fn test_add_person() {
    let mut context = Sim::new();

    context.observe_person_creation::<PluginA>(Action::NoteCreation);

    // Test observation callback (queued)
    assert_eq!(*context.get_data_container_mut::<PluginA>(), None);
    add_person(&mut context);
    assert_eq!(*context.get_data_container_mut::<PluginA>(), None);
    // Trigger callback in queue
    execute(&mut context);
    assert_eq!(
        context.get_data_container::<PluginA>().unwrap(),
        &context.get_maximum_person_id()
    );

    // Test immediate callback
    context.add_immediate_creation_callback::<PluginA>(Action::NoteCreation);
    add_person(&mut context);
    assert_eq!(
        context.get_data_container::<PluginA>().unwrap(),
        &context.get_maximum_person_id()
    );
    assert_eq!(context.get_maximum_person_id(), Some(PersonId::new(1)));
}

#[test]
fn creation_listeners_come_and_go() {
    let mut context = Sim::new();
    assert_eq!(context.get_maximum_person_id(), None);
    context.observe_person_creation::<PluginA>(Action::NoteCreation);
    context.observe_person_creation::<PluginB>(Action::NoteCreation);
    // a second word of the same module takes the place of the first
    context.observe_person_creation::<PluginA>(Action::NoteCreation);
    let first = context.add_person().execute().0;
    assert_eq!(first, PersonId { id: 0 });
    let mut told = 0;
    while let Some(callback) = context.step() {
        assert!(matches!(callback.event, Event::PersonCreated(person_id) if person_id == first));
        told += 1;
    }
    assert_eq!(told, 2);
    context.ignore_person_creation::<PluginA>();
    context.ignore_person_creation::<PluginB>();
    let (_, due) = context.add_person().execute();
    assert!(due.is_empty());
    assert!(context.step().is_none());

    context.add_immediate_creation_callback::<PluginB>(Action::NoteCreation);
    let (third, due) = context.add_person().execute();
    assert_eq!(due.len(), 1);
    assert!(matches!(due[0].event, Event::PersonCreated(told) if told == third));
    context.remove_immediate_creation_callback::<PluginB>();
    assert!(context.add_person().execute().1.is_empty());
}

#[test]
fn creation_hands_out_and_queues_in_one() {
    let mut context = Sim::new();
    context.observe_person_creation::<PluginA>(Action::NoteCreation);
    context.add_immediate_creation_callback::<PluginB>(Action::NoteCreation);
    context.queue_callback(Action::NoteCreation);
    let (person_id, due) = context.add_person().execute();
    assert_eq!(due.len(), 1);
    assert!(matches!(due[0].event, Event::PersonCreated(told) if told == person_id));
    // the observers wait behind what was due before
    let first = context.step().unwrap();
    assert!(matches!(first.event, Event::Direct));
    let second = context.step().unwrap();
    assert!(matches!(second.event, Event::PersonCreated(told) if told == person_id));
    assert!(context.step().is_none());
    // the finishing step alone tells again, and files nobody
    let again = context.finalize_person_creation(person_id);
    assert_eq!(again.len(), 1);
    assert!(matches!(context.step().unwrap().event, Event::PersonCreated(told) if told == person_id));
    assert_eq!(context.get_maximum_person_id(), Some(person_id));
}
