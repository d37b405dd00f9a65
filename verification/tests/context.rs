use simkernel::context::Callback;
use simkernel::context::Component;
use simkernel::context::Context;
use simkernel::context::Event;
use simkernel::context::PlanId;
use simkernel::context::Plugin;
use simkernel::context::SchedulingError;
use simkernel::context::MAX_TIME;
use simkernel::context::MINUS_ZERO;
use simkernel::context::MIN_FINITE;
use simkernel::partitions::FirstValue;

#[derive(Clone, Copy, Debug, PartialEq)]
enum Action {
    IncrementCounter,
    Record(u32),
    QueueTwo(u32),
    QueueOne(u32),
}

type Sim = Context<Action, Vec<(u32, f64)>, FirstValue>;

struct Log {}

impl Plugin for Log {
    type DataContainer = Vec<(u32, f64)>;

    const INDEX: usize = 0;

    fn get_data_container() -> Self::DataContainer {
        Vec::new()
    }
}

fn time(t: f64) -> u64 {
    t.to_bits()
}

fn clock(context: &Sim) -> f64 {
    f64::from_bits(context.get_time())
}

fn run(context: &mut Sim, callback: Callback<Action>) {
    match callback.action {
        Action::IncrementCounter => {
            let now = clock(context);
            let log = context.get_data_container_mut::<Log>();
            let count = log.len() as u32;
            log.push((count + 1, now));
        }
        Action::Record(tag) => {
            let now = clock(context);
            context.get_data_container_mut::<Log>().push((tag, now));
        }
        Action::QueueTwo(tag) => {
            context.queue_callback(Action::QueueOne(tag + 1));
            context.queue_callback(Action::Record(tag + 2));
        }
        Action::QueueOne(tag) => {
            context.queue_callback(Action::Record(tag));
        }
    }
}

fn execute(context: &mut Sim) {
    while let Some(callback) = context.step() {
        run(context, callback);
    }
}

struct ComponentA {}

impl Component<Action, Vec<(u32, f64)>, FirstValue> for ComponentA {
    fn sets_up(before: &Sim, after: &Sim) -> bool {
        after.next_plan_id() == before.next_plan_id() + 1
    }

    fn init(context: &mut Sim) {
        context.add_plan(time(1.0), Action::IncrementCounter).unwrap();
    }
}

fn counter(context: &mut Sim) -> usize {
    context.get_data_container_mut::<Log>().len()
}

#[test]
fn test_component_and_planning() {
    let mut context = Sim::new();
    context.add_component::<ComponentA>();
    assert_eq!(clock(&context), 0.0);
    assert_eq!(counter(&mut context), 0);
    execute(&mut context);
    assert_eq!(clock(&context), 1.0);
    assert_eq!(counter(&mut context), 1);
    let plan_to_cancel = context.add_plan(time(3.0), Action::IncrementCounter).unwrap();
    context.add_plan(time(2.0), Action::IncrementCounter).unwrap();
    context.cancel_plan(plan_to_cancel);
    execute(&mut context);
    assert_eq!(clock(&context), 2.0);
    assert_eq!(counter(&mut context), 2);
}

#[test]
fn plans_fire_in_order_of_time() {
    let mut context = Sim::new();
    context.add_plan(time(3.0), Action::Record(3)).unwrap();
    context.add_plan(time(1.0), Action::Record(1)).unwrap();
    context.add_plan(time(2.0), Action::Record(2)).unwrap();
    execute(&mut context);
    assert_eq!(
        context.get_data_container::<Log>().unwrap(),
        &vec![(1, 1.0), (2, 2.0), (3, 3.0)]
    );
    assert_eq!(clock(&context), 3.0);
}

#[test]
fn cancelled_plan_never_fires() {
    let mut context = Sim::new();
    let first = context.add_plan(time(1.0), Action::Record(1)).unwrap();
    let second = context.add_plan(time(2.0), Action::Record(2)).unwrap();
    context.cancel_plan(PlanId { id: second.id });
    context.cancel_plan(second);
    execute(&mut context);
    assert_eq!(context.get_data_container::<Log>().unwrap(), &vec![(1, 1.0)]);
    assert_eq!(clock(&context), 1.0);
    // cancelling a plan that fired, or one that was cancelled, changes nothing
    context.cancel_plan(first);
    context.cancel_plan(PlanId { id: 1 });
    context.add_plan(time(4.0), Action::Record(4)).unwrap();
    execute(&mut context);
    assert_eq!(
        context.get_data_container::<Log>().unwrap(),
        &vec![(1, 1.0), (4, 4.0)]
    );
}

#[test]
fn equal_times_fire_in_insertion_order() {
    let mut context = Sim::new();
    context.add_plan(time(5.0), Action::Record(10)).unwrap();
    context.add_plan(time(1.0), Action::Record(20)).unwrap();
    context.add_plan(time(5.0), Action::Record(30)).unwrap();
    context.add_plan(time(5.0), Action::Record(40)).unwrap();
    execute(&mut context);
    assert_eq!(
        context.get_data_container::<Log>().unwrap(),
        &vec![(20, 1.0), (10, 5.0), (30, 5.0), (40, 5.0)]
    );
}

#[test]
fn callbacks_drain_before_the_next_plan() {
    let mut context = Sim::new();
    context.queue_callback(Action::Record(0));
    context.add_plan(time(1.0), Action::QueueTwo(100)).unwrap();
    context.add_plan(time(2.0), Action::Record(2)).unwrap();
    execute(&mut context);
    assert_eq!(
        context.get_data_container::<Log>().unwrap(),
        &vec![(0, 0.0), (102, 1.0), (101, 1.0), (2, 2.0)]
    );
}

#[test]
fn step_hands_out_callbacks_first() {
    let mut context = Sim::new();
    context.add_plan(time(1.0), Action::Record(1)).unwrap();
    context.queue_callback(Action::Record(7));
    let first = context.step().unwrap();
    assert_eq!(first.action, Action::Record(7));
    assert!(matches!(first.event, Event::Direct));
    assert_eq!(clock(&context), 0.0);
    let second = context.step().unwrap();
    assert_eq!(second.action, Action::Record(1));
    assert_eq!(clock(&context), 1.0);
    assert!(context.step().is_none());
    assert_eq!(clock(&context), 1.0);
}

#[test]
fn add_plan_rejects_bad_times() {
    let mut context = Sim::new();
    assert!(context.add_plan(time(2.0), Action::Record(2)).is_ok());
    execute(&mut context);
    assert_eq!(clock(&context), 2.0);
    assert_eq!(
        context.add_plan(time(1.0), Action::Record(1)).err(),
        Some(SchedulingError::PastTime)
    );
    assert_eq!(
        context.add_plan(time(f64::INFINITY), Action::Record(1)).err(),
        Some(SchedulingError::InvalidTime)
    );
    assert_eq!(
        context.add_plan(time(f64::NAN), Action::Record(1)).err(),
        Some(SchedulingError::InvalidTime)
    );
    assert_eq!(
        context.add_plan(time(f64::NEG_INFINITY), Action::Record(1)).err(),
        Some(SchedulingError::InvalidTime)
    );
    assert_eq!(
        context.add_plan(time(-1.0), Action::Record(1)).err(),
        Some(SchedulingError::PastTime)
    );
    assert_eq!(
        context.add_plan(time(f64::MIN), Action::Record(1)).err(),
        Some(SchedulingError::PastTime)
    );
    assert_eq!(time(f64::MAX), MAX_TIME);
    assert_eq!(time(f64::MIN), MIN_FINITE);
    assert_eq!(time(-0.0), MINUS_ZERO);
    let id = context.add_plan(time(2.0), Action::Record(3)).unwrap();
    assert_eq!(id.id, 1);
    execute(&mut context);
    assert_eq!(
        context.get_data_container::<Log>().unwrap(),
        &vec![(2, 2.0), (3, 2.0)]
    );
}

#[test]
fn state_is_made_once() {
    let mut context = Sim::new();
    assert!(context.get_data_container::<Log>().is_none());
    context.get_data_container_mut::<Log>().push((9, 9.0));
    assert_eq!(context.get_data_container_mut::<Log>().len(), 1);
    assert_eq!(context.get_data_container::<Log>().unwrap(), &vec![(9, 9.0)]);
}

#[test]
fn earlier_plan_precedes() {
    let mut queue = simkernel::context::PlanQueue::new();
    let late = queue.add_plan(time(2.0), 'a');
    let early = queue.add_plan(time(1.0), 'b');
    let tie = queue.add_plan(time(1.0), 'c');
    assert_eq!((late.id, early.id, tie.id), (0, 1, 2));
    assert_eq!(queue.next_plan_id(), 3);
    let first = queue.get_next_timed_plan().unwrap();
    let second = queue.get_next_timed_plan().unwrap();
    let third = queue.get_next_timed_plan().unwrap();
    assert_eq!((first.callback, second.callback, third.callback), ('b', 'c', 'a'));
    assert_eq!((first.plan_id, second.plan_id, third.plan_id), (1, 2, 0));
    assert!(first.precedes(&second));
    assert!(second.precedes(&third));
    assert!(!second.precedes(&first));
    assert!(!first.precedes(&first));
    assert!(queue.get_next_timed_plan().is_none());
    queue.cancel_plan(PlanId { id: 3 });
    queue.add_plan(time(9.0), 'd');
    assert!(queue.get_next_timed_plan().is_none());
}

#[test]
fn minus_zero_is_zero() {
    let mut context = Sim::new();
    assert!(context.add_plan(time(-0.0), Action::Record(1)).is_ok());
    assert!(context.add_plan(time(f64::MAX), Action::Record(2)).is_ok());
    execute(&mut context);
    assert_eq!(
        context.get_data_container::<Log>().unwrap(),
        &vec![(1, 0.0), (2, f64::MAX)]
    );
    assert_eq!(context.get_time(), MAX_TIME);
}

#[test]
fn heap_hands_out_plans_in_firing_order() {
    let mut queue = simkernel::context::PlanQueue::new();
    let mut expected: Vec<(u64, u64)> = Vec::new();
    let mut state: u64 = 12345;
    for i in 0..500u64 {
        state = state.wrapping_mul(6364136223846793005).wrapping_add(1442695040888963407);
        let at = (state >> 33) % 40;
        let id = queue.add_plan(at, i);
        assert_eq!(id.id, i);
        if i % 3 == 0 {
            queue.cancel_plan(id);
        } else {
            expected.push((at, i));
        }
    }
    expected.sort();
    let mut fired: Vec<(u64, u64)> = Vec::new();
    while let Some(plan) = queue.get_next_timed_plan() {
        assert_eq!(plan.plan_id, plan.callback);
        fired.push((plan.time, plan.plan_id));
    }
    assert_eq!(fired, expected);
    assert_eq!(queue.next_plan_id(), 500);
}

#[test]
fn component_sets_itself_up() {
    let mut context = Sim::new();
    assert_eq!(context.next_plan_id(), 0);
    context.add_component::<ComponentA>();
    // the component's plan is in the queue, under the first sequence number
    assert_eq!(context.next_plan_id(), 1);
    let callback = context.step().unwrap();
    assert_eq!(callback.action, Action::IncrementCounter);
    assert_eq!(clock(&context), 1.0);
    assert!(context.step().is_none());
}
