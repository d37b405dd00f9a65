use simkernel::context::Callback;
use simkernel::context::Context;
use simkernel::context::Event;
use simkernel::data_containers::Property;
use simkernel::global_properties::GlobalProperty;
use simkernel::global_properties::GlobalPropertyContext;
use simkernel::partitions::FirstValue;

pub struct PropertyA {}
impl Property for PropertyA {
    const INDEX: usize = 0;
}
impl GlobalProperty for PropertyA {}

#[derive(Copy, Clone)]
pub struct PropertyBValues {
    old_a_value: usize,
    number_of_calls: usize,
}

impl PropertyBValues {
    fn to_cell(self) -> u64 {
        ((self.old_a_value as u64) << 32) | self.number_of_calls as u64
    }

    fn from_cell(cell: u64) -> PropertyBValues {
        PropertyBValues {
            old_a_value: (cell >> 32) as usize,
            number_of_calls: (cell & 0xFFFF_FFFF) as usize,
        }
    }
}

pub struct PropertyB {}
impl Property for PropertyB {
    const INDEX: usize = 1;
}
impl GlobalProperty for PropertyB {}

#[derive(Clone, Copy)]
enum Action {
    CountChangeOfA,
}

type Sim = Context<Action, (), FirstValue>;

fn run(context: &mut Sim, callback: Callback<Action>) {
    match (callback.action, callback.event) {
        (Action::CountChangeOfA, Event::GlobalPropertyChanged(event)) => {
            let current_b_value =
                PropertyBValues::from_cell(*context.get_global_property_value::<PropertyB>().unwrap());
            let number_of_calls = current_b_value.number_of_calls;
            context.set_global_property_value::<PropertyB>(
                PropertyBValues {
                    old_a_value: event.old_value.unwrap() as usize,
                    number_of_calls: number_of_calls + 1,
                }
                .to_cell(),
            );
        }
        _ => unreachable!(),
    }
}

fn execute(context: &mut Sim) {
    while let Some(callback) = context.step() {
        run(context, callback);
    }
}

#[test]
fn global_properties_test() {
    let mut context = Sim::new();
    context.set_global_property_value::<PropertyB>(
        PropertyBValues {
            old_a_value: 0,
            number_of_calls: 0,
        }
        .to_cell(),
    );
    context.set_global_property_value::<PropertyA>(1);
    context.observe_global_property_changes::<PropertyA>(Action::CountChangeOfA);
    context.set_global_property_value::<PropertyA>(2);
    execute(&mut context);
    let current_b_value =
        PropertyBValues::from_cell(*context.get_global_property_value::<PropertyB>().unwrap());
    assert_eq!(current_b_value.number_of_calls, 1);
    assert_eq!(current_b_value.old_a_value, 1);

    context.set_global_property_value::<PropertyA>(3);
    execute(&mut context);
    let current_b_value =
        PropertyBValues::from_cell(*context.get_global_property_value::<PropertyB>().unwrap());
    assert_eq!(current_b_value.number_of_calls, 2);
    assert_eq!(current_b_value.old_a_value, 2);
}

#[test]
fn first_setting_has_no_old_value() {
    let mut context = Sim::new();
    assert!(context.get_global_property_value::<PropertyA>().is_none());
    context.observe_global_property_changes::<PropertyA>(Action::CountChangeOfA);
    context.set_global_property_value::<PropertyA>(8);
    assert_eq!(context.get_global_property_value::<PropertyA>(), Some(&8));
    let callback = context.step().unwrap();
    match callback.event {
        Event::GlobalPropertyChanged(event) => {
            assert_eq!(event.property, 0);
            assert_eq!(event.old_value, None);
        }
        _ => unreachable!(),
    }
    assert!(context.step().is_none());
}
