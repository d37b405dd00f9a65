use crate::context::notifications;
use crate::context::Context;
use crate::context::Part;
use crate::context::Event;
use crate::data_containers::heterogeneous_container::HeterogeneousContainer;
use crate::data_containers::Property;
use crate::observers::actions_under;
use crate::observers::SubscriberList;
use crate::partitions::LabelFunction;
use vstd::prelude::*;

verus! {

/// A property of the whole simulation: a slot of the global properties, empty until it is set.
pub trait GlobalProperty: Property {

}

/// What an observer of a global property is told: which slot was set, and what it held
/// before, if anything.
#[derive(Clone, Copy, Debug, PartialEq, Eq, Structural)]
pub struct GlobalPropertyChangeEvent {
    pub property: usize,
    pub old_value: Option<u64>,
}

/// The global properties, each a 64-bit cell, and who observes which.
pub struct GlobalPropertyDataContainer<A> {
    pub(crate) global_property_container: HeterogeneousContainer<u64>,
    pub(crate) global_property_change_callbacks: SubscriberList<A>,
}

impl<A: Copy> GlobalPropertyDataContainer<A> {
    /// The values of the slots that were set.
    pub open(crate) spec fn values(&self) -> Map<usize, u64> {
        self.global_property_container.values()
    }

    /// The observers, each under the slot that it observes, oldest first.
    pub open(crate) spec fn observers(&self) -> Seq<(usize, A)> {
        self.global_property_change_callbacks.entries()
    }

    pub fn new() -> (properties: GlobalPropertyDataContainer<A>)
        ensures
            properties.values() == Map::<usize, u64>::empty(),
            properties.observers() == Seq::<(usize, A)>::empty(),
    {
        GlobalPropertyDataContainer {
            global_property_container: HeterogeneousContainer::new(),
            global_property_change_callbacks: SubscriberList::new(),
        }
    }
}

/// What a context offers about its global properties.
pub trait GlobalPropertyContext<A: Copy, D, L: LabelFunction> {
    /// The context that this is.
    spec fn context(&self) -> &Context<A, D, L>;

    /// The value of global property `T`, if it was set.
    fn get_global_property_value<T: GlobalProperty>(&self) -> (value: Option<&u64>)
        ensures
            match value {
                Some(v) => self.context().global_properties().values().contains_key(T::INDEX) && *v
                    == self.context().global_properties().values()[T::INDEX],
                None => !self.context().global_properties().values().contains_key(T::INDEX),
            },
    ;

    /// Sets global property `T` to `value`, and queues the observers of `T` behind the
    /// callbacks that are due, each with the value as it was.
    fn set_global_property_value<T: GlobalProperty>(&mut self, value: u64)
        requires
            old(self).context().wf(),
            T::INDEX < usize::MAX,
        ensures
            final(self).context().wf(),
            final(self).context().global_properties().values() ==
                old(self).context().global_properties().values().insert(
                T::INDEX,
                value,
            ),
            final(self).context().global_properties().observers() ==
                old(self).context().global_properties().observers(),
            final(self).context().callbacks() == old(self).context().callbacks() + notifications(
                actions_under(old(self).context().global_properties().observers(), T::INDEX),
                Event::GlobalPropertyChanged(
                    (GlobalPropertyChangeEvent {
                        property: T::INDEX,
                        old_value: if old(self).context().global_properties().values().contains_key(T::INDEX) {
                            Some(old(self).context().global_properties().values()[T::INDEX])
                        } else {
                            None
                        },
                    }),
                ),
            ),
            Context::changes_only(old(self).context(), final(self).context(), set![Part::GlobalProperties,
                Part::Callbacks]),
    ;

    /// Has `action` queued, with the old value, whenever global property `T` is set.
    fn observe_global_property_changes<T: GlobalProperty>(&mut self, action: A)
        requires
            old(self).context().wf(),
        ensures
            final(self).context().wf(),
            final(self).context().global_properties().observers() ==
                old(self).context().global_properties().observers().push(
                (T::INDEX, action),
            ),
            final(self).context().global_properties().values() == old(self).context().global_properties().values(),
            final(self).context().callbacks() == old(self).context().callbacks(),
            Context::changes_only(old(self).context(), final(self).context(), set![Part::GlobalProperties,
                Part::Callbacks]),
    ;
}

impl<A: Copy, D, L: LabelFunction> GlobalPropertyContext<A, D, L> for Context<A, D, L> {
    open spec fn context(&self) -> &Context<A, D, L> {
        self
    }

    fn get_global_property_value<T: GlobalProperty>(&self) -> (value: Option<&u64>)
    {
        self.global_properties.global_property_container.get_value::<T>()
    }

    fn set_global_property_value<T: GlobalProperty>(&mut self, value: u64)
    {
        let observers = self.global_properties.global_property_change_callbacks.under(T::INDEX);
        let old_value = match self.global_properties.global_property_container.get_rc_value::<T>() {
            Some(current_value) => Some(*current_value),
            None => None,
        };
        self.notify(&observers, Event::GlobalPropertyChanged(GlobalPropertyChangeEvent { property: T::INDEX,
            old_value }));
        self.global_properties.global_property_container.set_value::<T>(value);
    }

    fn observe_global_property_changes<T: GlobalProperty>(&mut self, action: A)
    {
        self.global_properties.global_property_change_callbacks.add(T::INDEX, action);
    }
}

} // verus!
