use crate::context::Context;
use crate::context::Part;
use crate::partitions::LabelFunction;
use std::collections::HashMap;
use vstd::prelude::*;

verus! {

/// A report: a type that stands for one slot of the report registry, and the type of the
/// items that the report is made of.
pub trait Report {
    type Item;

    /// The slot of this report. Two reports of one context must not share a slot.
    const INDEX: usize;
}

/// What takes the items of a report: the action that the releaser is to run with an item.
pub struct ReportItemHandler<A> {
    pub callback: A,
}

impl<A> ReportItemHandler<A> {
    pub fn new(callback: A) -> (handler: ReportItemHandler<A>)
        ensures
            handler.callback == callback,
    {
        ReportItemHandler { callback }
    }
}

/// The handler of each report that has one.
pub struct ReportsDataContainer<A> {
    pub(crate) report_item_handlers: HashMap<usize, ReportItemHandler<A>>,
}

impl<A: Copy> ReportsDataContainer<A> {
    /// The action that takes the items of the report in `slot`, if one was set.
    pub open(crate) spec fn handler(&self, slot: usize) -> Option<A> {
        if self.report_item_handlers@.contains_key(slot) {
            Some(self.report_item_handlers@[slot].callback)
        } else {
            None
        }
    }

    pub fn new() -> (reports: ReportsDataContainer<A>)
        ensures
            forall|slot: usize| reports.handler(slot) is None,
    {
        ReportsDataContainer { report_item_handlers: HashMap::new() }
    }
}

/// What a context offers to those who report.
pub trait ReportsContext<A: Copy, D, L: LabelFunction> {
    /// The context that this is.
    spec fn context(&self) -> &Context<A, D, L>;

    /// Has the items of report `T` taken by `callback` from now on.
    fn set_report_item_handler<T: Report>(&mut self, callback: A)
        requires
            old(self).context().wf(),
        ensures
            final(self).context().wf(),
            final(self).context().reports().handler(T::INDEX) == Some(callback),
            forall|slot: usize|
                slot != T::INDEX ==> final(self).context().reports().handler(slot) == old(
                    self,
                ).context().reports().handler(slot),
            Context::changes_only(old(self).context(), final(self).context(), set![Part::Reports]),
    ;

    /// Hands `item` to the handler of report `T`: the caller is to run the action with the
    /// item before it goes on. Without a handler the item is dropped.
    fn release_report_item<T: Report>(&mut self, item: T::Item) -> (released: Option<(A, T::Item)>)
        requires
            old(self).context().wf(),
        ensures
            released == match old(self).context().reports().handler(T::INDEX) {
                Some(callback) => Some((callback, item)),
                None => None,
            },
            *final(self).context() == *old(self).context(),
    ;
}

impl<A: Copy, D, L: LabelFunction> ReportsContext<A, D, L> for Context<A, D, L> {
    open spec fn context(&self) -> &Context<A, D, L> {
        self
    }

    fn set_report_item_handler<T: Report>(&mut self, callback: A) {
        self.reports.report_item_handlers.insert(T::INDEX, ReportItemHandler::new(callback));
    }

    fn release_report_item<T: Report>(&mut self, item: T::Item) -> (released: Option<(A, T::Item)>) {
        match self.reports.report_item_handlers.get(&T::INDEX) {
            None => None,
            Some(handler) => Some((handler.callback, item)),
        }
    }
}

} // verus!
