use crate::global_properties::GlobalPropertyChangeEvent;
use crate::global_properties::GlobalPropertyDataContainer;
use crate::groups::GroupsDataContainer;
use crate::observers::SubscriberList;
use crate::partitions::LabelFunction;
use crate::partitions::PartitionDataContainer;
use crate::people::PeopleDataContainer;
use crate::people::PersonId;
use crate::person_properties::Column;
use crate::person_properties::PersonPropertyChangeEvent;
use crate::person_properties::PersonPropertyDataContainer;
use crate::regions::PersonRegionChangeEvent;
use crate::random::RandomData;
use crate::regions::RegionsDataContainer;
use crate::reports::ReportsDataContainer;
use std::collections::HashSet;
use std::collections::VecDeque;
use vstd::prelude::*;

verus! {

/// Handle of a scheduled plan. It only serves to cancel the plan.
pub struct PlanId {
    pub id: u64,
}

/// A plan: an action bound to a point of virtual time. Times are ordered as unsigned
/// integers; see `MAX_TIME` for what stands for a time.
pub struct TimedPlan<A> {
    pub time: u64,
    pub plan_id: u64,
    pub callback: A,
}

impl<A: Copy> Clone for TimedPlan<A> {
    fn clone(&self) -> (copy: Self)
        ensures
            copy == *self,
    {
        TimedPlan { time: self.time, plan_id: self.plan_id, callback: self.callback }
    }
}

impl<A: Copy> Copy for TimedPlan<A> {

}

/// The firing order: ascending time, ties broken by ascending sequence number.
pub open spec fn fires_before(time_a: u64, id_a: u64, time_b: u64, id_b: u64) -> bool {
    time_a < time_b || (time_a == time_b && id_a < id_b)
}

/// Whether a plan fires after `plan`.
pub open spec fn after_plan<A>(plan: TimedPlan<A>) -> spec_fn(TimedPlan<A>) -> bool {
    |q: TimedPlan<A>| plan.precedes_spec(&q)
}

/// Whether a plan fires before `plan`.
pub open spec fn before_plan<A>(plan: TimedPlan<A>) -> spec_fn(TimedPlan<A>) -> bool {
    |q: TimedPlan<A>| q.precedes_spec(&plan)
}

/// The sequence number of a plan.
pub open spec fn sequence_number<A>() -> spec_fn(TimedPlan<A>) -> u64 {
    |q: TimedPlan<A>| q.plan_id
}

/// Whether the sequence number of a plan is outside `cancelled`.
pub open spec fn not_cancelled<A>(cancelled: Set<u64>) -> spec_fn(TimedPlan<A>) -> bool {
    |q: TimedPlan<A>| !cancelled.contains(q.plan_id)
}

impl<A> TimedPlan<A> {
    pub open spec fn precedes_spec(&self, other: &TimedPlan<A>) -> bool {
        fires_before(self.time, self.plan_id, other.time, other.plan_id)
    }

    /// Whether this plan fires strictly before `other`.
    pub fn precedes(&self, other: &TimedPlan<A>) -> (earlier: bool)
        ensures
            earlier == self.precedes_spec(other),
    {
        self.time < other.time || (self.time == other.time && self.plan_id < other.plan_id)
    }
}

/// Pending plans in a binary heap, the one that fires first at the root, and the sequence
/// numbers that were cancelled.
pub struct PlanQueue<A> {
    queue: Vec<TimedPlan<A>>,
    invalid_set: HashSet<u64>,
    plan_counter: u64,
}

/// `a` does not fire after `b`.
pub open spec fn not_after<A>(a: TimedPlan<A>, b: TimedPlan<A>) -> bool {
    !b.precedes_spec(&a)
}

impl<A: Copy> PlanQueue<A> {
    /// The plans that were added and not yet taken out.
    pub closed spec fn pending(&self) -> Set<TimedPlan<A>> {
        self.queue@.to_set()
    }

    /// The sequence numbers on which `cancel_plan` was called and which no pop has met since.
    pub closed spec fn cancelled(&self) -> Set<u64> {
        self.invalid_set@
    }

    /// The sequence number that the next plan gets.
    pub closed spec fn next_id(&self) -> u64 {
        self.plan_counter
    }

    /// The plans of `pending` that will fire when the sequence numbers of `cancelled` are
    /// cancelled.
    pub open spec fn live_of(pending: Set<TimedPlan<A>>, cancelled: Set<u64>) -> Set<TimedPlan<A>> {
        pending.filter(not_cancelled(cancelled))
    }

    /// The pending plans that will fire.
    pub open spec fn live(&self) -> Set<TimedPlan<A>> {
        Self::live_of(self.pending(), self.cancelled())
    }

    /// `plan` is the one of `plans` that fires first.
    pub open spec fn is_first(plans: Set<TimedPlan<A>>, plan: TimedPlan<A>) -> bool {
        &&& plans.contains(plan)
        &&& forall|q: TimedPlan<A>| #[trigger] plans.contains(q) && q != plan ==> plan.precedes_spec(&q)
    }

    /// `after` is `before` without `plan` and without the plans that fire before it, and
    /// without the notes of cancellation that those plans met.
    pub open spec fn popped(before: &PlanQueue<A>, after: &PlanQueue<A>, plan: TimedPlan<A>) -> bool {
        &&& after.pending() == before.pending().filter(after_plan(plan))
        &&& after.cancelled() == before.cancelled().difference(
            before.pending().filter(before_plan(plan)).map(sequence_number()),
        )
    }

    /// `after` is `before` without any plan, and without the notes of cancellation that the
    /// plans met.
    pub open spec fn drained(before: &PlanQueue<A>, after: &PlanQueue<A>) -> bool {
        &&& after.pending() == Set::<TimedPlan<A>>::empty()
        &&& after.cancelled() == before.cancelled().difference(before.pending().map(sequence_number()))
    }

    /// The plan at `k` does not fire before the plan above it in the heap.
    spec fn ordered_at(queue: Seq<TimedPlan<A>>, k: int) -> bool {
        k > 0 ==> not_after(queue[(k - 1) / 2], queue[k])
    }

    /// The plan at `k`, if it hangs below `hole`, does not fire before the plan above `hole`.
    spec fn bridged_at(queue: Seq<TimedPlan<A>>, hole: int, k: int) -> bool {
        k > 0 && hole > 0 && (k - 1) / 2 == hole ==> not_after(queue[(hole - 1) / 2], queue[k])
    }

    /// Every plan but the root has above it one that does not fire after it.
    spec fn heap_ordered(queue: Seq<TimedPlan<A>>) -> bool {
        forall|k: int| 0 <= k < queue.len() ==> #[trigger] Self::ordered_at(queue, k)
    }

    /// The sequence numbers differ and lie below `counter`.
    spec fn numbered(queue: Seq<TimedPlan<A>>, counter: u64) -> bool {
        &&& forall|i: int| 0 <= i < queue.len() ==> (#[trigger] queue[i]).plan_id < counter
        &&& forall|i: int, j: int|
            0 <= i < j < queue.len() ==> (#[trigger] queue[i]).plan_id != (#[trigger] queue[j]).plan_id
    }

    pub closed spec fn wf(&self) -> bool {
        &&& Self::heap_ordered(self.queue@)
        &&& Self::numbered(self.queue@, self.plan_counter)
    }

    /// Sequence numbers are given once: pending plans differ in them, and all lie below `next_id`.
    pub proof fn lemma_sequence_numbers(&self)
        requires
            self.wf(),
        ensures
            self.pending().finite(),
            forall|p: TimedPlan<A>| #[trigger] self.pending().contains(p) ==> p.plan_id < self.next_id(),
            forall|p: TimedPlan<A>, q: TimedPlan<A>|
                #[trigger] self.pending().contains(p) && #[trigger] self.pending().contains(q) && p.plan_id
                    == q.plan_id ==> p == q,
    {
        broadcast use vstd::seq_lib::group_seq_properties;
        assert forall|p: TimedPlan<A>, q: TimedPlan<A>|
            #[trigger] self.pending().contains(p) && #[trigger] self.pending().contains(q) && p.plan_id
                == q.plan_id implies p == q by {
            let i = choose|i: int| 0 <= i < self.queue.len() && self.queue[i] == p;
            let j = choose|j: int| 0 <= j < self.queue.len() && self.queue[j] == q;
            assert(i == j);
        }
    }

    /// In a heap no plan fires before the root.
    proof fn lemma_root_is_first(queue: Seq<TimedPlan<A>>, k: int)
        requires
            Self::heap_ordered(queue),
            0 <= k < queue.len(),
        ensures
            not_after(queue[0], queue[k]),
        decreases k,
    {
        if k > 0 {
            assert(Self::ordered_at(queue, k));
            Self::lemma_root_is_first(queue, (k - 1) / 2);
        }
    }

    /// To exchange two plans changes neither which plans there are nor their numbering.
    proof fn lemma_exchange(queue: Seq<TimedPlan<A>>, i: int, j: int, counter: u64)
        requires
            0 <= i < queue.len(),
            0 <= j < queue.len(),
        ensures
            queue.update(i, queue[j]).update(j, queue[i]).to_set() == queue.to_set(),
            Self::numbered(queue, counter) ==> Self::numbered(
                queue.update(i, queue[j]).update(j, queue[i]),
                counter,
            ),
    {
        let swapped = queue.update(i, queue[j]).update(j, queue[i]);
        assert(swapped.to_set() =~= queue.to_set()) by {
            assert forall|p: TimedPlan<A>| swapped.to_set().contains(p) implies queue.to_set().contains(p) by {
                let k = choose|k: int| 0 <= k < swapped.len() && swapped[k] == p;
                let from = if k == i { j } else if k == j { i } else { k };
                assert(queue[from] == p);
            }
            assert forall|p: TimedPlan<A>| queue.to_set().contains(p) implies swapped.to_set().contains(p) by {
                let k = choose|k: int| 0 <= k < queue.len() && queue[k] == p;
                let to = if k == i { j } else if k == j { i } else { k };
                assert(swapped[to] == p);
            }
        }
        if Self::numbered(queue, counter) {
            assert forall|a: int| 0 <= a < swapped.len() implies (#[trigger] swapped[a]).plan_id < counter by {
                let from = if a == i { j } else if a == j { i } else { a };
                assert(swapped[a] == queue[from]);
            }
            assert forall|a: int, b: int| 0 <= a < b < swapped.len() implies (#[trigger] swapped[a]).plan_id != (
            #[trigger] swapped[b]).plan_id by {
                let from_a = if a == i { j } else if a == j { i } else { a };
                let from_b = if b == i { j } else if b == j { i } else { b };
                assert(swapped[a] == queue[from_a] && swapped[b] == queue[from_b]);
                assert(from_a != from_b);
                if from_a < from_b {
                    assert(queue[from_a].plan_id != queue[from_b].plan_id);
                } else {
                    assert(queue[from_b].plan_id != queue[from_a].plan_id);
                }
            }
        }
    }

    /// A cancelled plan never fires: the plan that fires first is none whose sequence number
    /// is cancelled.
    pub proof fn lemma_cancelled_plan_never_fires(
        pending: Set<TimedPlan<A>>,
        cancelled: Set<u64>,
        plan: TimedPlan<A>,
    )
        requires
            Self::is_first(Self::live_of(pending, cancelled), plan),
        ensures
            pending.contains(plan),
            !cancelled.contains(plan.plan_id),
    {
    }

    /// To cancel a plan that was cancelled before, or one that is no longer pending because
    /// it fired, changes nothing in what will fire.
    pub proof fn lemma_cancel_again_is_no_op(pending: Set<TimedPlan<A>>, cancelled: Set<u64>, id: u64)
        requires
            cancelled.contains(id) || forall|plan: TimedPlan<A>| #[trigger]
                pending.contains(plan) ==> plan.plan_id != id,
        ensures
            Self::live_of(pending, cancelled.insert(id)) == Self::live_of(pending, cancelled),
            cancelled.contains(id) ==> cancelled.insert(id) == cancelled,
    {
        assert(Self::live_of(pending, cancelled.insert(id)) =~= Self::live_of(pending, cancelled));
        if cancelled.contains(id) {
            assert(cancelled.insert(id) =~= cancelled);
        }
    }

    /// To cancel a plan takes that plan, and no other, out of what will fire.
    pub proof fn lemma_cancel_removes_one(&self, id: u64)
        requires
            self.wf(),
        ensures
            forall|plan: TimedPlan<A>|
                Self::live_of(self.pending(), self.cancelled().insert(id)).contains(plan) <==> self.live().contains(
                    plan,
                ) && plan.plan_id != id,
    {
    }

    /// Plans at one time fire in the order in which they were added: of two plans at the same
    /// time, the one that fires first has the smaller sequence number, and sequence numbers
    /// grow with every plan that is added.
    pub proof fn lemma_ties_fire_in_insertion_order(plans: Set<TimedPlan<A>>, first: TimedPlan<A>,
        other: TimedPlan<A>)
        requires
            Self::is_first(plans, first),
            plans.contains(other),
            other != first,
            other.time == first.time,
        ensures
            first.plan_id < other.plan_id,
    {
    }

    /// The plan that fires first is the only one that does.
    pub proof fn lemma_first_is_unique(plans: Set<TimedPlan<A>>, first: TimedPlan<A>, other: TimedPlan<A>)
        requires
            Self::is_first(plans, first),
            Self::is_first(plans, other),
        ensures
            first == other,
    {
    }

    /// A queue without pending plans has no live plan.
    pub proof fn lemma_drained_is_idle(&self)
        requires
            self.pending() == Set::<TimedPlan<A>>::empty(),
        ensures
            self.live() == Set::<TimedPlan<A>>::empty(),
    {
        assert(self.live() =~= Set::<TimedPlan<A>>::empty());
    }

    pub fn new() -> (queue: PlanQueue<A>)
        ensures
            queue.wf(),
            queue.pending() == Set::<TimedPlan<A>>::empty(),
            queue.cancelled() == Set::<u64>::empty(),
            queue.next_id() == 0,
    {
        let queue = PlanQueue { queue: Vec::new(), invalid_set: HashSet::new(), plan_counter: 0 };
        assert(queue.queue@.to_set() =~= Set::<TimedPlan<A>>::empty());
        queue
    }

    /// The sequence number that the next plan gets.
    pub fn next_plan_id(&self) -> (id: u64)
        ensures
            id == self.next_id(),
    {
        self.plan_counter
    }

    /// Schedules `callback` at `time` under the next sequence number.
    pub fn add_plan(&mut self, time: u64, callback: A) -> (id: PlanId)
        requires
            old(self).wf(),
            old(self).next_id() < u64::MAX,
        ensures
            final(self).wf(),
            id.id == old(self).next_id(),
            final(self).next_id() == old(self).next_id() + 1,
            final(self).cancelled() == old(self).cancelled(),
            final(self).pending() == old(self).pending().insert(
                (TimedPlan { time, plan_id: id.id, callback }),
            ),
    {
        let plan_id = self.plan_counter;
        let plan = TimedPlan { time, plan_id, callback };
        let ghost before = self.queue@;
        self.queue.push(plan);
        self.plan_counter += 1;
        let mut at: usize = self.queue.len() - 1;
        proof {
            let pushed = self.queue@;
            assert(pushed == before.push(plan));
            assert(pushed.to_set() =~= before.to_set().insert(plan)) by {
                assert forall|p: TimedPlan<A>| pushed.to_set().contains(p) implies before.to_set().insert(
                    plan,
                ).contains(p) by {
                    let i = choose|i: int| 0 <= i < pushed.len() && pushed[i] == p;
                    if i < before.len() {
                        assert(before[i] == p);
                    }
                }
                assert forall|p: TimedPlan<A>| before.to_set().insert(plan).contains(p) implies pushed.to_set().contains(
                    p,
                ) by {
                    if p == plan {
                        assert(pushed[before.len() as int] == p);
                    } else {
                        let i = choose|i: int| 0 <= i < before.len() && before[i] == p;
                        assert(pushed[i] == p);
                    }
                }
            }
            assert forall|k: int| 0 <= k < pushed.len() && k != at implies #[trigger] Self::ordered_at(
                pushed,
                k,
            ) by {
                assert(Self::ordered_at(before, k));
            }
            assert forall|i: int| 0 <= i < pushed.len() implies (#[trigger] pushed[i]).plan_id
                < self.plan_counter by {
                if i < before.len() {
                    assert(pushed[i] == before[i]);
                }
            }
            assert forall|i: int, j: int| 0 <= i < j < pushed.len() implies (#[trigger] pushed[i]).plan_id != (
            #[trigger] pushed[j]).plan_id by {
                assert(pushed[i] == before[i]);
                if j < before.len() {
                    assert(pushed[j] == before[j]);
                }
            }
        }
        while at > 0 && self.queue[at].precedes(&self.queue[(at - 1) / 2])
            invariant
                at < self.queue.len(),
                self.plan_counter == old(self).plan_counter + 1,
                self.invalid_set == old(self).invalid_set,
                self.queue@.to_set() == before.to_set().insert(plan),
                Self::numbered(self.queue@, self.plan_counter),
                forall|k: int| 0 <= k < self.queue.len() && k != at ==> #[trigger] Self::ordered_at(self.queue@, k),
                forall|k: int| 0 <= k < self.queue.len() ==> #[trigger] Self::bridged_at(self.queue@, at as int, k),
            decreases at,
        {
            let above: usize = (at - 1) / 2;
            let ghost heap = self.queue@;
            let lower = self.queue[at];
            let upper = self.queue[above];
            self.queue[at] = upper;
            self.queue[above] = lower;
            proof {
                let swapped = self.queue@;
                assert(swapped == heap.update(at as int, heap[above as int]).update(above as int, heap[at as int]));
                Self::lemma_exchange(heap, at as int, above as int, self.plan_counter);
                assert forall|k: int| 0 <= k < swapped.len() && k != above implies #[trigger] Self::ordered_at(
                    swapped,
                    k,
                ) by {
                    if k > 0 {
                        let up = (k - 1) / 2;
                        if k == at {
                        } else if up == at {
                            assert(Self::bridged_at(heap, at as int, k));
                        } else if up == above {
                            assert(Self::ordered_at(heap, k));
                        } else {
                            assert(Self::ordered_at(heap, k));
                        }
                    }
                }
                assert forall|k: int| 0 <= k < swapped.len() implies #[trigger] Self::bridged_at(
                    swapped,
                    above as int,
                    k,
                ) by {
                    if k > 0 && above > 0 && (k - 1) / 2 == above {
                        assert(Self::ordered_at(heap, above as int));
                        if k != at {
                            assert(Self::ordered_at(heap, k));
                        }
                    }
                }
            }
            at = above;
        }
        proof {
            assert forall|k: int| 0 <= k < self.queue.len() implies #[trigger] Self::ordered_at(self.queue@, k) by {
                if k != at {
                    assert(Self::ordered_at(self.queue@, k));
                }
            }
        }
        PlanId { id: plan_id }
    }

    /// Marks the plan as cancelled; it will be skipped when its turn comes.
    pub fn cancel_plan(&mut self, id: PlanId)
        requires
            old(self).wf(),
        ensures
            final(self).wf(),
            final(self).pending() == old(self).pending(),
            final(self).next_id() == old(self).next_id(),
            final(self).cancelled() == old(self).cancelled().insert(id.id),
    {
        self.invalid_set.insert(id.id);
    }

    /// Takes the root out of the heap: the pending plan before which no other fires.
    fn take_first(&mut self) -> (first: Option<TimedPlan<A>>)
        requires
            old(self).wf(),
        ensures
            final(self).wf(),
            final(self).plan_counter == old(self).plan_counter,
            final(self).invalid_set == old(self).invalid_set,
            match first {
                Some(plan) => {
                    &&& old(self).pending().contains(plan)
                    &&& forall|q: TimedPlan<A>| #[trigger]
                        old(self).pending().contains(q) && q != plan ==> plan.precedes_spec(&q)
                    &&& final(self).pending() == old(self).pending().remove(plan)
                },
                None => old(self).pending() == Set::<TimedPlan<A>>::empty() && final(self).pending()
                    == Set::<TimedPlan<A>>::empty(),
            },
    {
        let ghost before = self.queue@;
        let last = match self.queue.pop() {
            Some(last) => last,
            None => {
                assert(before.to_set() =~= Set::<TimedPlan<A>>::empty());
                return None;
            },
        };
        let len = self.queue.len();
        proof {
            assert forall|q: TimedPlan<A>| #[trigger] before.to_set().contains(q) &&
                q != before[0] implies before[0].precedes_spec(
                &q,
            ) by {
                let k = choose|k: int| 0 <= k < before.len() && before[k] == q;
                Self::lemma_root_is_first(before, k);
                if k > 0 {
                    assert(before[0].plan_id != before[k].plan_id);
                }
            }
        }
        if len == 0 {
            proof {
                assert(before =~= seq![last]);
                assert(self.queue@.to_set() =~= before.to_set().remove(last));
            }
            return Some(last);
        }
        let first = self.queue[0];
        self.queue[0] = last;
        proof {
            let heap = self.queue@;
            assert(heap =~= before.drop_last().update(0, before.last()));
            assert(heap.to_set() =~= before.to_set().remove(first)) by {
                assert forall|p: TimedPlan<A>| heap.to_set().contains(p) implies before.to_set().remove(
                    first,
                ).contains(p) by {
                    let k = choose|k: int| 0 <= k < heap.len() && heap[k] == p;
                    if k == 0 {
                        assert(before[len as int] == p);
                        assert(before[0].plan_id != before[len as int].plan_id);
                    } else {
                        assert(before[k] == p);
                        assert(before[0].plan_id != before[k].plan_id);
                    }
                }
                assert forall|p: TimedPlan<A>| before.to_set().remove(first).contains(p) implies heap.to_set().contains(
                    p,
                ) by {
                    let k = choose|k: int| 0 <= k < before.len() && before[k] == p;
                    if k == len {
                        assert(heap[0] == p);
                    } else {
                        assert(heap[k] == p);
                    }
                }
            }
            assert forall|i: int| 0 <= i < heap.len() implies (#[trigger] heap[i]).plan_id
                < self.plan_counter by {
                if i == 0 {
                    assert(heap[i] == before[len as int]);
                } else {
                    assert(heap[i] == before[i]);
                }
            }
            assert forall|i: int, j: int| 0 <= i < j < heap.len() implies (#[trigger] heap[i]).plan_id != (
            #[trigger] heap[j]).plan_id by {
                assert(heap[j] == before[j]);
                if i == 0 {
                    assert(heap[i] == before[len as int]);
                    assert(before[j].plan_id != before[len as int].plan_id);
                } else {
                    assert(heap[i] == before[i]);
                }
            }
            assert forall|k: int| 0 <= k < heap.len() && (k - 1) / 2 != 0 implies #[trigger] Self::ordered_at(
                heap,
                k,
            ) by {
                assert(Self::ordered_at(before, k));
            }
            assert(Self::ordered_at(heap, 0));
        }
        let mut at: usize = 0;
        let mut settled = false;
        while !settled && len >= 2 && at <= (len - 2) / 2
            invariant
                len == self.queue.len(),
                at < len,
                self.plan_counter == old(self).plan_counter,
                self.invalid_set == old(self).invalid_set,
                self.queue@.to_set() == before.to_set().remove(first),
                Self::numbered(self.queue@, self.plan_counter),
                forall|k: int|
                    0 <= k < len && !(k > 0 && (k - 1) / 2 == at) ==> #[trigger] Self::ordered_at(self.queue@, k),
                forall|k: int| 0 <= k < len ==> #[trigger] Self::bridged_at(self.queue@, at as int, k),
                settled ==> Self::heap_ordered(self.queue@),
            decreases (if settled { 0int } else { 1int }), len - at,
        {
            let left: usize = 2 * at + 1;
            let right: usize = left + 1;
            let below: usize = if right < len && self.queue[right].precedes(&self.queue[left]) {
                right
            } else {
                left
            };
            let ghost heap = self.queue@;
            if self.queue[below].precedes(&self.queue[at]) {
                let lower = self.queue[below];
                let upper = self.queue[at];
                self.queue[below] = upper;
                self.queue[at] = lower;
                proof {
                    let swapped = self.queue@;
                    assert(swapped == heap.update(below as int, heap[at as int]).update(
                        at as int,
                        heap[below as int],
                    ));
                    Self::lemma_exchange(heap, below as int, at as int, self.plan_counter);
                    assert forall|k: int|
                        0 <= k < len && !(k > 0 && (k - 1) / 2 == below) implies #[trigger] Self::ordered_at(
                        swapped,
                        k,
                    ) by {
                        if k > 0 {
                            let up = (k - 1) / 2;
                            if k == below {
                            } else if up == at {
                                assert(k == left || k == right);
                            } else if k == at {
                                assert(Self::bridged_at(heap, at as int, below as int));
                            } else {
                                assert(Self::ordered_at(heap, k));
                            }
                        }
                    }
                    assert forall|k: int| 0 <= k < len implies #[trigger] Self::bridged_at(
                        swapped,
                        below as int,
                        k,
                    ) by {
                        if k > 0 && (k - 1) / 2 == below {
                            assert(Self::ordered_at(heap, k));
                        }
                    }
                }
                at = below;
            } else {
                proof {
                    assert forall|k: int| 0 <= k < len implies #[trigger] Self::ordered_at(heap, k) by {
                        if k > 0 && (k - 1) / 2 == at {
                            assert(k == left || k == right);
                        }
                    }
                }
                settled = true;
            }
        }
        proof {
            if !settled {
                assert forall|k: int| 0 <= k < len implies #[trigger] Self::ordered_at(self.queue@, k) by {
                    assert(k > 0 && (k - 1) / 2 == at ==> k >= 2 * at + 1);
                }
            }
        }
        Some(first)
    }

    /// Takes out the live plan that fires first, and with it the cancelled plans before it.
    pub fn get_next_timed_plan(&mut self) -> (next: Option<TimedPlan<A>>)
        requires
            old(self).wf(),
        ensures
            final(self).wf(),
            final(self).next_id() == old(self).next_id(),
            match next {
                Some(plan) => {
                    &&& Self::is_first(old(self).live(), plan)
                    &&& Self::popped(old(self), final(self), plan)
                },
                None => {
                    &&& old(self).live() == Set::<TimedPlan<A>>::empty()
                    &&& Self::drained(old(self), final(self))
                },
            },
    {
        let ghost skipped: Set<TimedPlan<A>> = Set::empty();
        proof {
            assert(old(self).pending().difference(skipped) =~= self.pending());
            assert(skipped.map(sequence_number::<A>()) =~= Set::<u64>::empty());
            assert(old(self).cancelled().difference(skipped.map(sequence_number::<A>())) =~= self.cancelled());
            old(self).lemma_sequence_numbers();
        }
        loop
            invariant
                self.wf(),
                old(self).wf(),
                self.plan_counter == old(self).plan_counter,
                old(self).pending().finite(),
                skipped.subset_of(old(self).pending()),
                self.pending() == old(self).pending().difference(skipped),
                forall|p: TimedPlan<A>| #[trigger] skipped.contains(p) ==> old(self).cancelled().contains(p.plan_id),
                forall|p: TimedPlan<A>, q: TimedPlan<A>|
                    #[trigger] skipped.contains(p) && #[trigger] self.pending().contains(q) ==> p.precedes_spec(
                        &q,
                    ),
                self.cancelled() == old(self).cancelled().difference(skipped.map(sequence_number::<A>())),
            decreases self.pending().len(),
        {
            let ghost pending = self.pending();
            let ghost notes = self.cancelled();
            proof {
                vstd::set_lib::lemma_len_subset(pending, old(self).pending());
                old(self).lemma_sequence_numbers();
            }
            match self.take_first() {
                Some(plan) => {
                    if self.invalid_set.contains(&plan.plan_id) {
                        self.invalid_set.remove(&plan.plan_id);
                        proof {
                            let more = skipped.insert(plan);
                            assert(more.map(sequence_number::<A>()) =~= skipped.map(sequence_number::<A>()).insert(
                                plan.plan_id,
                            )) by {
                                assert forall|id: u64| more.map(sequence_number::<A>()).contains(
                                    id,
                                ) implies skipped.map(sequence_number::<A>()).insert(plan.plan_id).contains(id) by {
                                    let p = choose|p: TimedPlan<A>| more.contains(p) &&
                                        sequence_number::<A>()(p) == id;
                                    if p != plan {
                                        assert(skipped.contains(p));
                                    }
                                }
                                assert forall|id: u64|
                                    skipped.map(sequence_number::<A>()).insert(plan.plan_id).contains(
                                        id,
                                    ) implies more.map(sequence_number::<A>()).contains(id) by {
                                    if id == plan.plan_id {
                                        assert(more.contains(plan));
                                    } else {
                                        let p = choose|p: TimedPlan<A>|
                                            skipped.contains(p) && sequence_number::<A>()(p) == id;
                                        assert(more.contains(p));
                                    }
                                }
                            }
                            assert(self.pending() =~= old(self).pending().difference(more));
                            assert(self.cancelled() =~= old(self).cancelled().difference(
                                more.map(sequence_number::<A>()),
                            ));
                            skipped = more;
                        }
                    } else {
                        proof {
                            assert(Self::is_first(old(self).live(), plan)) by {
                                assert(old(self).pending().contains(plan));
                                if old(self).cancelled().contains(plan.plan_id) {
                                    assert(skipped.map(sequence_number::<A>()).contains(plan.plan_id));
                                    let p = choose|p: TimedPlan<A>|
                                        skipped.contains(p) && sequence_number::<A>()(p) == plan.plan_id;
                                    assert(old(self).pending().contains(p));
                                    assert(p == plan);
                                    assert(pending.contains(plan));
                                }
                                assert forall|q: TimedPlan<A>| #[trigger]
                                    old(self).live().contains(q) && q != plan implies plan.precedes_spec(&q) by {
                                    if skipped.contains(q) {
                                        assert(old(self).cancelled().contains(q.plan_id));
                                    } else {
                                        assert(pending.contains(q));
                                    }
                                }
                            }
                            assert(self.pending() =~= old(self).pending().filter(after_plan(plan))) by {
                                assert forall|q: TimedPlan<A>| self.pending().contains(q) implies old(
                                    self,
                                ).pending().filter(after_plan(plan)).contains(q) by {
                                    assert(pending.contains(q) && q != plan);
                                }
                                assert forall|q: TimedPlan<A>|
                                    old(self).pending().filter(after_plan(plan)).contains(
                                        q,
                                    ) implies self.pending().contains(q) by {
                                    if skipped.contains(q) {
                                        assert(pending.contains(plan));
                                        assert(q.precedes_spec(&plan));
                                    }
                                }
                            }
                            assert(skipped =~= old(self).pending().filter(before_plan(plan))) by {
                                assert forall|q: TimedPlan<A>| skipped.contains(q) implies old(self).pending().filter(
                                    before_plan(plan),
                                ).contains(q) by {
                                    assert(pending.contains(plan));
                                }
                                assert forall|q: TimedPlan<A>|
                                    old(self).pending().filter(before_plan(plan)).contains(
                                        q,
                                    ) implies skipped.contains(q) by {
                                    if !skipped.contains(q) {
                                        assert(pending.contains(q));
                                    }
                                }
                            }
                        }
                        return Some(plan);
                    }
                },
                None => {
                    proof {
                        assert forall|p: TimedPlan<A>| old(self).pending().contains(p) implies skipped.contains(
                            p,
                        ) by {
                            if !skipped.contains(p) {
                                assert(pending.contains(p));
                            }
                        }
                        assert(skipped =~= old(self).pending());
                        assert(old(self).live() =~= Set::<TimedPlan<A>>::empty()) by {
                            assert forall|p: TimedPlan<A>| !old(self).live().contains(p) by {
                                if old(self).pending().contains(p) {
                                    assert(skipped.contains(p));
                                }
                            }
                        }
                    }
                    return None;
                },
            }
        }
    }
}

/// Why a plan cannot be scheduled.
#[derive(Clone, Copy, Debug, PartialEq, Eq, Structural)]
pub enum SchedulingError {
    /// The time is not finite.
    InvalidTime,
    /// The time lies before the clock.
    PastTime,
}

/// The largest time: the bit pattern of the largest finite double. A time is the bit pattern
/// of a finite double that is not negative; such patterns are ordered as their doubles are.
pub const MAX_TIME: u64 = 0x7FEF_FFFF_FFFF_FFFF;

/// The bit pattern of minus zero. The patterns above it, up to `MIN_FINITE`, are those of
/// the negative finite doubles.
pub const MINUS_ZERO: u64 = 0x8000_0000_0000_0000;

/// The bit pattern of the least finite double.
pub const MIN_FINITE: u64 = 0xFFEF_FFFF_FFFF_FFFF;

/// Whether `bits` is the bit pattern of a finite double.
pub open spec fn is_finite(bits: u64) -> bool {
    bits <= MAX_TIME || MINUS_ZERO <= bits <= MIN_FINITE
}

/// The time that a bit pattern stands for: itself if it is a time, zero if it is minus zero,
/// and none if it is the pattern of a negative double or of none that is finite.
pub open spec fn time_of(bits: u64) -> Option<u64> {
    if bits <= MAX_TIME {
        Some(bits)
    } else if bits == MINUS_ZERO {
        Some(0)
    } else {
        None
    }
}

/// What a deferred action is told: what happened, with the values as they were then.
#[derive(Clone, Copy)]
pub enum Event {
    /// Nothing: the action was queued or scheduled as it is.
    Direct,
    /// The person was created.
    PersonCreated(PersonId),
    /// A person property was set.
    PersonPropertyChanged(PersonPropertyChangeEvent),
    /// A person moved to another region.
    PersonRegionChanged(PersonRegionChangeEvent),
    /// A global property was set.
    GlobalPropertyChanged(GlobalPropertyChangeEvent),
}

/// An action that is due, and what it is told.
pub struct Callback<A> {
    pub action: A,
    pub event: Event,
}

/// One callback for each of `actions`, in their order, each told `event`.
pub open spec fn notifications<A>(actions: Seq<A>, event: Event) -> Seq<Callback<A>> {
    Seq::new(actions.len(), |i: int| Callback { action: actions[i], event })
}

/// One callback for each of `actions`, in their order, each told `event`.
pub fn told<A: Copy>(actions: &Vec<A>, event: Event) -> (due: Vec<Callback<A>>)
    ensures
        due@ == notifications(actions@, event),
{
    let mut due: Vec<Callback<A>> = Vec::new();
    let mut i: usize = 0;
    while i < actions.len()
        invariant
            i <= actions.len(),
            due@ == notifications(actions@.take(i as int), event),
        decreases actions.len() - i,
    {
        due.push(Callback { action: actions[i], event });
        assert(due@ =~= notifications(actions@.take(i + 1), event));
        i += 1;
    }
    assert(actions@.take(i as int) =~= actions@);
    due
}

/// A component of the simulation: it sets itself up on a context.
pub trait Component<A: Copy, D, L: LabelFunction> {
    /// What the component's set-up makes of a context: whether `after` is `before` with the
    /// component set up on it.
    spec fn sets_up(before: &Context<A, D, L>, after: &Context<A, D, L>) -> bool;

    /// Sets the component up on `context`.
    fn init(context: &mut Context<A, D, L>)
        requires
            old(context).wf(),
        ensures
            final(context).wf(),
            Self::sets_up(old(context), final(context)),
    ;
}

/// A module with state of its own in the context: a type that stands for one slot of the
/// state registry, and the state that the slot starts with.
pub trait Plugin {
    type DataContainer;

    /// The slot of this module. Two modules of one context must not share a slot.
    const INDEX: usize;

    /// The state that the slot holds when it is first reached.
    fn get_data_container() -> Self::DataContainer;
}

/// The parts of a context, to say which of them a call leaves as they are.
#[derive(Clone, Copy, Debug, PartialEq, Eq, Structural)]
pub enum Part {
    Plans,
    Callbacks,
    Clock,
    PluginData,
    People,
    PersonProperties,
    Partitions,
    Regions,
    GlobalProperties,
    Groups,
    Reports,
    Random,
}

/// The kernel: the clock, the plans, the deferred callbacks, the state of the modules.
pub struct Context<A, D, L> {
    pub(crate) plan_queue: PlanQueue<A>,
    pub(crate) callback_queue: VecDeque<Callback<A>>,
    pub(crate) plugin_data: Vec<Option<D>>,
    pub(crate) time: u64,
    pub(crate) people: PeopleDataContainer<A>,
    pub(crate) person_properties: PersonPropertyDataContainer<A>,
    pub(crate) partitions: PartitionDataContainer<L>,
    pub(crate) deregistration_callbacks: SubscriberList<A>,
    pub(crate) regions: RegionsDataContainer<A>,
    pub(crate) global_properties: GlobalPropertyDataContainer<A>,
    pub(crate) groups: GroupsDataContainer,
    pub(crate) reports: ReportsDataContainer<A>,
    pub(crate) random: RandomData,
}

impl<A: Copy, D, L: LabelFunction> Context<A, D, L> {
    /// The plans.
    pub open(crate) spec fn plan_queue(&self) -> &PlanQueue<A> {
        &self.plan_queue
    }

    /// The callbacks that are due, the next one first.
    pub open(crate) spec fn callbacks(&self) -> Seq<Callback<A>> {
        self.callback_queue@
    }

    /// The clock.
    pub open(crate) spec fn time(&self) -> u64 {
        self.time
    }

    /// The state in `slot` of the state registry, if the slot was reached.
    pub open(crate) spec fn plugin_data(&self, slot: usize) -> Option<D> {
        if slot < self.plugin_data.len() {
            self.plugin_data[slot as int]
        } else {
            None
        }
    }

    /// The people.
    pub open(crate) spec fn people(&self) -> &PeopleDataContainer<A> {
        &self.people
    }

    /// The person properties.
    pub open(crate) spec fn person_properties(&self) -> &PersonPropertyDataContainer<A> {
        &self.person_properties
    }

    /// The partitions.
    pub open(crate) spec fn partitions(&self) -> &PartitionDataContainer<L> {
        &self.partitions
    }

    /// What is to run when a partition is taken out of the registry, each under the slot of
    /// its partition.
    pub open(crate) spec fn deregistration_callbacks(&self) -> Seq<(usize, A)> {
        self.deregistration_callbacks.entries()
    }

    /// The regions.
    pub open(crate) spec fn regions(&self) -> &RegionsDataContainer<A> {
        &self.regions
    }

    /// The global properties.
    pub open(crate) spec fn global_properties(&self) -> &GlobalPropertyDataContainer<A> {
        &self.global_properties
    }

    /// The groups.
    pub open(crate) spec fn groups(&self) -> &GroupsDataContainer {
        &self.groups
    }

    /// The handlers of the reports.
    pub open(crate) spec fn reports(&self) -> &ReportsDataContainer<A> {
        &self.reports
    }

    /// The random streams.
    pub open(crate) spec fn random(&self) -> &RandomData {
        &self.random
    }

    /// Every part of `after` outside `parts` is what it is in `before`.
    pub open spec fn changes_only(before: &Self, after: &Self, parts: Set<Part>) -> bool {
        &&& parts.contains(Part::Plans) || after.plan_queue() == before.plan_queue()
        &&& parts.contains(Part::Callbacks) || after.callbacks() == before.callbacks()
        &&& parts.contains(Part::Clock) || after.time() == before.time()
        &&& parts.contains(Part::PluginData) || forall|slot: usize|
            after.plugin_data(slot) == before.plugin_data(slot)
        &&& parts.contains(Part::People) || after.people() == before.people()
        &&& parts.contains(Part::PersonProperties) || after.person_properties() == before.person_properties()
        &&& parts.contains(Part::Partitions) || (after.partitions() == before.partitions()
            && after.deregistration_callbacks() == before.deregistration_callbacks())
        &&& parts.contains(Part::Regions) || after.regions() == before.regions()
        &&& parts.contains(Part::GlobalProperties) || after.global_properties() == before.global_properties()
        &&& parts.contains(Part::Groups) || after.groups() == before.groups()
        &&& parts.contains(Part::Reports) || after.reports() == before.reports()
        &&& parts.contains(Part::Random) || after.random() == before.random()
    }

    /// How many people were created.
    pub open spec fn population(&self) -> nat {
        self.people().population()
    }

    /// Everything that `wf` asks but for the record of the regions in the person properties:
    /// the plan queue is in order, no plan lies before the clock, only people that exist have
    /// a region, the two records of
    /// who is in which group agree, and every partition files every person under the label
    /// that its label function gives the person on the properties as they are, and nobody
    /// anywhere else.
    pub open spec fn wf_apart_from_regions(&self) -> bool {
        &&& self.plan_queue().wf()
        &&& self.no_plan_in_the_past()
        &&& self.population() <= usize::MAX
        &&& self.regions().count() <= usize::MAX
        &&& self.regions().region_map().len() <= self.population()
        &&& self.groups().wf()
        &&& self.partitions().consistent(self.person_properties().store(), self.population())
    }

    /// The cell of each person that has a region, in the column of the regions,
    /// holds the number of that region.
    pub open spec fn regions_mirrored(&self) -> bool {
        forall|person: usize|
            person < self.regions().region_map().len() ==> {
                &&& #[trigger] self.person_properties().store().cells().contains_key((Column::Region, person))
                &&& self.person_properties().store().cells()[(Column::Region, person)]
                    == self.regions().region_map()[person as int].id as u64
            }
    }

    /// What every call relies on and leaves in place: `wf_apart_from_regions`, and the
    /// regions of the people stand in the person properties as they stand with the regions.
    pub open spec fn wf(&self) -> bool {
        &&& self.wf_apart_from_regions()
        &&& self.regions_mirrored()
    }

    /// The clock is a time, and every pending plan is at a time that does not lie before the
    /// clock.
    pub open spec fn no_plan_in_the_past(&self) -> bool {
        &&& self.time() <= MAX_TIME
        &&& forall|plan: TimedPlan<A>| #[trigger]
            self.plan_queue().pending().contains(plan) ==> self.time() <= plan.time <= MAX_TIME
    }

    pub fn new() -> (context: Context<A, D, L>)
        ensures
            context.wf(),
            context.time() == 0,
            context.callbacks() == Seq::<Callback<A>>::empty(),
            context.plan_queue().pending() == Set::<TimedPlan<A>>::empty(),
            context.plan_queue().cancelled() == Set::<u64>::empty(),
            context.plan_queue().next_id() == 0,
            context.population() == 0,
            forall|slot: usize| context.plugin_data(slot) is None,
            forall|slot: usize| context.partitions().partition(slot) is None,
            context.deregistration_callbacks() == Seq::<(usize, A)>::empty(),
            context.person_properties().store().cells() == Map::<(Column, usize), u64>::empty(),
            context.person_properties().observers() == Seq::<(usize, A)>::empty(),
            context.people().creation_observers() == Seq::<(usize, A)>::empty(),
            context.people().creation_immediate_callbacks() == Seq::<(usize, A)>::empty(),
            context.regions().count() == 0,
            context.regions().region_map() == Seq::<crate::regions::RegionId>::empty(),
            context.regions().store().cells() == Map::<(usize, usize), u64>::empty(),
            context.regions().observers() == Seq::<(usize, A)>::empty(),
            context.global_properties().values() == Map::<usize, u64>::empty(),
            context.global_properties().observers() == Seq::<(usize, A)>::empty(),
            forall|slot: usize| context.groups().max_id(slot) is None,
            forall|slot: usize| !context.groups().has_members(slot),
            forall|slot: usize, group: usize| context.groups().members(slot, group) == Set::<PersonId>::empty(),
            forall|slot: usize, person: usize| context.groups().groups_of(slot, person) == Set::<usize>::empty(),
            forall|slot: usize| context.reports().handler(slot) is None,
            context.random().base_seed() == 0,
            forall|slot: usize| context.random().pending(slot) is None,
            forall|slot: usize| context.random().generator(slot) is None,
    {
        Context {
            plan_queue: PlanQueue::new(),
            callback_queue: VecDeque::new(),
            plugin_data: Vec::new(),
            time: 0,
            people: PeopleDataContainer::new(),
            person_properties: PersonPropertyDataContainer::new(),
            partitions: PartitionDataContainer::new(),
            deregistration_callbacks: SubscriberList::new(),
            regions: RegionsDataContainer::new(),
            global_properties: GlobalPropertyDataContainer::new(),
            groups: GroupsDataContainer::new(),
            reports: ReportsDataContainer::new(),
            random: RandomData::new(),
        }
    }

    /// The sequence number that the next plan gets.
    pub fn next_plan_id(&self) -> (id: u64)
        ensures
            id == self.plan_queue().next_id(),
    {
        self.plan_queue.next_plan_id()
    }

    /// Schedules `callback` at the time whose bit pattern is `bits`, if that is a finite time
    /// that does not lie before the clock. A negative time lies before every clock.
    pub fn add_plan(&mut self, bits: u64, callback: A) -> (scheduled: Result<PlanId, SchedulingError>)
        requires
            old(self).wf(),
            old(self).plan_queue().next_id() < u64::MAX,
        ensures
            final(self).wf(),
            match scheduled {
                Ok(id) => {
                    &&& time_of(bits) is Some
                    &&& time_of(bits)->0 >= old(self).time()
                    &&& id.id == old(self).plan_queue().next_id()
                    &&& final(self).plan_queue().next_id() == old(self).plan_queue().next_id() + 1
                    &&& final(self).plan_queue().cancelled() == old(self).plan_queue().cancelled()
                    &&& final(self).plan_queue().pending() == old(self).plan_queue().pending().insert(
                        (TimedPlan { time: time_of(bits)->0, plan_id: id.id, callback }),
                    )
                    &&& Self::changes_only(old(self), final(self), set![Part::Plans])
                },
                Err(SchedulingError::InvalidTime) => !is_finite(bits) && *final(self) == *old(self),
                Err(SchedulingError::PastTime) => {
                    &&& is_finite(bits)
                    &&& time_of(bits) is None || time_of(bits)->0 < old(self).time()
                    &&& *final(self) == *old(self)
                },
            },
    {
        if bits > MAX_TIME && (bits < MINUS_ZERO || bits > MIN_FINITE) {
            return Err(SchedulingError::InvalidTime);
        }
        if bits > MINUS_ZERO {
            return Err(SchedulingError::PastTime);
        }
        let time: u64 = if bits == MINUS_ZERO { 0 } else { bits };
        if time < self.time {
            return Err(SchedulingError::PastTime);
        }
        Ok(self.plan_queue.add_plan(time, callback))
    }

    /// Cancels the plan of `id`: it will not fire. Of a plan that fired or was cancelled
    /// before, nothing changes but the note that is taken.
    pub fn cancel_plan(&mut self, id: PlanId)
        requires
            old(self).wf(),
        ensures
            final(self).wf(),
            final(self).plan_queue().pending() == old(self).plan_queue().pending(),
            final(self).plan_queue().next_id() == old(self).plan_queue().next_id(),
            final(self).plan_queue().cancelled() == old(self).plan_queue().cancelled().insert(id.id),
            Self::changes_only(old(self), final(self), set![Part::Plans]),
    {
        self.plan_queue.cancel_plan(id);
    }

    /// Puts `callback` behind the callbacks that are due.
    pub fn queue_callback(&mut self, callback: A)
        requires
            old(self).wf(),
        ensures
            final(self).wf(),
            final(self).callbacks() == old(self).callbacks().push(
                (Callback { action: callback, event: Event::Direct }),
            ),
            Self::changes_only(old(self), final(self), set![Part::Callbacks]),
    {
        self.callback_queue.push_back(Callback { action: callback, event: Event::Direct });
    }

    /// The clock: the time of the plan that fired last, or zero.
    pub fn get_time(&self) -> (time: u64)
        ensures
            time == self.time(),
    {
        self.time
    }

    /// Puts `container` into the slot of module `T`, which was not reached before, and hands
    /// it out.
    pub fn add_plugin<T: Plugin<DataContainer = D>>(&mut self, container: D) -> (installed: &mut D)
        requires
            old(self).wf(),
            old(self).plugin_data(T::INDEX) is None,
            T::INDEX < usize::MAX,
        ensures
            *installed == container,
            final(self).wf(),
            final(self).plugin_data(T::INDEX) == Some(*final(installed)),
            forall|slot: usize| slot != T::INDEX ==> final(self).plugin_data(slot) == old(self).plugin_data(slot),
            Self::changes_only(old(self), final(self), set![Part::PluginData]),
    {
        while self.plugin_data.len() <= T::INDEX
            invariant
                self.wf(),
                Self::changes_only(old(self), self, set![Part::PluginData]),
                forall|slot: usize| self.plugin_data(slot) == old(self).plugin_data(slot),
            decreases T::INDEX + 1 - self.plugin_data.len(),
        {
            self.plugin_data.push(None);
        }
        self.plugin_data[T::INDEX] = Some(container);
        assert(self.no_plan_in_the_past());
        assert(self.wf_apart_from_regions());
        assert(self.regions_mirrored());
        match &mut self.plugin_data[T::INDEX] {
            Some(installed) => installed,
            None => vstd::pervasive::unreached(),
        }
    }

    /// The state of module `T`, to read and to write. The slot is filled on the first reach,
    /// with what `T::get_data_container` gives then, and never again.
    pub fn get_data_container_mut<T: Plugin<DataContainer = D>>(&mut self) -> (container: &mut D)
        requires
            old(self).wf(),
            T::INDEX < usize::MAX,
        ensures
            old(self).plugin_data(T::INDEX) is Some ==> *container == old(self).plugin_data(T::INDEX)->0,
            old(self).plugin_data(T::INDEX) is None ==> call_ensures(T::get_data_container, (), *container),
            final(self).wf(),
            final(self).plugin_data(T::INDEX) == Some(*final(container)),
            forall|slot: usize| slot != T::INDEX ==> final(self).plugin_data(slot) == old(self).plugin_data(slot),
            Self::changes_only(old(self), final(self), set![Part::PluginData]),
    {
        if T::INDEX < self.plugin_data.len() && self.plugin_data[T::INDEX].is_some() {
            match &mut self.plugin_data[T::INDEX] {
                Some(container) => container,
                None => vstd::pervasive::unreached(),
            }
        } else {
            self.add_plugin::<T>(T::get_data_container())
        }
    }

    /// The state of module `T`, if its slot was reached.
    pub fn get_data_container<T: Plugin<DataContainer = D>>(&self) -> (container: Option<&D>)
        ensures
            match container {
                Some(state) => self.plugin_data(T::INDEX) == Some(*state),
                None => self.plugin_data(T::INDEX) is None,
            },
    {
        if T::INDEX < self.plugin_data.len() {
            self.plugin_data[T::INDEX].as_ref()
        } else {
            None
        }
    }

    /// Has component `T` set itself up on this context: the context is handed to `T::init` as
    /// it is, and comes back as `T::init` leaves it.
    pub fn add_component<T: Component<A, D, L>>(&mut self)
        requires
            old(self).wf(),
        ensures
            final(self).wf(),
            T::sets_up(old(self), final(self)),
    {
        T::init(self);
    }

    /// Puts one callback for each of `actions` behind the callbacks that are due, each told
    /// `event`.
    pub fn notify(&mut self, actions: &Vec<A>, event: Event)
        requires
            old(self).wf(),
        ensures
            final(self).wf(),
            final(self).callbacks() == old(self).callbacks() + notifications(actions@, event),
            Self::changes_only(old(self), final(self), set![Part::Callbacks]),
    {
        let mut i: usize = 0;
        while i < actions.len()
            invariant
                i <= actions.len(),
                self.wf(),
                Self::changes_only(old(self), self, set![Part::Callbacks]),
                self.callbacks() == old(self).callbacks() + notifications(actions@.take(i as int), event),
            decreases actions.len() - i,
        {
            let ghost before = self.callbacks();
            self.callback_queue.push_back(Callback { action: actions[i], event });
            assert(self.callbacks() =~= old(self).callbacks() + notifications(actions@.take(i + 1), event));
            i += 1;
        }
        assert(actions@.take(i as int) =~= actions@);
    }

    /// Nothing is left to run: no callback is due and no live plan is pending.
    pub open spec fn is_idle(&self) -> bool {
        &&& self.callbacks().len() == 0
        &&& self.plan_queue().live() == Set::<TimedPlan<A>>::empty()
    }

    /// Takes out what is to run next: the first callback that is due, or, when none is due,
    /// the live plan that fires first, to whose time the clock then moves. The caller runs
    /// the action and comes back. `None` says that nothing is left to run.
    pub fn step(&mut self) -> (next: Option<Callback<A>>)
        requires
            old(self).wf(),
        ensures
            final(self).wf(),
            Self::changes_only(old(self), final(self), set![Part::Plans, Part::Callbacks, Part::Clock]),
            old(self).callbacks().len() > 0 ==> {
                &&& next == Some(old(self).callbacks()[0])
                &&& final(self).callbacks() == old(self).callbacks().skip(1)
                &&& final(self).time() == old(self).time()
                &&& final(self).plan_queue() == old(self).plan_queue()
            },
            old(self).callbacks().len() == 0 ==> {
                &&& final(self).callbacks() == old(self).callbacks()
                &&& final(self).plan_queue().wf()
                &&& final(self).plan_queue().next_id() == old(self).plan_queue().next_id()
                &&& match next {
                    Some(callback) => {
                        &&& callback.event is Direct
                        &&& exists|plan: TimedPlan<A>|
                            {
                                &&& PlanQueue::is_first(old(self).plan_queue().live(), plan)
                                &&& #[trigger] PlanQueue::popped(old(self).plan_queue(),
                                    final(self).plan_queue(), plan)
                                &&& callback.action == plan.callback
                                &&& final(self).time() == plan.time
                            }
                    },
                    None => {
                        &&& old(self).plan_queue().live() == Set::<TimedPlan<A>>::empty()
                        &&& PlanQueue::drained(old(self).plan_queue(), final(self).plan_queue())
                        &&& final(self).time() == old(self).time()
                    },
                }
            },
            next is None ==> old(self).is_idle() && final(self).is_idle(),
            final(self).time() >= old(self).time(),
    {
        match self.callback_queue.pop_front() {
            Some(callback) => {
                assert(self.callback_queue@ =~= old(self).callback_queue@.skip(1));
                Some(callback)
            },
            None => {
                match self.plan_queue.get_next_timed_plan() {
                    Some(plan) => {
                        self.time = plan.time;
                        Some(Callback { action: plan.callback, event: Event::Direct })
                    },
                    None => {
                        proof {
                            self.plan_queue.lemma_drained_is_idle();
                        }
                        None
                    },
                }
            },
        }
    }
}

impl<A: Copy, D, L: LabelFunction> Default for Context<A, D, L> {
    fn default() -> (context: Context<A, D, L>)
        ensures
            context.wf(),
            context.time() == 0,
            context.callbacks() == Seq::<Callback<A>>::empty(),
            context.plan_queue().pending() == Set::<TimedPlan<A>>::empty(),
            context.population() == 0,
    {
        Context::new()
    }
}

} // verus!
