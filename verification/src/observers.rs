use vstd::prelude::*;

verus! {

/// The subscribers of a module, each under a key, in the order in which they came. The list
/// owns its entries; whoever notifies copies the action out of it.
pub struct SubscriberList<A> {
    entries: Vec<(usize, A)>,
}

/// Whether an entry stands under `key`.
pub open spec fn under_key<A>(key: usize) -> spec_fn((usize, A)) -> bool {
    |entry: (usize, A)| entry.0 == key
}

/// Whether an entry stands under another key than `key`.
pub open spec fn not_under_key<A>(key: usize) -> spec_fn((usize, A)) -> bool {
    |entry: (usize, A)| entry.0 != key
}

/// The action of an entry.
pub open spec fn action_part<A>() -> spec_fn((usize, A)) -> A {
    |entry: (usize, A)| entry.1
}

/// The actions of the entries of `entries` that stand under `key`, in order.
pub open spec fn actions_under<A>(entries: Seq<(usize, A)>, key: usize) -> Seq<A> {
    entries.filter(under_key(key)).map_values(action_part())
}

/// One entry under `key` for each of `actions`, in their order.
pub open spec fn keyed<A>(key: usize, actions: Seq<A>) -> Seq<(usize, A)> {
    Seq::new(actions.len(), |i: int| (key, actions[i]))
}

/// The actions of all the entries of `entries`, in order.
pub open spec fn actions_of<A>(entries: Seq<(usize, A)>) -> Seq<A> {
    entries.map_values(action_part())
}

impl<A: Copy> SubscriberList<A> {
    /// The entries, oldest first.
    pub closed spec fn entries(&self) -> Seq<(usize, A)> {
        self.entries@
    }

    pub fn new() -> (list: SubscriberList<A>)
        ensures
            list.entries() == Seq::<(usize, A)>::empty(),
    {
        SubscriberList { entries: Vec::new() }
    }

    /// Adds `action` under `key`, after the entries that are there.
    pub fn add(&mut self, key: usize, action: A)
        ensures
            final(self).entries() == old(self).entries().push((key, action)),
    {
        self.entries.push((key, action));
    }

    /// Adds each of `actions` under `key`, in their order, after the entries that are there.
    pub fn add_all(&mut self, key: usize, actions: &Vec<A>)
        ensures
            final(self).entries() == old(self).entries() + keyed(key, actions@),
    {
        let mut i: usize = 0;
        assert(self.entries@ =~= old(self).entries@ + keyed(key, actions@.take(0)));
        while i < actions.len()
            invariant
                i <= actions.len(),
                self.entries@ == old(self).entries@ + keyed(key, actions@.take(i as int)),
            decreases actions.len() - i,
        {
            self.entries.push((key, actions[i]));
            assert(self.entries@ =~= old(self).entries@ + keyed(key, actions@.take(i + 1)));
            i += 1;
        }
        assert(actions@.take(i as int) =~= actions@);
    }

    /// Takes out every entry under `key`.
    pub fn remove(&mut self, key: usize)
        ensures
            final(self).entries() == old(self).entries().filter(not_under_key(key)),
    {
        let ghost keep = not_under_key::<A>(key);
        let mut kept: Vec<(usize, A)> = Vec::new();
        let mut i: usize = 0;
        while i < self.entries.len()
            invariant
                i <= self.entries.len(),
                self.entries@ == old(self).entries@,
                keep == not_under_key::<A>(key),
                kept@ == self.entries@.take(i as int).filter(keep),
            decreases self.entries.len() - i,
        {
            let entry = self.entries[i];
            proof {
                assert(self.entries@.take(i + 1) =~= self.entries@.take(i as int).push(entry));
                lemma_filter_push(self.entries@.take(i as int), entry, keep);
            }
            if entry.0 != key {
                kept.push(entry);
            }
            i += 1;
        }
        assert(self.entries@.take(i as int) =~= self.entries@);
        self.entries = kept;
    }

    /// Puts `action` under `key` in place of whatever stood under it.
    pub fn replace(&mut self, key: usize, action: A)
        ensures
            final(self).entries() == old(self).entries().filter(not_under_key(key)).push((key, action)),
    {
        self.remove(key);
        self.entries.push((key, action));
    }

    /// The actions under `key`, oldest first.
    pub fn under(&self, key: usize) -> (actions: Vec<A>)
        ensures
            actions@ == actions_under(self.entries(), key),
    {
        let mut actions: Vec<A> = Vec::new();
        let mut i: usize = 0;
        assert(self.entries@.take(0) =~= Seq::<(usize, A)>::empty());
        while i < self.entries.len()
            invariant
                i <= self.entries.len(),
                actions@ == actions_under(self.entries@.take(i as int), key),
            decreases self.entries.len() - i,
        {
            let entry = self.entries[i];
            proof {
                assert(self.entries@.take(i + 1) =~= self.entries@.take(i as int).push(entry));
                lemma_actions_under_push(self.entries@.take(i as int), entry, key);
            }
            if entry.0 == key {
                actions.push(entry.1);
            }
            i += 1;
        }
        assert(self.entries@.take(i as int) =~= self.entries@);
        actions
    }

    /// The actions of all entries, oldest first.
    pub fn all(&self) -> (actions: Vec<A>)
        ensures
            actions@ == actions_of(self.entries()),
    {
        let mut actions: Vec<A> = Vec::new();
        let mut i: usize = 0;
        while i < self.entries.len()
            invariant
                i <= self.entries.len(),
                actions@ == actions_of(self.entries@.take(i as int)),
            decreases self.entries.len() - i,
        {
            let entry = self.entries[i];
            assert(actions_of(self.entries@.take(i + 1)) =~= actions_of(self.entries@.take(i as int)).push(
                entry.1,
            ));
            actions.push(entry.1);
            i += 1;
        }
        assert(self.entries@.take(i as int) =~= self.entries@);
        actions
    }
}

/// The actions under a key when one more entry stands at the end.
pub proof fn lemma_actions_under_push<A>(entries: Seq<(usize, A)>, entry: (usize, A), key: usize)
    ensures
        actions_under(entries.push(entry), key) == if entry.0 == key {
            actions_under(entries, key).push(entry.1)
        } else {
            actions_under(entries, key)
        },
{
    let keep = under_key::<A>(key);
    lemma_filter_push(entries, entry, keep);
    if entry.0 == key {
        assert(entries.filter(keep).push(entry).map_values(action_part()) =~= entries.filter(keep).map_values(
            action_part(),
        ).push(entry.1));
    }
}

/// Filtering a sequence with one more item at its end.
pub proof fn lemma_filter_push<T>(items: Seq<T>, item: T, keep: spec_fn(T) -> bool)
    ensures
        items.push(item).filter(keep) == if keep(item) {
            items.filter(keep).push(item)
        } else {
            items.filter(keep)
        },
{
    reveal(Seq::filter);
    assert(items.push(item).drop_last() =~= items);
}

} // verus!
