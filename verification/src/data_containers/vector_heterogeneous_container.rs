use crate::data_containers::PropertyWithDefault;
use std::collections::HashMap;
use vstd::prelude::*;

verus! {

/// Columns of 64-bit cells, one column for each key, each growing on demand. A cell that was
/// never written reads as the default of the key that asks.
pub struct VecDataContainer {
    data: HashMap<usize, Vec<Option<u64>>>,
}

impl VecDataContainer {
    /// The cells that were written, by column and index.
    pub closed spec fn cells(&self) -> Map<(usize, usize), u64> {
        Map::new(
            |at: (usize, usize)|
                self.data@.contains_key(at.0) && at.1 < self.data@[at.0].len() &&
                    self.data@[at.0][at.1 as int] is Some,
            |at: (usize, usize)| self.data@[at.0][at.1 as int]->0,
        )
    }

    /// What the cell at `index` of `column` reads as, for a key whose default is `default`.
    pub open spec fn cell(&self, column: usize, default: u64, index: usize) -> u64 {
        if self.cells().contains_key((column, index)) {
            self.cells()[(column, index)]
        } else {
            default
        }
    }

    /// What `get_value::<K>(index)` returns.
    pub open spec fn value_at<K: PropertyWithDefault>(&self, index: usize) -> u64 {
        self.cell(K::INDEX, K::DEFAULT, index)
    }

    pub fn new() -> (container: VecDataContainer)
        ensures
            container.cells() == Map::<(usize, usize), u64>::empty(),
    {
        let container = VecDataContainer { data: HashMap::new() };
        assert(container.cells() =~= Map::<(usize, usize), u64>::empty());
        container
    }

    /// Writes `value` at `index` of the column of `K`. No other cell changes.
    pub fn set_value<K: PropertyWithDefault>(&mut self, index: usize, value: u64)
        requires
            index < usize::MAX,
        ensures
            final(self).cells() == old(self).cells().insert((K::INDEX, index), value),
    {
        self.set_cell(K::INDEX, index, value);
    }

    /// As `set_value`, for a column that is given as a value.
    pub fn set_cell(&mut self, at: usize, index: usize, value: u64)
        requires
            index < usize::MAX,
        ensures
            final(self).cells() == old(self).cells().insert((at, index), value),
    {
        let mut column = match self.data.remove(&at) {
            Some(column) => column,
            None => Vec::new(),
        };
        let ghost before = column@;
        while column.len() <= index
            invariant
                before.len() <= column.len(),
                forall|i: int| 0 <= i < before.len() ==> column[i] == before[i],
                forall|i: int| before.len() <= i < column.len() ==> column[i] is None,
            decreases index + 1 - column.len(),
        {
            column.push(None);
        }
        column[index] = Some(value);
        self.data.insert(at, column);
        assert(self.cells() =~= old(self).cells().insert((at, index), value));
    }

    /// The cell at `index` of the column of `K`, or the default of `K` if it was never written.
    pub fn get_value<K: PropertyWithDefault>(&self, index: usize) -> (value: u64)
        ensures
            value == self.value_at::<K>(index),
    {
        match self.data.get(&K::INDEX) {
            Some(column) => {
                if index >= column.len() {
                    K::DEFAULT
                } else {
                    match column[index] {
                        Some(value) => value,
                        None => K::DEFAULT,
                    }
                }
            },
            None => K::DEFAULT,
        }
    }

    /// As `get_value`, for a column and a default that are given as values.
    pub fn get_cell(&self, column: usize, default: u64, index: usize) -> (value: u64)
        ensures
            value == self.cell(column, default, index),
    {
        match self.data.get(&column) {
            Some(cells) => {
                if index >= cells.len() {
                    default
                } else {
                    match cells[index] {
                        Some(value) => value,
                        None => default,
                    }
                }
            },
            None => default,
        }
    }
}

impl Default for VecDataContainer {
    fn default() -> (container: VecDataContainer)
        ensures
            container.cells() == Map::<(usize, usize), u64>::empty(),
    {
        VecDataContainer::new()
    }
}

} // verus!
