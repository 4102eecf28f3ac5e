//! A list of items with an optional highlighted entry.

use vstd::prelude::*;
use crate::model::{next_index, previous_index};

verus! {

/// Items and the index of the highlighted one, if any.
pub struct StatefulList<T> {
    pub selected: Option<usize>,
    pub items: Vec<T>,
}

impl<T> StatefulList<T> {
    /// The highlighted index, when there is one, is that of an item.
    pub open spec fn wf(&self) -> bool {
        match self.selected {
            Some(i) => i < self.items@.len(),
            None => true,
        }
    }

    /// A list of `items` with nothing highlighted.
    pub fn with_items(items: Vec<T>) -> (r: StatefulList<T>)
        ensures
            r.wf(),
            r.items == items,
            r.selected.is_none(),
    {
        StatefulList { selected: None, items }
    }

    /// Highlights the next item, wrapping to the first; with nothing
    /// highlighted, the first. An empty list is left as it is.
    pub fn next(&mut self)
        requires
            old(self).wf(),
        ensures
            final(self).wf(),
            final(self).items == old(self).items,
            old(self).items@.len() == 0 ==> final(self).selected == old(self).selected,
            old(self).items@.len() > 0 ==> final(self).selected == Some(
                next_index(old(self).selected, old(self).items@.len()) as usize,
            ),
    {
        if self.items.len() > 0 {
            let i: usize = match self.selected {
                Some(i) => if i + 1 >= self.items.len() {
                    0
                } else {
                    i + 1
                },
                None => 0,
            };
            self.selected = Some(i);
        }
    }

    /// Highlights the previous item, wrapping to the last; with nothing
    /// highlighted, the first. An empty list is left as it is.
    pub fn previous(&mut self)
        requires
            old(self).wf(),
        ensures
            final(self).wf(),
            final(self).items == old(self).items,
            old(self).items@.len() == 0 ==> final(self).selected == old(self).selected,
            old(self).items@.len() > 0 ==> final(self).selected == Some(
                previous_index(old(self).selected, old(self).items@.len()) as usize,
            ),
    {
        if self.items.len() > 0 {
            let i: usize = match self.selected {
                Some(i) => if i == 0 {
                    self.items.len() - 1
                } else {
                    i - 1
                },
                None => 0,
            };
            self.selected = Some(i);
        }
    }

    /// Highlights `index` when it is that of an item, and nothing otherwise.
    pub fn select(&mut self, index: Option<usize>)
        requires
            old(self).wf(),
        ensures
            final(self).wf(),
            final(self).items == old(self).items,
            final(self).selected == match index {
                Some(i) => if i < old(self).items@.len() {
                    Some(i)
                } else {
                    None
                },
                None => None,
            },
    {
        self.selected = match index {
            Some(i) => if i < self.items.len() {
                Some(i)
            } else {
                None
            },
            None => None,
        };
    }

    /// Highlights nothing.
    pub fn unselect(&mut self)
        ensures
            final(self).items == old(self).items,
            final(self).selected.is_none(),
    {
        self.selected = None;
    }
}

} // verus!
