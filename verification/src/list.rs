//! A list of items with at most one of them selected.

use vstd::prelude::*;

verus! {

/// The selection after a step forward in a list of `len` items: the next
/// item, and the first after the last. Nothing is selected in an empty list.
pub open spec fn selection_after_next(selected: Option<usize>, len: nat) -> Option<usize> {
    match selected {
        Some(i) => if i + 1 < len {
            Some((i + 1) as usize)
        } else if len > 0 {
            Some(0usize)
        } else {
            None
        },
        None => if len > 0 {
            Some(0usize)
        } else {
            None
        },
    }
}

/// The selection after a step back in a list of `len` items: the item before,
/// and the last before the first. Nothing is selected in an empty list.
pub open spec fn selection_after_previous(selected: Option<usize>, len: nat) -> Option<usize> {
    if len == 0 {
        None
    } else {
        match selected {
            Some(i) => if i == 0 || i > len {
                Some((len - 1) as usize)
            } else {
                Some((i - 1) as usize)
            },
            None => Some(0usize),
        }
    }
}

/// The selection kept for a list of `len` items: as it was where it names an
/// item, none otherwise.
pub open spec fn selection_within(selected: Option<usize>, len: nat) -> Option<usize> {
    match selected {
        Some(i) => if i < len {
            Some(i)
        } else {
            None
        },
        None => None,
    }
}

/// Items of which at most one is selected.
pub struct StatefulList<T> {
    pub selected: Option<usize>,
    pub items: Vec<T>,
}

impl<T> StatefulList<T> {
    /// The selection, if there is one, names an item.
    pub open spec fn wf(&self) -> bool {
        self.selected matches Some(i) ==> i < self.items@.len()
    }

    /// An empty list.
    pub fn new() -> (list: Self)
        ensures
            list.selected is None,
            list.items@.len() == 0,
            list.wf(),
    {
        StatefulList { selected: None, items: Vec::new() }
    }

    /// Selects the next item, the first after the last.
    pub fn next(&mut self)
        ensures
            final(self).items == old(self).items,
            final(self).selected == selection_after_next(
                old(self).selected,
                old(self).items@.len(),
            ),
            final(self).wf(),
    {
        let len = self.items.len();
        self.selected = match self.selected {
            Some(i) => if i < len && i + 1 < len {
                Some(i + 1)
            } else if len > 0 {
                Some(0)
            } else {
                None
            },
            None => if len > 0 {
                Some(0)
            } else {
                None
            },
        };
    }

    /// Selects the item before, the last before the first.
    pub fn previous(&mut self)
        ensures
            final(self).items == old(self).items,
            final(self).selected == selection_after_previous(
                old(self).selected,
                old(self).items@.len(),
            ),
            final(self).wf(),
    {
        let len = self.items.len();
        self.selected = if len == 0 {
            None
        } else {
            match self.selected {
                Some(i) => if i == 0 || i > len {
                    Some(len - 1)
                } else {
                    Some(i - 1)
                },
                None => Some(0),
            }
        };
    }

    /// The place of the selected item; `None` where nothing is selected or
    /// the selection names no item.
    pub fn selected(&self) -> (r: Option<usize>)
        ensures
            r == selection_within(self.selected, self.items@.len()),
    {
        match self.selected {
            Some(i) => if i < self.items.len() {
                Some(i)
            } else {
                None
            },
            None => None,
        }
    }

    /// Selects the first item where there are items and none is selected.
    pub fn select_first_if_none(&mut self)
        ensures
            final(self).items == old(self).items,
            final(self).selected == (if old(self).selected is None && old(self).items@.len() > 0 {
                Some(0usize)
            } else {
                old(self).selected
            }),
    {
        if self.selected.is_none() && self.items.len() > 0 {
            self.selected = Some(0);
        }
    }

    /// Replaces the items. The selection stays where it still names an item
    /// and is given up otherwise.
    pub fn set_items(&mut self, items: Vec<T>)
        ensures
            final(self).items == items,
            final(self).selected == selection_within(old(self).selected, items@.len()),
            final(self).wf(),
    {
        self.items = items;
        self.selected = self.selected();
    }
}

} // verus!
