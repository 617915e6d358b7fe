//! The selection cursor of a viewer that lists the history.
//!
//! The cursor is an index into the history, or nothing. It wraps around at
//! both ends and follows the history when an entry is deleted.

use vstd::prelude::*;
use crate::model::pinned;
use crate::store::ClipboardStorage;

verus! {

/// The selected index, if any.
#[derive(Clone, Copy, Debug, PartialEq, Eq, Structural)]
pub struct Selection {
    pub index: Option<usize>,
}

/// The index after `index` in a list of `len` entries, wrapping to the
/// first; the first where nothing is selected.
pub open spec fn index_after(index: Option<usize>, len: nat) -> nat {
    match index {
        Some(i) => if i >= len - 1 {
            0
        } else {
            (i + 1) as nat
        },
        None => 0,
    }
}

/// The index before `index` in a list of `len` entries, wrapping to the
/// last; the first where nothing is selected.
pub open spec fn index_before(index: Option<usize>, len: nat) -> nat {
    match index {
        Some(i) => if i == 0 {
            (len - 1) as nat
        } else {
            (i - 1) as nat
        },
        None => 0,
    }
}

/// The selection once the selected entry `index` was deleted and `len`
/// entries are left: nothing in an empty list, the last entry where the
/// cursor would stand past the end, else the same index.
pub open spec fn index_after_removal(index: usize, len: nat) -> Option<usize> {
    if len == 0 {
        None
    } else if index >= len {
        Some((len - 1) as usize)
    } else {
        Some(index)
    }
}

impl Selection {
    /// The selection points at an entry of a list of `len` entries, or at
    /// nothing.
    pub open spec fn within(self, len: nat) -> bool {
        match self.index {
            Some(i) => i < len,
            None => true,
        }
    }

    /// The first entry of a list of `len` entries, or nothing where the list
    /// is empty.
    pub fn first(len: usize) -> (selection: Selection)
        ensures
            selection.index == if len == 0 {
                None
            } else {
                Some(0usize)
            },
            selection.within(len as nat),
    {
        if len == 0 {
            Selection { index: None }
        } else {
            Selection { index: Some(0) }
        }
    }

    /// Moves to the next entry, from the last to the first.
    pub fn next(&mut self, len: usize)
        requires
            old(self).index is Some ==> len > 0,
        ensures
            final(self).index == Some(index_after(old(self).index, len as nat) as usize),
            len > 0 ==> final(self).within(len as nat),
    {
        let i = match self.index {
            Some(i) => if i >= len - 1 {
                0
            } else {
                i + 1
            },
            None => 0,
        };
        self.index = Some(i);
    }

    /// Moves to the entry before, from the first to the last.
    pub fn previous(&mut self, len: usize)
        requires
            old(self).index == Some(0usize) ==> len > 0,
        ensures
            final(self).index == Some(index_before(old(self).index, len as nat) as usize),
            len > 0 && old(self).within(len as nat) ==> final(self).within(len as nat),
    {
        let i = match self.index {
            Some(i) => if i == 0 {
                len - 1
            } else {
                i - 1
            },
            None => 0,
        };
        self.index = Some(i);
    }

    /// Deletes the selected entry from the history and moves the cursor so
    /// that it still points at an entry. Says whether anything was deleted:
    /// nothing is where nothing is selected or the cursor stands past the
    /// end.
    pub fn delete_selected(&mut self, storage: &mut ClipboardStorage) -> (deleted: bool)
        ensures
            deleted == (old(self).index is Some && old(self).index->0 < old(storage)@.len()),
            deleted ==> final(storage)@ == old(storage)@.remove(old(self).index->0 as int)
                && final(self).index == index_after_removal(
                old(self).index->0,
                final(storage)@.len(),
            ) && final(self).within(final(storage)@.len()),
            !deleted ==> final(storage)@ == old(storage)@ && *final(self) == *old(self),
    {
        match self.index {
            Some(i) => {
                if i < storage.len() {
                    storage.remove_at(i);
                    let len = storage.len();
                    if len == 0 {
                        self.index = None;
                    } else if i >= len {
                        self.index = Some(len - 1);
                    }
                    true
                } else {
                    false
                }
            },
            None => false,
        }
    }

    /// Flips the pin flag of the selected entry. Says whether something is
    /// selected; a cursor past the end changes nothing.
    pub fn toggle_pin(&self, storage: &mut ClipboardStorage) -> (selected: bool)
        ensures
            selected == (self.index is Some),
            self.index is Some && self.index->0 < old(storage)@.len() ==> final(storage)@ == old(
                storage,
            )@.update(
                self.index->0 as int,
                (crate::item::ItemView {
                    pinned: !old(storage)@[self.index->0 as int].pinned,
                    ..old(storage)@[self.index->0 as int]
                }),
            ),
            !(self.index is Some && self.index->0 < old(storage)@.len()) ==> final(storage)@
                == old(storage)@,
    {
        match self.index {
            Some(i) => {
                storage.toggle_pinned(i);
                true
            },
            None => false,
        }
    }

    /// Drops every unpinned entry from the history and moves the cursor to
    /// the first entry that is left.
    pub fn clear_unpinned(&mut self, storage: &mut ClipboardStorage)
        ensures
            final(storage)@ == old(storage)@.filter(pinned()),
            final(self).index == if final(storage)@.len() == 0 {
                None
            } else {
                Some(0usize)
            },
    {
        storage.retain_pinned();
        *self = Selection::first(storage.len());
    }
}

} // verus!
