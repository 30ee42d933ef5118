//! Internal states of the bookmark list component: a cursor over a list of a
//! known length, which never runs past either end.

use vstd::prelude::*;

verus! {

/// States of the bookmark list: the selected index, the list length, and
/// whether the component has focus.
#[derive(Clone)]
pub struct OwnStates {
    pub list_index: usize,
    pub list_len: usize,
    pub focus: bool,
}

impl Default for OwnStates {
    fn default() -> (r: OwnStates)
        ensures
            r.list_index == 0,
            r.list_len == 0,
            !r.focus,
    {
        OwnStates { list_index: 0, list_len: 0, focus: false }
    }
}

impl OwnStates {
    /// Set the list length.
    pub fn set_list_len(&mut self, len: usize)
        ensures
            *final(self) == (OwnStates { list_len: len, ..*old(self) }),
    {
        self.list_len = len;
    }

    /// The current value of the list index.
    pub fn get_list_index(&self) -> (r: usize)
        ensures
            r == self.list_index,
    {
        self.list_index
    }

    /// Increment the list index, unless it already points at the last
    /// element.
    pub fn incr_list_index(&mut self)
        ensures
            final(self).list_index == (if old(self).list_index + 1 < old(self).list_len {
                old(self).list_index + 1
            } else {
                old(self).list_index as int
            }),
            final(self).list_len == old(self).list_len,
            final(self).focus == old(self).focus,
    {
        if self.list_index < usize::MAX && self.list_index + 1 < self.list_len {
            self.list_index = self.list_index + 1;
        }
    }

    /// Decrement the list index, unless it is already zero.
    pub fn decr_list_index(&mut self)
        ensures
            final(self).list_index == (if old(self).list_index > 0 {
                old(self).list_index - 1
            } else {
                0
            }),
            final(self).list_len == old(self).list_len,
            final(self).focus == old(self).focus,
    {
        if self.list_index > 0 {
            self.list_index = self.list_index - 1;
        }
    }

    /// Reset the list index to the first element.
    pub fn reset_list_index(&mut self)
        ensures
            *final(self) == (OwnStates { list_index: 0, ..*old(self) }),
    {
        self.list_index = 0;
    }
}

} // verus!
