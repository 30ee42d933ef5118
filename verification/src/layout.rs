//! The payload a layout component hands back with a message: a single typed
//! value, or nothing.

use vstd::prelude::*;

verus! {

/// The payload of a component message.
#[derive(Debug)]
pub enum Payload {
    Text(String),
    Number(isize),
    Unumber(usize),
    Empty,
}

impl Payload {
    /// Whether this payload carries no value.
    pub fn is_empty(&self) -> (r: bool)
        ensures
            r == (self is Empty),
    {
        match self {
            Payload::Empty => true,
            _ => false,
        }
    }
}

} // verus!
