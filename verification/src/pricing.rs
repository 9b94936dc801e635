//! The price plans as they were stored before stores carried a version.

use vstd::prelude::*;

verus! {

/// One price plan, in the unversioned format.
#[derive(Debug)]
pub struct Plan {
    pub title: String,
    pub price: u32,
    pub strips: u8,
    pub popular: bool,
}

/// What to hand to the caller of an unversioned store, and whether to write
/// it.
pub struct Initial<T> {
    /// The plans in force.
    pub data: T,
    /// Whether `data` is to be written to the store.
    pub write: bool,
}

/// Settles which plans are in force where the store carries no version:
/// what the store holds, if there is one, and else the defaults, which are
/// then written.
pub fn settle_unversioned<T>(stored: Option<T>, defaults: T) -> (out: Initial<T>)
    ensures
        out.write <==> stored is None,
        out.data == match stored {
            Some(found) => found,
            None => defaults,
        },
{
    match stored {
        Some(found) => Initial { data: found, write: false },
        None => Initial { data: defaults, write: true },
    }
}

} // verus!
