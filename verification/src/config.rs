//! Stored configuration: the price plans and the layouts on offer, kept
//! under a version number so that a store written by another release is
//! replaced by the defaults.

use vstd::prelude::*;
use crate::geometry::LayoutVariant;

verus! {

/// Version of the stored price plans that this release reads and writes.
pub const PRICING_VERSION: u32 = 1;

/// Version of the stored layouts that this release reads and writes.
pub const LAYOUTS_VERSION: u32 = 1;

/// Stored data together with the version of its format.
pub struct Versioned<T> {
    pub version: u32,
    pub data: T,
}

/// One price plan on offer.
#[derive(Clone, Debug)]
pub struct Plan {
    pub title: String,
    pub price: u32,
    pub copies: u8,
    pub popular: bool,
}

/// One layout on offer, and whether it is switched off.
#[derive(Clone, Copy, Debug, PartialEq, Eq, Structural)]
pub struct LayoutData {
    pub kind: LayoutVariant,
    pub disabled: bool,
}

/// What was found where the configuration is stored.
pub enum Stored<T> {
    /// There is no store yet.
    Absent,
    /// There is a store, but it could not be understood.
    Unreadable,
    /// There is a store, and this is what it holds.
    Found(Versioned<T>),
}

/// What to hand to the caller and what to do to the store.
pub struct Settlement<T> {
    /// The configuration in force.
    pub data: T,
    /// Whether the store that was found is to be removed first.
    pub remove_stale: bool,
    /// Whether `data` is to be written to the store, under the current
    /// version.
    pub write: bool,
}

/// Whether a store holds data of the given version.
pub open spec fn current<T>(stored: Stored<T>, version: u32) -> bool {
    stored matches Stored::Found(v) && v.version == version
}

/// Data under the given version, ready to be stored.
pub fn wrap<T>(version: u32, data: T) -> (out: Versioned<T>)
    ensures
        out.version == version,
        out.data == data,
{
    Versioned { version, data }
}

/// Settles which configuration is in force. A store of the current version
/// is kept as it is and its data used. In every other case the defaults are
/// used and written to the store; a store that was there but is unreadable
/// or of another version is removed first.
pub fn settle<T>(stored: Stored<T>, version: u32, defaults: T) -> (out: Settlement<T>)
    ensures
        current(stored, version) ==> out.data == stored->Found_0.data && !out.remove_stale
            && !out.write,
        !current(stored, version) ==> out.data == defaults && out.write && (out.remove_stale <==> !(
        stored is Absent)),
{
    match stored {
        Stored::Found(found) => {
            if found.version == version {
                Settlement { data: found.data, remove_stale: false, write: false }
            } else {
                Settlement { data: defaults, remove_stale: true, write: true }
            }
        },
        Stored::Unreadable => Settlement { data: defaults, remove_stale: true, write: true },
        Stored::Absent => Settlement { data: defaults, remove_stale: false, write: true },
    }
}

} // verus!
