//! What can go wrong while a sheet is composed.

use vstd::prelude::*;
use vstd::string::*;
use crate::text::{decimal, decimal_of};

verus! {

/// Why pixels could not be placed on a canvas.
#[derive(Clone, Copy, Debug, PartialEq, Eq, Structural)]
pub enum PlacementFault {
    /// The target rectangle reaches past the edge of the canvas.
    OutsideCanvas,
    /// The pixel data would not fit in addressable memory.
    Oversized,
}

impl PlacementFault {
    /// What the fault says in a message.
    pub open spec fn text(self) -> Seq<char> {
        match self {
            PlacementFault::OutsideCanvas => "the image does not fit on the canvas"@,
            PlacementFault::Oversized => "the image is too large"@,
        }
    }

    /// What the fault says in a message.
    pub fn describe(self) -> (out: &'static str)
        ensures
            out@ == self.text(),
    {
        match self {
            PlacementFault::OutsideCanvas => "the image does not fit on the canvas",
            PlacementFault::Oversized => "the image is too large",
        }
    }
}

/// Why a photo could not be put in its cell.
#[derive(Debug)]
pub enum PhotoError {
    /// The photo at the given path could not be read or decoded.
    Unreadable(String),
    /// The photo could not be placed, for the given reason.
    Placement(PlacementFault),
}

/// A failed compositing request. Every failure ends the request; no partial
/// sheet is handed on.
#[derive(Debug)]
pub enum ComposeError {
    /// The photo at the given path could not be read or decoded.
    PhotoUnreadable(String),
    /// The photo with the given index could not be placed, for the given
    /// reason.
    PhotoPlacement(usize, PlacementFault),
    /// The named logo or font asset could not be resolved.
    AssetUnavailable(String),
    /// The sheet could not be written to or read back from the given path;
    /// the second field says why.
    CanvasIoError(String, String),
}

impl ComposeError {
    /// The message that reports the failure: what failed, with the path,
    /// the number of the photo (counted from 1) or the name of the asset
    /// that it failed on.
    pub open spec fn text(self) -> Seq<char> {
        match self {
            ComposeError::PhotoUnreadable(path) => "Failed to open image "@ + path@,
            ComposeError::PhotoPlacement(index, reason) => "Photo "@ + decimal_of(
                (index + 1) as nat,
            ) + " error: "@ + reason.text(),
            ComposeError::AssetUnavailable(name) => "Failed to open asset "@ + name@,
            ComposeError::CanvasIoError(path, reason) => "Failed to save image "@ + path@ + ": "@
                + reason@,
        }
    }

    /// The message that reports the failure.
    pub fn message(&self) -> (out: String)
        ensures
            out@ == self.text(),
    {
        match self {
            ComposeError::PhotoUnreadable(path) => {
                let mut out = "Failed to open image ".to_owned();
                out.append(path.as_str());
                out
            },
            ComposeError::PhotoPlacement(index, reason) => {
                let mut out = "Photo ".to_owned();
                let number = decimal(*index as u128 + 1);
                out.append(number.as_str());
                out.append(" error: ");
                out.append(reason.describe());
                out
            },
            ComposeError::AssetUnavailable(name) => {
                let mut out = "Failed to open asset ".to_owned();
                out.append(name.as_str());
                out
            },
            ComposeError::CanvasIoError(path, reason) => {
                let mut out = "Failed to save image ".to_owned();
                out.append(path.as_str());
                out.append(": ");
                out.append(reason.as_str());
                out
            },
        }
    }
}

} // verus!
