//! Print sheets for a photo booth.
//!
//! A sheet is composed from a handful of photos: [`geometry`] derives the
//! pixel rectangles of a layout from the physical sheet, [`compositor`]
//! crops each photo to the shape of its cell and resizes it with
//! [`resample`], [`mode`] turns the canvas to neutral tones where monochrome
//! is asked for, [`branding`] draws the logo and the text lines into the
//! band, [`layout`] runs these steps in order, and [`finisher`] sets the
//! finished artwork inside a uniform margin. All of them work on the
//! [`raster`] of [`pixel`]s.
//!
//! Around the sheet, [`dispatch`] counts the sheets to print, [`config`] and
//! [`pricing`] settle which stored configuration is in force, and [`mail`]
//! keeps the queue of addresses that photos are sent to.

pub mod branding;
pub mod compositor;
pub mod config;
pub mod dispatch;
pub mod error;
pub mod finisher;
pub mod geometry;
pub mod layout;
pub mod mail;
pub mod mode;
pub mod pixel;
pub mod pricing;
pub mod raster;
pub mod resample;
pub mod text;
