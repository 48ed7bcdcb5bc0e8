//! Verified core of the stageLX lighting controller: DMX universes and their
//! merge engine, the wire formats of Art-Net, sACN (E1.31) and Enttec USB Pro,
//! the .3ds chunk parser, GDTF / MVR field handling, the patch and the cue
//! stack with its playhead.
use vstd::prelude::*;

pub mod types;
pub mod archive;
pub mod artnet;
pub mod capture;
pub mod config;
pub mod cue;
pub mod engine;
pub mod gdtf;
pub mod io;
pub mod library;
pub mod mvr;
pub mod mvr_export;
pub mod patch;
pub mod projection;
pub mod sacn;
pub mod selection;
pub mod show;
pub mod tds;
pub mod text;
pub mod universe;
pub mod usb;

verus! {

} // verus!
