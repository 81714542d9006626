//! Read access to a radio-interferometer correlator's raw visibility data.
//!
//! The observation's samples are split across many coarse-channel data files
//! whose naming and internal layout differ across correlator hardware
//! generations. This library classifies the file set, validates it against
//! the observation's metadata, builds a lookup from (timestep, coarse
//! channel) to the exact file and data unit holding that data, and re-orders
//! raw sample blocks into the two logical orderings consumers expect.
//!
//! All file I/O is left to the caller: the library works on plain values
//! (filenames, header keys, axis lengths, raw sample blocks) and every
//! function in it is verified against its contract.

use vstd::prelude::*;

pub mod coarse_channel;
pub mod correlator_context;
pub mod fits_read;
pub mod gpubox_files;
pub mod metafits_context;
pub mod mwa_version;
pub mod timestep;
pub mod transpose;

verus! {

} // verus!
