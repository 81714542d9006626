//! The closed set of correlator hardware generations.

use vstd::prelude::*;

verus! {

/// Enum for all known variants of file format, based on Correlator version
#[derive(Clone, Copy, Debug, PartialEq, Eq, Structural)]
pub enum MWAVersion {
    /// MWA correlator version 0 ("old legacy"): filenames encode only a
    /// channel number, with an implicit batch of 0.
    CorrOldLegacy,
    /// MWA correlator version 1 ("legacy"): filenames encode a channel
    /// number and a batch number.
    CorrLegacy,
    /// MWAX correlator version 2.
    CorrMWAXv2,
    /// Voltage capture, legacy recombined format. Not valid for the
    /// correlator read paths of this library.
    VCSLegacyRecombined,
    /// Voltage capture, MWAX format. Not valid for the correlator read
    /// paths of this library.
    VCSMWAXv2,
}

impl MWAVersion {
    /// True for the three correlator generations this library reads.
    pub open spec fn is_corr(self) -> bool {
        self is CorrOldLegacy || self is CorrLegacy || self is CorrMWAXv2
    }
}

} // verus!
