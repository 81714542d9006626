//! The observation's coarse channels: one frequency sub-band each, ordered
//! by ascending centre frequency.

use vstd::prelude::*;

use crate::gpubox_files::GpuboxError;
use crate::mwa_version::MWAVersion;

verus! {

/// One coarse channel, described three ways: by its position in the
/// correlator's output (array index), by the number its data files carry in
/// their names, and by the receiver's channel number that fixes its centre
/// frequency.
#[derive(Clone, Copy, Debug, PartialEq, Eq, Structural)]
pub struct CoarseChannel {
    /// 0-based array index, ascending by centre frequency.
    pub corr_chan_number: usize,
    /// The channel identifier encoded in this channel's data filenames:
    /// a 1-based position for pre-MWAX files, the receiver channel number
    /// for MWAX files.
    pub gpubox_number: usize,
    /// The receiver's channel number.
    pub rec_chan_number: usize,
    /// Centre frequency of this coarse channel in Hz.
    pub chan_centre_hz: u32,
}

impl CoarseChannel {
    /// The channel identifier that data filenames of generation `v` carry
    /// for the channel at array index `i` with receiver channel `rec`.
    pub open spec fn spec_gpubox_number(v: MWAVersion, i: int, rec: int) -> int {
        if v is CorrMWAXv2 {
            rec
        } else {
            i + 1
        }
    }

    /// Derive the coarse channel descriptors from the receiver channel
    /// numbers the observation's metadata declares, ascending.
    ///
    /// Rejects the voltage-capture generations with `InvalidMwaVersion`.
    pub fn populate_coarse_channels(
        mwa_version: MWAVersion,
        rec_chan_numbers: &Vec<usize>,
        coarse_chan_width_hz: u32,
    ) -> (r: Result<Vec<CoarseChannel>, GpuboxError>)
        requires
            forall|i: int|
                0 <= i < rec_chan_numbers@.len() ==> #[trigger] rec_chan_numbers@[i]
                    * coarse_chan_width_hz <= u32::MAX,
        ensures
            mwa_version.is_corr() <==> r is Ok,
            r matches Err(e) ==> e == (GpuboxError::InvalidMwaVersion { mwa_version }),
            r matches Ok(chans) ==> {
                &&& chans@.len() == rec_chan_numbers@.len()
                &&& forall|i: int|
                    0 <= i < chans@.len() ==> #[trigger] chans@[i] == (CoarseChannel {
                        corr_chan_number: i as usize,
                        gpubox_number: Self::spec_gpubox_number(
                            mwa_version,
                            i,
                            rec_chan_numbers@[i] as int,
                        ) as usize,
                        rec_chan_number: rec_chan_numbers@[i],
                        chan_centre_hz: (rec_chan_numbers@[i] * coarse_chan_width_hz) as u32,
                    })
            },
    {
        match mwa_version {
            MWAVersion::CorrOldLegacy | MWAVersion::CorrLegacy | MWAVersion::CorrMWAXv2 => {},
            _ => {
                return Err(GpuboxError::InvalidMwaVersion { mwa_version });
            },
        }
        let n: usize = rec_chan_numbers.len();
        let mut chans: Vec<CoarseChannel> = Vec::new();
        let mut i: usize = 0;
        while i < n
            invariant
                0 <= i <= n,
                n == rec_chan_numbers@.len(),
                mwa_version.is_corr(),
                forall|j: int|
                    0 <= j < n ==> #[trigger] rec_chan_numbers@[j] * coarse_chan_width_hz
                        <= u32::MAX,
                chans@.len() == i,
                forall|j: int|
                    0 <= j < i ==> #[trigger] chans@[j] == (CoarseChannel {
                        corr_chan_number: j as usize,
                        gpubox_number: Self::spec_gpubox_number(
                            mwa_version,
                            j,
                            rec_chan_numbers@[j] as int,
                        ) as usize,
                        rec_chan_number: rec_chan_numbers@[j],
                        chan_centre_hz: (rec_chan_numbers@[j] * coarse_chan_width_hz) as u32,
                    }),
            decreases n - i,
        {
            let rec: usize = rec_chan_numbers[i];
            let gpubox_number: usize = match mwa_version {
                MWAVersion::CorrMWAXv2 => rec,
                _ => i + 1,
            };
            proof {
                assert(rec * coarse_chan_width_hz <= u32::MAX);
            }
            let centre: u64 = (rec as u64) * (coarse_chan_width_hz as u64);
            chans.push(
                CoarseChannel {
                    corr_chan_number: i,
                    gpubox_number,
                    rec_chan_number: rec,
                    chan_centre_hz: centre as u32,
                },
            );
            i = i + 1;
        }
        Ok(chans)
    }
}

} // verus!
