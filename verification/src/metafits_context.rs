//! The validated per-observation metadata, as plain values.
//!
//! The metadata file itself is read by an external collaborator; this
//! struct carries only what the indexing and read paths consume, and its
//! well-formedness predicate records what that collaborator guarantees.

use vstd::prelude::*;

use crate::timestep::TimeStep;

verus! {

/// Per-observation constants derived from the observation's metadata file.
#[derive(Clone, Debug)]
pub struct MetafitsContext {
    /// Observation id (also the scheduled start in GPS seconds).
    pub obsid: u32,
    /// Scheduled start (UNIX time) of the observation, in ms.
    pub sched_start_unix_time_ms: u64,
    /// Scheduled start (GPS time) of the observation, in ms.
    pub sched_start_gps_time_ms: u64,
    /// Scheduled duration of the observation, in ms.
    pub sched_duration_ms: u64,
    /// The correlator's integration (timestep) length, in ms.
    pub corr_int_time_ms: u64,
    /// Duration at the observation's start whose data is unreliable, in ms.
    pub quack_time_duration_ms: u64,
    /// First UNIX time (in ms) at or after which data is good.
    pub good_time_unix_ms: u64,
    /// Total number of antennas (tiles) in the array.
    pub num_ants: usize,
    /// Number of correlated antenna pairs, auto-correlations included.
    pub num_baselines: usize,
    /// Number of visibility polarizations (e.g. XX, XY, YX, YY).
    pub num_visibility_pols: usize,
    /// Number of fine channels per coarse channel.
    pub num_corr_fine_chans_per_coarse: usize,
    /// Receiver channel numbers of the observation's coarse channels,
    /// ascending.
    pub metafits_coarse_chans: Vec<usize>,
    /// Bandwidth of each coarse channel, in Hz.
    pub coarse_chan_width_hz: u32,
    /// The scheduled timestep grid.
    pub metafits_timesteps: Vec<TimeStep>,
}

impl MetafitsContext {
    /// What the metadata collaborator guarantees of a validated context.
    pub open spec fn wf(self) -> bool {
        &&& self.corr_int_time_ms > 0
        &&& self.quack_time_duration_ms <= self.good_time_unix_ms
        &&& self.sched_start_unix_time_ms + self.sched_duration_ms <= u64::MAX
        &&& self.sched_start_gps_time_ms + self.sched_duration_ms <= u64::MAX
        &&& self.sched_start_gps_time_ms == self.obsid * 1000
        &&& self.num_baselines == self.num_ants * (self.num_ants + 1) / 2
        &&& self.num_visibility_pols >= 1
        &&& self.num_corr_fine_chans_per_coarse >= 1
        &&& self.num_baselines * self.num_visibility_pols * 2 <= i32::MAX
        &&& self.num_corr_fine_chans_per_coarse * self.num_visibility_pols * 2 <= i32::MAX
        &&& self.num_baselines * self.num_corr_fine_chans_per_coarse * self.num_visibility_pols
            * 2 <= usize::MAX
        &&& (self.sched_duration_ms as int / self.corr_int_time_ms as int)
            * self.metafits_coarse_chans@.len() <= usize::MAX
        &&& self.metafits_coarse_chans@.len() * self.coarse_chan_width_hz <= u32::MAX
        &&& forall|i: int, j: int|
            0 <= i < j < self.metafits_coarse_chans@.len()
                ==> #[trigger] self.metafits_coarse_chans@[i]
                < #[trigger] self.metafits_coarse_chans@[j]
        &&& forall|i: int|
            0 <= i < self.metafits_coarse_chans@.len() ==> #[trigger] self.metafits_coarse_chans@[i]
                * self.coarse_chan_width_hz <= u32::MAX
        &&& self.metafits_timesteps@.len() == self.sched_duration_ms as int
            / self.corr_int_time_ms as int
        &&& forall|k: int|
            0 <= k < self.metafits_timesteps@.len() ==> #[trigger] self.metafits_timesteps@[k]
                == (TimeStep {
                unix_time_ms: (self.sched_start_unix_time_ms + k * self.corr_int_time_ms) as u64,
                gps_time_ms: (self.sched_start_gps_time_ms + k * self.corr_int_time_ms) as u64,
            })
    }

    /// Assemble a metadata context from the values the collaborator read,
    /// deriving the baseline count and the scheduled timestep grid.
    pub fn new(
        obsid: u32,
        sched_start_unix_time_ms: u64,
        sched_duration_ms: u64,
        corr_int_time_ms: u64,
        quack_time_duration_ms: u64,
        good_time_unix_ms: u64,
        num_ants: usize,
        num_visibility_pols: usize,
        num_corr_fine_chans_per_coarse: usize,
        metafits_coarse_chans: Vec<usize>,
        coarse_chan_width_hz: u32,
    ) -> (r: MetafitsContext)
        requires
            corr_int_time_ms > 0,
            quack_time_duration_ms <= good_time_unix_ms,
            sched_start_unix_time_ms + sched_duration_ms <= u64::MAX,
            obsid * 1000 + sched_duration_ms <= u64::MAX,
            num_visibility_pols >= 1,
            num_corr_fine_chans_per_coarse >= 1,
            num_ants * (num_ants + 1) <= usize::MAX,
            num_ants * (num_ants + 1) / 2 * num_visibility_pols * 2 <= i32::MAX,
            num_corr_fine_chans_per_coarse * num_visibility_pols * 2 <= i32::MAX,
            num_ants * (num_ants + 1) / 2 * num_corr_fine_chans_per_coarse * num_visibility_pols
                * 2 <= usize::MAX,
            (sched_duration_ms as int / corr_int_time_ms as int) * metafits_coarse_chans@.len()
                <= usize::MAX,
            metafits_coarse_chans@.len() * coarse_chan_width_hz <= u32::MAX,
            forall|i: int, j: int|
                0 <= i < j < metafits_coarse_chans@.len() ==> #[trigger] metafits_coarse_chans@[i]
                    < #[trigger] metafits_coarse_chans@[j],
            forall|i: int|
                0 <= i < metafits_coarse_chans@.len() ==> #[trigger] metafits_coarse_chans@[i]
                    * coarse_chan_width_hz <= u32::MAX,
        ensures
            r.wf(),
            r == (MetafitsContext {
                obsid,
                sched_start_unix_time_ms,
                sched_start_gps_time_ms: (obsid * 1000) as u64,
                sched_duration_ms,
                corr_int_time_ms,
                quack_time_duration_ms,
                good_time_unix_ms,
                num_ants,
                num_baselines: (num_ants * (num_ants + 1) / 2) as usize,
                num_visibility_pols,
                num_corr_fine_chans_per_coarse,
                metafits_coarse_chans,
                coarse_chan_width_hz,
                metafits_timesteps: r.metafits_timesteps,
            }),
    {
        let sched_start_gps_time_ms: u64 = (obsid as u64) * 1000;
        proof {
            assert(num_ants + 1 <= usize::MAX) by (nonlinear_arith)
                requires
                    num_ants * (num_ants + 1) <= usize::MAX,
                    num_ants <= usize::MAX,
            ;
        }
        let num_baselines: usize = num_ants * (num_ants + 1) / 2;
        let metafits_timesteps: Vec<TimeStep> = TimeStep::populate_timesteps(
            sched_start_unix_time_ms,
            sched_start_gps_time_ms,
            sched_duration_ms,
            corr_int_time_ms,
        );
        MetafitsContext {
            obsid,
            sched_start_unix_time_ms,
            sched_start_gps_time_ms,
            sched_duration_ms,
            corr_int_time_ms,
            quack_time_duration_ms,
            good_time_unix_ms,
            num_ants,
            num_baselines,
            num_visibility_pols,
            num_corr_fine_chans_per_coarse,
            metafits_coarse_chans,
            coarse_chan_width_hz,
            metafits_timesteps,
        }
    }
}

} // verus!
