//! The observation's timestep grid.

use vstd::prelude::*;

verus! {

/// One entry of the observation's regular timestep grid.
#[derive(Clone, Copy, Debug, PartialEq, Eq, Structural)]
pub struct TimeStep {
    /// Start of this timestep, milliseconds since the UNIX epoch.
    pub unix_time_ms: u64,
    /// Start of this timestep, milliseconds since the GPS epoch.
    pub gps_time_ms: u64,
}

impl TimeStep {
    /// Lay out the scheduled timestep grid: one entry every
    /// `corr_int_time_ms` from the scheduled start, covering the scheduled
    /// duration.
    pub fn populate_timesteps(
        sched_start_unix_time_ms: u64,
        sched_start_gps_time_ms: u64,
        sched_duration_ms: u64,
        corr_int_time_ms: u64,
    ) -> (timesteps: Vec<TimeStep>)
        requires
            corr_int_time_ms > 0,
            sched_start_unix_time_ms + sched_duration_ms <= u64::MAX,
            sched_start_gps_time_ms + sched_duration_ms <= u64::MAX,
        ensures
            timesteps@.len() == sched_duration_ms as int / corr_int_time_ms as int,
            forall|k: int|
                0 <= k < timesteps@.len() ==> #[trigger] timesteps@[k] == (TimeStep {
                    unix_time_ms: (sched_start_unix_time_ms + k * corr_int_time_ms) as u64,
                    gps_time_ms: (sched_start_gps_time_ms + k * corr_int_time_ms) as u64,
                }),
    {
        let num_timesteps: u64 = sched_duration_ms / corr_int_time_ms;
        let mut timesteps: Vec<TimeStep> = Vec::new();
        let mut k: u64 = 0;
        proof {
            assert(num_timesteps * corr_int_time_ms <= sched_duration_ms) by (nonlinear_arith)
                requires
                    corr_int_time_ms > 0,
                    num_timesteps == sched_duration_ms as int / corr_int_time_ms as int,
            ;
        }
        while k < num_timesteps
            invariant
                0 <= k <= num_timesteps,
                num_timesteps == sched_duration_ms as int / corr_int_time_ms as int,
                num_timesteps * corr_int_time_ms <= sched_duration_ms,
                sched_start_unix_time_ms + sched_duration_ms <= u64::MAX,
                sched_start_gps_time_ms + sched_duration_ms <= u64::MAX,
                corr_int_time_ms > 0,
                timesteps@.len() == k,
                forall|j: int|
                    0 <= j < k ==> #[trigger] timesteps@[j] == (TimeStep {
                        unix_time_ms: (sched_start_unix_time_ms + j * corr_int_time_ms) as u64,
                        gps_time_ms: (sched_start_gps_time_ms + j * corr_int_time_ms) as u64,
                    }),
            decreases num_timesteps - k,
        {
            proof {
                assert(k * corr_int_time_ms + corr_int_time_ms <= num_timesteps
                    * corr_int_time_ms) by (nonlinear_arith)
                    requires
                        k < num_timesteps,
                        corr_int_time_ms > 0,
                ;
            }
            let offset: u64 = k * corr_int_time_ms;
            timesteps.push(
                TimeStep {
                    unix_time_ms: sched_start_unix_time_ms + offset,
                    gps_time_ms: sched_start_gps_time_ms + offset,
                },
            );
            k = k + 1;
        }
        timesteps
    }
}

} // verus!
