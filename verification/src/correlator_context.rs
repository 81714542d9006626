//! The validated, immutable observation context, and the read paths over
//! it.
//!
//! Construction classifies the supplied data filenames, cross-validates
//! every file's header values against the metadata context, and builds
//! the time/channel index. All file I/O stays with the caller: for each
//! file the caller hands in the header values and per-data-unit start
//! times it read, and later the raw sample block a read resolves to.

use vstd::arithmetic::div_mod::lemma_fundamental_div_mod_converse;
use vstd::prelude::*;

use crate::coarse_channel::CoarseChannel;
use crate::gpubox_files::GpuboxBatch;
use crate::gpubox_files::GpuboxError;
use crate::metafits_context::MetafitsContext;
use crate::mwa_version::MWAVersion;
use crate::timestep::TimeStep;
use crate::transpose::copy_into;
use crate::transpose::spec_sample_index;
use crate::transpose::transpose_into;

verus! {

/// What the caller read from one coarse-channel data file: its embedded
/// observation ID and correlator-version marker (where present), the axis
/// lengths of its first data unit, and the start time of every data unit,
/// in file order. Data unit `h` of the file is the unit at position
/// `h + 1`, after the primary header.
#[derive(Clone, Debug)]
pub struct GpuboxFileData {
    /// The file's name, exactly as supplied to the classifier.
    pub filename: String,
    /// The observation ID header key, if present.
    pub obsid: Option<u32>,
    /// The correlator-version header key, if present.
    pub corr_ver: Option<u8>,
    /// First data unit's fastest-varying axis length.
    pub naxis1: usize,
    /// First data unit's second axis length.
    pub naxis2: usize,
    /// Start time (UNIX ms) of each data unit, in file order.
    pub hdu_unix_times_ms: Vec<u64>,
}

/// The fastest-varying axis length a data unit of generation `v` must
/// declare.
pub open spec fn spec_calc_naxis1(
    v: MWAVersion,
    fine_chans_per_coarse: int,
    baselines: int,
    pols: int,
) -> int {
    if v is CorrMWAXv2 {
        fine_chans_per_coarse * pols * 2
    } else {
        baselines * pols * 2
    }
}

/// The second axis length a data unit of generation `v` must declare.
pub open spec fn spec_calc_naxis2(
    v: MWAVersion,
    fine_chans_per_coarse: int,
    baselines: int,
) -> int {
    if v is CorrMWAXv2 {
        baselines
    } else {
        fine_chans_per_coarse
    }
}

/// Does the correlator-version marker `corr_ver` agree with generation
/// `v`? Pre-MWAX files must not carry the MWAX marker; MWAX files must
/// carry exactly it.
pub open spec fn spec_corr_ver_ok(v: MWAVersion, corr_ver: Option<u8>) -> bool {
    if v is CorrMWAXv2 {
        corr_ver == Some(crate::gpubox_files::MWAX_CORR_VER)
    } else {
        corr_ver != Some(crate::gpubox_files::MWAX_CORR_VER)
    }
}

/// Does file data `fd` pass every header cross-check for an observation
/// with metadata `m` and generation `v`: matching observation ID,
/// agreeing correlator-version marker, the axis lengths the record shape
/// demands, and at least one data unit?
pub open spec fn spec_file_valid(m: MetafitsContext, v: MWAVersion, fd: GpuboxFileData) -> bool {
    &&& fd.obsid == Some(m.obsid)
    &&& spec_corr_ver_ok(v, fd.corr_ver)
    &&& fd.naxis1 == spec_calc_naxis1(
        v,
        m.num_corr_fine_chans_per_coarse as int,
        m.num_baselines as int,
        m.num_visibility_pols as int,
    )
    &&& fd.naxis2 == spec_calc_naxis2(
        v,
        m.num_corr_fine_chans_per_coarse as int,
        m.num_baselines as int,
    )
    &&& fd.hdu_unix_times_ms@.len() > 0
}

/// The smallest index of a file that fails a header cross-check, or the
/// length of `data` when all pass.
pub open spec fn spec_first_invalid(
    m: MetafitsContext,
    v: MWAVersion,
    data: Seq<GpuboxFileData>,
    k: int,
) -> int
    decreases data.len() - k,
{
    if k < 0 || k >= data.len() {
        data.len() as int
    } else if !spec_file_valid(m, v, data[k]) {
        k
    } else {
        spec_first_invalid(m, v, data, k + 1)
    }
}

/// Does error `e` describe the first failing header cross-check of file
/// data `fd`, checked in order: observation ID, correlator-version
/// marker, axis lengths, presence of data units?
pub open spec fn spec_error_for_file(
    m: MetafitsContext,
    v: MWAVersion,
    fd: GpuboxFileData,
    e: GpuboxError,
) -> bool {
    if fd.obsid is None {
        e matches GpuboxError::MissingObsid(f) && f@ == fd.filename@
    } else if fd.obsid != Some(m.obsid) {
        e matches GpuboxError::ObsidMismatch { obsid, gpubox_filename, gpubox_obsid } && obsid
            == m.obsid && gpubox_obsid == fd.obsid->0 && gpubox_filename@ == fd.filename@
    } else if !spec_corr_ver_ok(v, fd.corr_ver) {
        if v is CorrMWAXv2 {
            if fd.corr_ver is None {
                e matches GpuboxError::MwaxCorrVerMissing(f) && f@ == fd.filename@
            } else {
                e matches GpuboxError::MwaxCorrVerMismatch(f) && f@ == fd.filename@
            }
        } else {
            e matches GpuboxError::CorrVerMismatch { gpubox_filename, gpu_corr_version_value }
                && gpubox_filename@ == fd.filename@ && gpu_corr_version_value
                == crate::gpubox_files::MWAX_CORR_VER
        }
    } else if fd.naxis1 != spec_calc_naxis1(
        v,
        m.num_corr_fine_chans_per_coarse as int,
        m.num_baselines as int,
        m.num_visibility_pols as int,
    ) || fd.naxis2 != spec_calc_naxis2(
        v,
        m.num_corr_fine_chans_per_coarse as int,
        m.num_baselines as int,
    ) {
        spec_axes_error(
            v,
            m.num_corr_fine_chans_per_coarse as int,
            m.num_baselines as int,
            m.num_visibility_pols as int,
            fd.naxis1 as int,
            fd.naxis2 as int,
            e,
        )
    } else {
        e matches GpuboxError::NoDataHDUsInGpuboxFile { gpubox_filename } && gpubox_filename@
            == fd.filename@
    }
}

/// Does error `e` describe the first failing axis check for a data unit
/// declaring `naxis1` x `naxis2`, axis 1 checked before axis 2?
pub open spec fn spec_axes_error(
    v: MWAVersion,
    fine: int,
    baselines: int,
    pols: int,
    naxis1: int,
    naxis2: int,
    e: GpuboxError,
) -> bool {
    if naxis1 != spec_calc_naxis1(v, fine, baselines, pols) {
        if v is CorrMWAXv2 {
            e == (GpuboxError::MwaxNaxis1Mismatch {
                naxis1: naxis1 as usize,
                calculated_naxis1: (fine * pols * 2) as i32,
                metafits_fine_chans_per_coarse: fine as usize,
                visibility_pols: pols as usize,
                naxis2: naxis2 as usize,
            })
        } else {
            e == (GpuboxError::LegacyNaxis1Mismatch {
                naxis1: naxis1 as usize,
                calculated_naxis1: (baselines * pols * 2) as i32,
                metafits_baselines: baselines as usize,
                visibility_pols: pols as usize,
                naxis2: naxis2 as usize,
            })
        }
    } else {
        if v is CorrMWAXv2 {
            e == (GpuboxError::MwaxNaxis2Mismatch {
                naxis2: naxis2 as usize,
                calculated_naxis2: baselines as i32,
                metafits_baselines: baselines as usize,
            })
        } else {
            e == (GpuboxError::LegacyNaxis2Mismatch {
                naxis2: naxis2 as usize,
                calculated_naxis2: fine as i32,
                metafits_fine_chans_per_coarse: fine as usize,
            })
        }
    }
}

/// Validate the header values read from one file, in the fixed order:
/// observation ID, correlator-version marker, axis lengths, data units.
fn validate_file(
    m: &MetafitsContext,
    v: MWAVersion,
    fd: &GpuboxFileData,
) -> (r: Result<(), GpuboxError>)
    requires
        m.wf(),
        v.is_corr(),
    ensures
        r is Ok <==> spec_file_valid(*m, v, *fd),
        r matches Err(e) ==> spec_error_for_file(*m, v, *fd, e),
{
    match crate::gpubox_files::validate_gpubox_metadata_obs_id(fd.obsid, m.obsid, &fd.filename) {
        Ok(()) => {},
        Err(e) => {
            return Err(e);
        },
    }
    match crate::gpubox_files::validate_gpubox_metadata_correlator_version(
        fd.corr_ver,
        &fd.filename,
        v,
    ) {
        Ok(()) => {},
        Err(e) => {
            return Err(e);
        },
    }
    match CorrelatorContext::validate_hdu_axes(
        v,
        m.num_corr_fine_chans_per_coarse,
        m.num_baselines,
        m.num_visibility_pols,
        fd.naxis1,
        fd.naxis2,
    ) {
        Ok(()) => {},
        Err(e) => {
            return Err(e);
        },
    }
    if fd.hdu_unix_times_ms.len() == 0 {
        return Err(GpuboxError::NoDataHDUsInGpuboxFile { gpubox_filename: fd.filename.clone() });
    }
    Ok(())
}

/// The names of the supplied data files, in order.
pub open spec fn spec_data_names(data: Seq<GpuboxFileData>) -> Seq<String> {
    Seq::new(data.len(), |i: int| data[i].filename)
}

/// Index of the first timestep starting at `t_ms`, if any.
pub open spec fn spec_find_row(times: Seq<TimeStep>, t_ms: u64, k: int) -> Option<int>
    decreases times.len() - k,
{
    if k < 0 || k >= times.len() {
        None
    } else if times[k].unix_time_ms == t_ms {
        Some(k)
    } else {
        spec_find_row(times, t_ms, k + 1)
    }
}

/// Index of the first coarse channel whose data files carry channel
/// identifier `chan_id`, if any.
pub open spec fn spec_find_col(chans: Seq<CoarseChannel>, chan_id: int, k: int) -> Option<int>
    decreases chans.len() - k,
{
    if k < 0 || k >= chans.len() {
        None
    } else if chans[k].gpubox_number == chan_id {
        Some(k)
    } else {
        spec_find_col(chans, chan_id, k + 1)
    }
}

/// Was a data unit recorded for the timestep starting at `t_ms` on the
/// coarse channel whose files carry `chan_id`?
pub open spec fn spec_data_at(data: Seq<GpuboxFileData>, t_ms: u64, chan_id: int) -> bool {
    exists|i: int, h: int|
        0 <= i < data.len() && crate::gpubox_files::spec_chan_of(data[i].filename) == chan_id && 0
            <= h < data[i].hdu_unix_times_ms.len() && #[trigger] data[i].hdu_unix_times_ms@[h]
            == t_ms
}

/// Find the index of the first timestep starting at `t_ms`.
fn find_row(times: &Vec<TimeStep>, t_ms: u64) -> (r: Option<usize>)
    ensures
        match r {
            Some(k) => spec_find_row(times@, t_ms, 0) == Some(k as int),
            None => spec_find_row(times@, t_ms, 0) is None,
        },
{
    let n: usize = times.len();
    let mut k: usize = 0;
    while k < n
        invariant
            0 <= k <= n,
            n == times@.len(),
            spec_find_row(times@, t_ms, 0) == spec_find_row(times@, t_ms, k as int),
        decreases n - k,
    {
        if times[k].unix_time_ms == t_ms {
            return Some(k);
        }
        k = k + 1;
    }
    None
}

/// Find the index of the first coarse channel carrying `chan_id`.
fn find_col(chans: &Vec<CoarseChannel>, chan_id: usize) -> (r: Option<usize>)
    ensures
        match r {
            Some(k) => spec_find_col(chans@, chan_id as int, 0) == Some(k as int),
            None => spec_find_col(chans@, chan_id as int, 0) is None,
        },
{
    let n: usize = chans.len();
    let mut k: usize = 0;
    while k < n
        invariant
            0 <= k <= n,
            n == chans@.len(),
            spec_find_col(chans@, chan_id as int, 0) == spec_find_col(chans@, chan_id as int, k as int),
        decreases n - k,
    {
        if chans[k].gpubox_number == chan_id {
            return Some(k);
        }
        k = k + 1;
    }
    None
}

/// The first timestep at `t_ms` exists exactly when some timestep starts
/// at `t_ms`, and it does start at `t_ms`.
proof fn lemma_find_row_facts(times: Seq<TimeStep>, t_ms: u64, k: int)
    requires
        0 <= k <= times.len(),
    ensures
        spec_find_row(times, t_ms, k) matches Some(r) ==> k <= r < times.len()
            && times[r].unix_time_ms == t_ms,
        spec_find_row(times, t_ms, k) is None ==> forall|r: int|
            k <= r < times.len() ==> (#[trigger] times[r]).unix_time_ms != t_ms,
    decreases times.len() - k,
{
    if k < times.len() {
        lemma_find_row_facts(times, t_ms, k + 1);
    }
}

/// The first coarse channel carrying `chan_id` exists exactly when some
/// channel carries it, and it does carry it.
proof fn lemma_find_col_facts(chans: Seq<CoarseChannel>, chan_id: int, k: int)
    requires
        0 <= k <= chans.len(),
    ensures
        spec_find_col(chans, chan_id, k) matches Some(c) ==> k <= c < chans.len()
            && chans[c].gpubox_number == chan_id,
        spec_find_col(chans, chan_id, k) is None ==> forall|c: int|
            k <= c < chans.len() ==> (#[trigger] chans[c]).gpubox_number != chan_id,
    decreases chans.len() - k,
{
    if k < chans.len() {
        lemma_find_col_facts(chans, chan_id, k + 1);
    }
}

/// Did the lex-earlier pair (`i2`, `h2`) come before (`i`, `h`) in the
/// file-by-file, unit-by-unit traversal?
pub open spec fn spec_pair_before(i2: int, h2: int, i: int, h: int) -> bool {
    i2 < i || (i2 == i && h2 < h)
}

/// The cell of the time/channel index that the data unit at `t_ms` on
/// channel `chan_id` lands in, if its time and channel are known.
pub open spec fn spec_target_cell(
    times: Seq<TimeStep>,
    chans: Seq<CoarseChannel>,
    t_ms: u64,
    chan_id: int,
) -> Option<int> {
    if (spec_find_row(times, t_ms, 0) matches Some(r) && spec_find_col(chans, chan_id, 0)
        matches Some(c)) {
        Some(spec_find_row(times, t_ms, 0)->Some_0 * chans.len() + spec_find_col(
            chans,
            chan_id,
            0,
        )->Some_0)
    } else {
        None
    }
}

/// Fill the time/channel index: walk every file's data units in order
/// and record (batch number, unit position) in the cell named by the
/// unit's start time and the file's channel identifier.
#[verifier::rlimit(100)]
fn build_time_map(
    data: &Vec<GpuboxFileData>,
    times: &Vec<TimeStep>,
    chans: &Vec<CoarseChannel>,
) -> (map: Vec<Option<(usize, usize)>>)
    requires
        times@.len() * chans@.len() <= usize::MAX,
        forall|i: int|
            0 <= i < data@.len() ==> crate::gpubox_files::spec_classify_name(
                (#[trigger] data@[i]).filename@,
            ) is Some,
    ensures
        map@.len() == times@.len() * chans@.len(),
        forall|i: int|
            0 <= i < data@.len() ==> 0 <= crate::gpubox_files::spec_batch_of(
                (#[trigger] data@[i]).filename,
            ) < 1000,
        forall|i: int|
            0 <= i < data@.len() ==> (#[trigger] data@[i]).hdu_unix_times_ms@.len() <= usize::MAX,
        forall|j: int|
            0 <= j < map@.len() && (#[trigger] map@[j]) is Some ==> exists|i: int, h: int|
                0 <= i < data@.len() && 0 <= h < data@[i].hdu_unix_times_ms@.len()
                    && #[trigger] spec_target_cell(
                    times@,
                    chans@,
                    data@[i].hdu_unix_times_ms@[h],
                    crate::gpubox_files::spec_chan_of(data@[i].filename),
                ) == Some(j) && map@[j] == Some(
                    (
                        crate::gpubox_files::spec_batch_of(data@[i].filename) as usize,
                        (h + 1) as usize,
                    ),
                ),
        forall|i: int, h: int|
            0 <= i < data@.len() && 0 <= h < (#[trigger] data@[i]).hdu_unix_times_ms@.len()
                ==> match spec_target_cell(
                times@,
                chans@,
                #[trigger] data@[i].hdu_unix_times_ms@[h],
                crate::gpubox_files::spec_chan_of(data@[i].filename),
            ) {
                Some(j) => 0 <= j < map@.len() && map@[j] is Some,
                None => true,
            },
{
    let num_rows: usize = times.len();
    let num_cols: usize = chans.len();
    let total: usize = num_rows * num_cols;
    let mut map: Vec<Option<(usize, usize)>> = Vec::new();
    let mut j0: usize = 0;
    while j0 < total
        invariant
            0 <= j0 <= total,
            map@.len() == j0,
            forall|j: int| 0 <= j < j0 ==> (#[trigger] map@[j]) is None,
        decreases total - j0,
    {
        map.push(None);
        j0 = j0 + 1;
    }
    let ghost mut wit: Map<int, (int, int)> = Map::empty();
    let n: usize = data.len();
    let mut i: usize = 0;
    while i < n
        invariant
            0 <= i <= n,
            n == data@.len(),
            num_rows == times@.len(),
            num_cols == chans@.len(),
            total == num_rows * num_cols,
            map@.len() == total,
            forall|ii: int|
                0 <= ii < data@.len() ==> crate::gpubox_files::spec_classify_name(
                    (#[trigger] data@[ii]).filename@,
                ) is Some,
            forall|ii: int|
                0 <= ii < i as int ==> 0 <= crate::gpubox_files::spec_batch_of(
                    (#[trigger] data@[ii]).filename,
                ) < 1000,
            forall|ii: int|
                0 <= ii < i as int ==> (#[trigger] data@[ii]).hdu_unix_times_ms@.len()
                    <= usize::MAX,
            forall|j: int|
                0 <= j < total ==> ((#[trigger] map@[j]) is Some <==> wit.dom().contains(j)),
            forall|j: int|
                #[trigger] wit.dom().contains(j) ==> {
                    let (i2, h2) = wit[j];
                    &&& 0 <= j < map@.len()
                    &&& 0 <= i2 < i as int
                    &&& 0 <= h2 < data@[i2].hdu_unix_times_ms@.len()
                    &&& spec_target_cell(
                        times@,
                        chans@,
                        data@[i2].hdu_unix_times_ms@[h2],
                        crate::gpubox_files::spec_chan_of(data@[i2].filename),
                    ) == Some(j)
                    &&& map@[j] == Some(
                        (
                            crate::gpubox_files::spec_batch_of(data@[i2].filename) as usize,
                            (h2 + 1) as usize,
                        ),
                    )
                },
            forall|i2: int, h2: int|
                0 <= i2 < i as int && 0 <= h2 < (#[trigger] data@[i2]).hdu_unix_times_ms@.len()
                    ==> match spec_target_cell(
                    times@,
                    chans@,
                    #[trigger] data@[i2].hdu_unix_times_ms@[h2],
                    crate::gpubox_files::spec_chan_of(data@[i2].filename),
                ) {
                    Some(j) => 0 <= j < map@.len() && map@[j] is Some,
                    None => true,
                },
        decreases n - i,
    {
        let classified = crate::gpubox_files::classify_filename(data[i].filename.as_str());
        let (_, batch, chan) = classified.unwrap();
        proof {
            reveal(crate::gpubox_files::spec_batch_of);
            reveal(crate::gpubox_files::spec_chan_of);
        }
        let num_hdus: usize = data[i].hdu_unix_times_ms.len();
        let mut h: usize = 0;
        while h < num_hdus
            invariant
                0 <= i < n,
                0 <= h <= num_hdus,
                n == data@.len(),
                num_rows == times@.len(),
                num_cols == chans@.len(),
                total == num_rows * num_cols,
                map@.len() == total,
                num_hdus == data@[i as int].hdu_unix_times_ms@.len(),
                batch as int == crate::gpubox_files::spec_batch_of(data@[i as int].filename),
                batch < 1000,
                chan as int == crate::gpubox_files::spec_chan_of(data@[i as int].filename),
                forall|ii: int|
                    0 <= ii < i as int ==> 0 <= crate::gpubox_files::spec_batch_of(
                        (#[trigger] data@[ii]).filename,
                    ) < 1000,
                forall|ii: int|
                    0 <= ii < i as int ==> (#[trigger] data@[ii]).hdu_unix_times_ms@.len()
                        <= usize::MAX,
                forall|ii: int|
                    0 <= ii < data@.len() ==> crate::gpubox_files::spec_classify_name(
                        (#[trigger] data@[ii]).filename@,
                    ) is Some,
                forall|j: int|
                    0 <= j < total ==> ((#[trigger] map@[j]) is Some <==> wit.dom().contains(j)),
                forall|j: int|
                    #[trigger] wit.dom().contains(j) ==> {
                        let (i2, h2) = wit[j];
                        &&& 0 <= j < map@.len()
                        &&& 0 <= i2 < n as int
                        &&& spec_pair_before(i2, h2, i as int, h as int)
                        &&& 0 <= h2 < data@[i2].hdu_unix_times_ms@.len()
                        &&& spec_target_cell(
                            times@,
                            chans@,
                            data@[i2].hdu_unix_times_ms@[h2],
                            crate::gpubox_files::spec_chan_of(data@[i2].filename),
                        ) == Some(j)
                        &&& map@[j] == Some(
                            (
                                crate::gpubox_files::spec_batch_of(data@[i2].filename) as usize,
                                (h2 + 1) as usize,
                            ),
                        )
                    },
                forall|i2: int, h2: int|
                    0 <= i2 < n as int && 0 <= h2 < (
                    #[trigger] data@[i2]).hdu_unix_times_ms@.len() && spec_pair_before(
                        i2,
                        h2,
                        i as int,
                        h as int,
                    ) ==> match spec_target_cell(
                        times@,
                        chans@,
                        #[trigger] data@[i2].hdu_unix_times_ms@[h2],
                        crate::gpubox_files::spec_chan_of(data@[i2].filename),
                    ) {
                        Some(j) => 0 <= j < map@.len() && map@[j] is Some,
                        None => true,
                    },
            decreases num_hdus - h,
        {
            let t_ms: u64 = data[i].hdu_unix_times_ms[h];
            let ghost this_target = spec_target_cell(
                times@,
                chans@,
                t_ms,
                crate::gpubox_files::spec_chan_of(data@[i as int].filename),
            );
            let row = find_row(times, t_ms);
            let col = find_col(chans, chan);
            if row.is_some() && col.is_some() {
                let r: usize = row.unwrap();
                let c: usize = col.unwrap();
                proof {
                    lemma_find_row_facts(times@, t_ms, 0);
                    lemma_find_col_facts(chans@, chan as int, 0);
                    assert((r as int) * (num_cols as int) + (c as int) < (num_rows as int) * (
                    num_cols as int)) by (nonlinear_arith)
                        requires
                            0 <= r < num_rows,
                            0 <= c < num_cols,
                    ;
                }
                let j: usize = r * num_cols + c;
                let ghost old_map = map@;
                let ghost old_wit = wit;
                proof {
                    assert(this_target == Some(j as int));
                }
                map[j] = Some((batch, h + 1));
                proof {
                    wit = wit.insert(j as int, (i as int, h as int));
                    assert forall|jj: int| #[trigger] wit.dom().contains(jj) implies {
                        let (i2, h2) = wit[jj];
                        &&& 0 <= jj < map@.len()
                        &&& 0 <= i2 < n as int
                        &&& spec_pair_before(i2, h2, i as int, h + 1)
                        &&& 0 <= h2 < data@[i2].hdu_unix_times_ms@.len()
                        &&& spec_target_cell(
                            times@,
                            chans@,
                            data@[i2].hdu_unix_times_ms@[h2],
                            crate::gpubox_files::spec_chan_of(data@[i2].filename),
                        ) == Some(jj)
                        &&& map@[jj] == Some(
                            (
                                crate::gpubox_files::spec_batch_of(data@[i2].filename) as usize,
                                (h2 + 1) as usize,
                            ),
                        )
                    } by {
                        if jj == j as int {
                            assert(wit[jj] == (i as int, h as int));
                        } else {
                            assert(old_wit.dom().contains(jj) && wit[jj] == old_wit[jj]);
                            assert(map@[jj] == old_map[jj]);
                        }
                    }
                    assert forall|i2: int, h2: int|
                        0 <= i2 < n as int && 0 <= h2 < (
                        #[trigger] data@[i2]).hdu_unix_times_ms@.len() && spec_pair_before(
                            i2,
                            h2,
                            i as int,
                            h + 1,
                        ) implies match spec_target_cell(
                        times@,
                        chans@,
                        #[trigger] data@[i2].hdu_unix_times_ms@[h2],
                        crate::gpubox_files::spec_chan_of(data@[i2].filename),
                    ) {
                        Some(jt) => 0 <= jt < map@.len() && map@[jt] is Some,
                        None => true,
                    } by {
                        if i2 == i as int && h2 == h as int {
                            assert(map@[j as int] is Some);
                        } else {
                            assert(spec_pair_before(i2, h2, i as int, h as int));
                            match spec_target_cell(
                                times@,
                                chans@,
                                data@[i2].hdu_unix_times_ms@[h2],
                                crate::gpubox_files::spec_chan_of(data@[i2].filename),
                            ) {
                                Some(jt) => {
                                    assert(0 <= jt < old_map.len() && old_map[jt] is Some);
                                    if jt == j as int {
                                        assert(map@[jt] is Some);
                                    } else {
                                        assert(map@[jt] == old_map[jt]);
                                    }
                                },
                                None => {},
                            }
                        }
                    }
                }
            } else {
                proof {
                    lemma_find_row_facts(times@, t_ms, 0);
                    lemma_find_col_facts(chans@, chan as int, 0);
                    assert(this_target is None);
                    assert forall|i2: int, h2: int|
                        0 <= i2 < n as int && 0 <= h2 < (
                        #[trigger] data@[i2]).hdu_unix_times_ms@.len() && spec_pair_before(
                            i2,
                            h2,
                            i as int,
                            h + 1,
                        ) implies match spec_target_cell(
                        times@,
                        chans@,
                        #[trigger] data@[i2].hdu_unix_times_ms@[h2],
                        crate::gpubox_files::spec_chan_of(data@[i2].filename),
                    ) {
                        Some(jt) => 0 <= jt < map@.len() && map@[jt] is Some,
                        None => true,
                    } by {
                        if i2 == i as int && h2 == h as int {
                            assert(spec_target_cell(
                                times@,
                                chans@,
                                data@[i2].hdu_unix_times_ms@[h2],
                                crate::gpubox_files::spec_chan_of(data@[i2].filename),
                            ) is None);
                        } else {
                            assert(spec_pair_before(i2, h2, i as int, h as int));
                        }
                    }
                }
            }
            h = h + 1;
        }
        i = i + 1;
    }
    map
}

// ---------------------------------------------------------------------------
// Provided / common / good index lists, read off the time/channel index.
// ---------------------------------------------------------------------------

/// The cell of timestep `t` and coarse channel `c` in the flat index.
pub open spec fn spec_cell_at(
    map: Seq<Option<(usize, usize)>>,
    num_cols: int,
    t: int,
    c: int,
) -> Option<(usize, usize)> {
    map[t * num_cols + c]
}

/// Does timestep `t` have data in at least one coarse channel?
pub open spec fn spec_row_has(map: Seq<Option<(usize, usize)>>, rows: int, cols: int, t: int) -> bool {
    exists|c: int| 0 <= c < cols && #[trigger] spec_cell_at(map, cols, t, c) is Some
}

/// Does coarse channel `c` have data at some timestep?
pub open spec fn spec_col_has(map: Seq<Option<(usize, usize)>>, rows: int, cols: int, c: int) -> bool {
    exists|t: int| 0 <= t < rows && #[trigger] spec_cell_at(map, cols, t, c) is Some
}

/// Does timestep `t` have data in every provided coarse channel?
pub open spec fn spec_row_common(
    map: Seq<Option<(usize, usize)>>,
    rows: int,
    cols: int,
    t: int,
) -> bool {
    &&& spec_row_has(map, rows, cols, t)
    &&& forall|c: int|
        0 <= c < cols && spec_col_has(map, rows, cols, c) ==> #[trigger] spec_cell_at(
            map,
            cols,
            t,
            c,
        ) is Some
}

/// Does coarse channel `c` have data at every provided timestep?
pub open spec fn spec_col_common(
    map: Seq<Option<(usize, usize)>>,
    rows: int,
    cols: int,
    c: int,
) -> bool {
    &&& spec_col_has(map, rows, cols, c)
    &&& forall|t: int|
        0 <= t < rows && spec_row_has(map, rows, cols, t) ==> #[trigger] spec_cell_at(
            map,
            cols,
            t,
            c,
        ) is Some
}

/// Is timestep `t` common and at or after the good-time boundary?
pub open spec fn spec_row_good(
    map: Seq<Option<(usize, usize)>>,
    rows: int,
    cols: int,
    times: Seq<TimeStep>,
    good_time_unix_ms: u64,
    t: int,
) -> bool {
    spec_row_common(map, rows, cols, t) && times[t].unix_time_ms >= good_time_unix_ms
}

/// Does coarse channel `c` have data at every good timestep, there being
/// at least one?
pub open spec fn spec_col_good(
    map: Seq<Option<(usize, usize)>>,
    rows: int,
    cols: int,
    times: Seq<TimeStep>,
    good_time_unix_ms: u64,
    c: int,
) -> bool {
    &&& exists|t: int| 0 <= t < rows && #[trigger] spec_row_good(map, rows, cols, times, good_time_unix_ms, t)
    &&& spec_col_has(map, rows, cols, c)
    &&& forall|t: int|
        0 <= t < rows && spec_row_good(map, rows, cols, times, good_time_unix_ms, t)
            ==> #[trigger] spec_cell_at(map, cols, t, c) is Some
}

/// Is `list` exactly the ascending list of the indices whose flag is set?
pub open spec fn spec_index_list(list: Seq<usize>, flags: Seq<bool>) -> bool {
    &&& forall|k1: int, k2: int| 0 <= k1 < k2 < list.len() ==> list[k1] < list[k2]
    &&& forall|k: int|
        0 <= k < list.len() ==> (#[trigger] list[k]) < flags.len() && flags[list[k] as int]
    &&& forall|j: int| 0 <= j < flags.len() && #[trigger] flags[j] ==> list.contains(j as usize)
}

/// Collect the indices whose flag is set, ascending.
fn indices_of_true(flags: &Vec<bool>) -> (r: Vec<usize>)
    ensures
        spec_index_list(r@, flags@),
{
    let n: usize = flags.len();
    let mut r: Vec<usize> = Vec::new();
    let mut j: usize = 0;
    while j < n
        invariant
            0 <= j <= n,
            n == flags@.len(),
            forall|k1: int, k2: int| 0 <= k1 < k2 < r@.len() ==> r@[k1] < r@[k2],
            forall|k: int| 0 <= k < r@.len() ==> (#[trigger] r@[k]) < j && flags@[r@[k] as int],
            forall|j2: int| 0 <= j2 < j && #[trigger] flags@[j2] ==> r@.contains(j2 as usize),
        decreases n - j,
    {
        if flags[j] {
            let ghost old_r = r@;
            r.push(j);
            proof {
                assert forall|j2: int| 0 <= j2 < j + 1 && #[trigger] flags@[j2] implies r@.contains(
                    j2 as usize,
                ) by {
                    if j2 == j as int {
                        assert(r@[old_r.len() as int] == j as usize);
                    } else {
                        let k0 = choose|k: int| 0 <= k < old_r.len() && old_r[k] == j2 as usize;
                        assert(r@[k0] == j2 as usize);
                    }
                }
            }
        }
        j = j + 1;
    }
    r
}

/// Does the cell of timestep `t` and channel `c` hold data?
fn cell_is_some(
    map: &Vec<Option<(usize, usize)>>,
    num_rows: usize,
    num_cols: usize,
    t: usize,
    c: usize,
) -> (r: bool)
    requires
        map@.len() == num_rows * num_cols,
        t < num_rows,
        c < num_cols,
    ensures
        r == spec_cell_at(map@, num_cols as int, t as int, c as int) is Some,
{
    // Observing the vector's length grounds the flat cell index below
    // usize::MAX.
    let _len: usize = map.len();
    proof {
        assert((t as int) * (num_cols as int) + (c as int) < (num_rows as int) * (
        num_cols as int)) by (nonlinear_arith)
            requires
                0 <= t < num_rows,
                0 <= c < num_cols,
        ;
    }
    map[t * num_cols + c].is_some()
}

/// Does timestep `t` have data in at least one coarse channel?
fn row_has_any(
    map: &Vec<Option<(usize, usize)>>,
    num_rows: usize,
    num_cols: usize,
    t: usize,
) -> (r: bool)
    requires
        map@.len() == num_rows * num_cols,
        t < num_rows,
    ensures
        r == spec_row_has(map@, num_rows as int, num_cols as int, t as int),
{
    let mut c: usize = 0;
    while c < num_cols
        invariant
            0 <= c <= num_cols,
            map@.len() == num_rows * num_cols,
            t < num_rows,
            forall|c2: int|
                0 <= c2 < c ==> !(#[trigger] spec_cell_at(map@, num_cols as int, t as int, c2)
                    is Some),
        decreases num_cols - c,
    {
        if cell_is_some(map, num_rows, num_cols, t, c) {
            return true;
        }
        c = c + 1;
    }
    false
}

/// Does coarse channel `c` have data at some timestep?
fn col_has_any(
    map: &Vec<Option<(usize, usize)>>,
    num_rows: usize,
    num_cols: usize,
    c: usize,
) -> (r: bool)
    requires
        map@.len() == num_rows * num_cols,
        c < num_cols,
    ensures
        r == spec_col_has(map@, num_rows as int, num_cols as int, c as int),
{
    let mut t: usize = 0;
    while t < num_rows
        invariant
            0 <= t <= num_rows,
            map@.len() == num_rows * num_cols,
            c < num_cols,
            forall|t2: int|
                0 <= t2 < t ==> !(#[trigger] spec_cell_at(map@, num_cols as int, t2, c as int)
                    is Some),
        decreases num_rows - t,
    {
        if cell_is_some(map, num_rows, num_cols, t, c) {
            return true;
        }
        t = t + 1;
    }
    false
}

/// Does timestep `t` have data in every coarse channel whose flag marks
/// it as provided?
fn row_is_common(
    map: &Vec<Option<(usize, usize)>>,
    num_rows: usize,
    num_cols: usize,
    col_flags: &Vec<bool>,
    t: usize,
) -> (r: bool)
    requires
        map@.len() == num_rows * num_cols,
        t < num_rows,
        col_flags@.len() == num_cols,
        forall|c: int|
            0 <= c < num_cols ==> #[trigger] col_flags@[c] == spec_col_has(
                map@,
                num_rows as int,
                num_cols as int,
                c,
            ),
    ensures
        r == spec_row_common(map@, num_rows as int, num_cols as int, t as int),
{
    if !row_has_any(map, num_rows, num_cols, t) {
        return false;
    }
    let mut c: usize = 0;
    while c < num_cols
        invariant
            0 <= c <= num_cols,
            map@.len() == num_rows * num_cols,
            t < num_rows,
            col_flags@.len() == num_cols,
            forall|c2: int|
                0 <= c2 < num_cols ==> #[trigger] col_flags@[c2] == spec_col_has(
                    map@,
                    num_rows as int,
                    num_cols as int,
                    c2,
                ),
            spec_row_has(map@, num_rows as int, num_cols as int, t as int),
            forall|c2: int|
                0 <= c2 < c && spec_col_has(map@, num_rows as int, num_cols as int, c2)
                    ==> #[trigger] spec_cell_at(map@, num_cols as int, t as int, c2) is Some,
        decreases num_cols - c,
    {
        if col_flags[c] && !cell_is_some(map, num_rows, num_cols, t, c) {
            return false;
        }
        c = c + 1;
    }
    true
}

/// The validated observation context: metadata, channel and timestep
/// descriptors, the batch list, the time/channel index, and the common /
/// good / provided index lists, all fixed at construction.
#[derive(Debug)]
pub struct CorrelatorContext {
    /// The observation's metadata context.
    pub metafits_context: MetafitsContext,
    /// The hardware generation of all the data files.
    pub mwa_version: MWAVersion,
    /// Number of entries of the scheduled timestep grid.
    pub num_timesteps: usize,
    /// The scheduled timestep grid.
    pub timesteps: Vec<TimeStep>,
    /// Number of the observation's coarse channels.
    pub num_coarse_chans: usize,
    /// The observation's coarse channels, ascending by centre frequency.
    pub coarse_chans: Vec<CoarseChannel>,
    /// Number of timesteps every provided coarse channel has data for.
    pub num_common_timesteps: usize,
    /// Indices of the timesteps every provided coarse channel has data
    /// for, ascending.
    pub common_timestep_indices: Vec<usize>,
    /// Number of coarse channels with data at every provided timestep.
    pub num_common_coarse_chans: usize,
    /// Indices of the coarse channels with data at every provided
    /// timestep, ascending.
    pub common_coarse_chan_indices: Vec<usize>,
    /// Start (UNIX ms) of the first common timestep, 0 where none.
    pub common_start_unix_time_ms: u64,
    /// End (UNIX ms) of the last common timestep, 0 where none.
    pub common_end_unix_time_ms: u64,
    /// Length of the common time span in ms.
    pub common_duration_ms: u64,
    /// Bandwidth covered by the common coarse channels, in Hz.
    pub common_bandwidth_hz: u32,
    /// Number of common timesteps at or after the good-time boundary.
    pub num_common_good_timesteps: usize,
    /// Indices of the common timesteps at or after the good-time
    /// boundary, ascending.
    pub common_good_timestep_indices: Vec<usize>,
    /// Number of coarse channels with data at every good timestep; 0
    /// where there is no good timestep.
    pub num_common_good_coarse_chans: usize,
    /// Indices of the coarse channels with data at every good timestep,
    /// ascending; empty where there is no good timestep.
    pub common_good_coarse_chan_indices: Vec<usize>,
    /// Number of timesteps with data in at least one coarse channel.
    pub num_provided_timesteps: usize,
    /// Indices of the timesteps with data in at least one coarse
    /// channel, ascending.
    pub provided_timestep_indices: Vec<usize>,
    /// Number of coarse channels with data at some timestep.
    pub num_provided_coarse_chans: usize,
    /// Indices of the coarse channels with data at some timestep,
    /// ascending.
    pub provided_coarse_chan_indices: Vec<usize>,
    /// Number of 32-bit samples of one (timestep, coarse channel) block.
    pub num_timestep_coarse_chan_floats: usize,
    /// Number of data files supplied.
    pub num_gpubox_files: usize,
    /// The data files, grouped into batches.
    pub gpubox_batches: Vec<GpuboxBatch>,
    /// The time/channel index: entry `t * num_coarse_chans + c` locates
    /// the data unit of timestep `t` and coarse channel `c` as
    /// (batch index, position in file), or holds `None` where no data
    /// was recorded.
    pub gpubox_time_map: Vec<Option<(usize, usize)>>,
}

/// Does coarse channel `c` have data at every timestep whose flag marks
/// it as provided?
fn col_is_common(
    map: &Vec<Option<(usize, usize)>>,
    num_rows: usize,
    num_cols: usize,
    row_flags: &Vec<bool>,
    c: usize,
) -> (r: bool)
    requires
        map@.len() == num_rows * num_cols,
        c < num_cols,
        row_flags@.len() == num_rows,
        forall|t: int|
            0 <= t < num_rows ==> #[trigger] row_flags@[t] == spec_row_has(
                map@,
                num_rows as int,
                num_cols as int,
                t,
            ),
    ensures
        r == spec_col_common(map@, num_rows as int, num_cols as int, c as int),
{
    if !col_has_any(map, num_rows, num_cols, c) {
        return false;
    }
    let mut t: usize = 0;
    while t < num_rows
        invariant
            0 <= t <= num_rows,
            map@.len() == num_rows * num_cols,
            c < num_cols,
            row_flags@.len() == num_rows,
            forall|t2: int|
                0 <= t2 < num_rows ==> #[trigger] row_flags@[t2] == spec_row_has(
                    map@,
                    num_rows as int,
                    num_cols as int,
                    t2,
                ),
            spec_col_has(map@, num_rows as int, num_cols as int, c as int),
            forall|t2: int|
                0 <= t2 < t && spec_row_has(map@, num_rows as int, num_cols as int, t2)
                    ==> #[trigger] spec_cell_at(map@, num_cols as int, t2, c as int) is Some,
        decreases num_rows - t,
    {
        if row_flags[t] && !cell_is_some(map, num_rows, num_cols, t, c) {
            return false;
        }
        t = t + 1;
    }
    true
}

/// Does coarse channel `c` have data at every timestep whose flag marks
/// it as good, there being at least one?
fn col_is_good(
    map: &Vec<Option<(usize, usize)>>,
    num_rows: usize,
    num_cols: usize,
    good_row_flags: &Vec<bool>,
    any_good: bool,
    times: &Vec<TimeStep>,
    good_time_unix_ms: u64,
    c: usize,
) -> (r: bool)
    requires
        map@.len() == num_rows * num_cols,
        c < num_cols,
        good_row_flags@.len() == num_rows,
        times@.len() == num_rows,
        forall|t: int|
            0 <= t < num_rows ==> #[trigger] good_row_flags@[t] == spec_row_good(
                map@,
                num_rows as int,
                num_cols as int,
                times@,
                good_time_unix_ms,
                t,
            ),
        any_good == exists|t: int|
            0 <= t < num_rows && #[trigger] spec_row_good(
                map@,
                num_rows as int,
                num_cols as int,
                times@,
                good_time_unix_ms,
                t,
            ),
    ensures
        r == spec_col_good(
            map@,
            num_rows as int,
            num_cols as int,
            times@,
            good_time_unix_ms,
            c as int,
        ),
{
    if !any_good {
        return false;
    }
    if !col_has_any(map, num_rows, num_cols, c) {
        return false;
    }
    let mut t: usize = 0;
    while t < num_rows
        invariant
            0 <= t <= num_rows,
            map@.len() == num_rows * num_cols,
            c < num_cols,
            good_row_flags@.len() == num_rows,
            times@.len() == num_rows,
            forall|t2: int|
                0 <= t2 < num_rows ==> #[trigger] good_row_flags@[t2] == spec_row_good(
                    map@,
                    num_rows as int,
                    num_cols as int,
                    times@,
                    good_time_unix_ms,
                    t2,
                ),
            exists|t2: int|
                0 <= t2 < num_rows && #[trigger] spec_row_good(
                    map@,
                    num_rows as int,
                    num_cols as int,
                    times@,
                    good_time_unix_ms,
                    t2,
                ),
            spec_col_has(map@, num_rows as int, num_cols as int, c as int),
            forall|t2: int|
                0 <= t2 < t && spec_row_good(
                    map@,
                    num_rows as int,
                    num_cols as int,
                    times@,
                    good_time_unix_ms,
                    t2,
                ) ==> #[trigger] spec_cell_at(map@, num_cols as int, t2, c as int) is Some,
        decreases num_rows - t,
    {
        if good_row_flags[t] && !cell_is_some(map, num_rows, num_cols, t, c) {
            return false;
        }
        t = t + 1;
    }
    true
}

/// Is any flag set?
fn any_flag(flags: &Vec<bool>) -> (r: bool)
    ensures
        r == exists|j: int| 0 <= j < flags@.len() && #[trigger] flags@[j],
{
    let n: usize = flags.len();
    let mut j: usize = 0;
    while j < n
        invariant
            0 <= j <= n,
            n == flags@.len(),
            forall|j2: int| 0 <= j2 < j ==> !(#[trigger] flags@[j2]),
        decreases n - j,
    {
        if flags[j] {
            return true;
        }
        j = j + 1;
    }
    false
}

/// A prefix of valid files pushes the first invalid file further out.
proof fn lemma_first_invalid_from(
    m: MetafitsContext,
    v: MWAVersion,
    data: Seq<GpuboxFileData>,
    k: int,
)
    requires
        0 <= k <= data.len(),
        forall|j: int| 0 <= j < k ==> spec_file_valid(m, v, #[trigger] data[j]),
    ensures
        spec_first_invalid(m, v, data, 0) == spec_first_invalid(m, v, data, k),
    decreases k,
{
    if k > 0 {
        lemma_first_invalid_from(m, v, data, k - 1);
    }
}

/// When no file is invalid, every file is valid.
proof fn lemma_all_valid(m: MetafitsContext, v: MWAVersion, data: Seq<GpuboxFileData>, k: int)
    requires
        0 <= k <= data.len(),
        spec_first_invalid(m, v, data, k) == data.len(),
    ensures
        forall|j: int| k <= j < data.len() ==> spec_file_valid(m, v, #[trigger] data[j]),
    decreases data.len() - k,
{
    if k < data.len() {
        lemma_all_valid(m, v, data, k + 1);
    }
}

/// Relate the freshly built time/channel index to the data it was built
/// from: every filled cell points below the batch count at a data unit
/// of a validated file, and a cell is filled exactly when a file
/// recorded a unit for its timestep and channel.
#[verifier::rlimit(100)]
proof fn lemma_map_characterization(
    m: MetafitsContext,
    v: MWAVersion,
    data: Seq<GpuboxFileData>,
    times: Seq<TimeStep>,
    chans: Seq<CoarseChannel>,
    map: Seq<Option<(usize, usize)>>,
    num_batches: int,
)
    requires
        m.wf(),
        v.is_corr(),
        times == m.metafits_timesteps@,
        chans.len() == m.metafits_coarse_chans@.len(),
        forall|c: int|
            0 <= c < chans.len() ==> (#[trigger] chans[c]).gpubox_number
                == CoarseChannel::spec_gpubox_number(v, c, m.metafits_coarse_chans@[c] as int),
        map.len() == times.len() * chans.len(),
        0 <= num_batches <= usize::MAX,
        forall|i: int|
            0 <= i < data.len() ==> (#[trigger] data[i]).hdu_unix_times_ms@.len() <= usize::MAX,
        forall|i: int|
            0 <= i < data.len() ==> crate::gpubox_files::spec_classify_name(
                (#[trigger] data[i]).filename@,
            ) is Some,
        forall|i: int|
            0 <= i < data.len() ==> 0 <= crate::gpubox_files::spec_batch_of(
                (#[trigger] data[i]).filename,
            ) < num_batches,
        forall|i: int| 0 <= i < data.len() ==> spec_file_valid(m, v, #[trigger] data[i]),
        forall|j: int|
            0 <= j < map.len() && (#[trigger] map[j]) is Some ==> exists|i: int, h: int|
                0 <= i < data.len() && 0 <= h < data[i].hdu_unix_times_ms@.len()
                    && #[trigger] spec_target_cell(
                    times,
                    chans,
                    data[i].hdu_unix_times_ms@[h],
                    crate::gpubox_files::spec_chan_of(data[i].filename),
                ) == Some(j) && map[j] == Some(
                    (
                        crate::gpubox_files::spec_batch_of(data[i].filename) as usize,
                        (h + 1) as usize,
                    ),
                ),
        forall|i: int, h: int|
            0 <= i < data.len() && 0 <= h < (#[trigger] data[i]).hdu_unix_times_ms@.len()
                ==> match spec_target_cell(
                times,
                chans,
                #[trigger] data[i].hdu_unix_times_ms@[h],
                crate::gpubox_files::spec_chan_of(data[i].filename),
            ) {
                Some(j) => 0 <= j < map.len() && map[j] is Some,
                None => true,
            },
    ensures
        forall|j: int|
            0 <= j < map.len() ==> match #[trigger] map[j] {
                Some((b, h)) => b < num_batches && h >= 1,
                None => true,
            },
        forall|t: int, c: int|
            0 <= t < times.len() && 0 <= c < chans.len() ==> ((#[trigger] spec_cell_at(
                map,
                chans.len() as int,
                t,
                c,
            )) is Some <==> spec_data_at(data, times[t].unix_time_ms, chans[c].gpubox_number as int)),
        forall|t: int, c: int|
            0 <= t < times.len() && 0 <= c < chans.len() ==> match #[trigger] spec_cell_at(
                map,
                chans.len() as int,
                t,
                c,
            ) {
                Some((b, h)) => exists|i: int|
                    0 <= i < data.len() && spec_file_valid(m, v, #[trigger] data[i])
                        && crate::gpubox_files::spec_batch_of(data[i].filename) == b
                        && crate::gpubox_files::spec_chan_of(data[i].filename)
                        == chans[c].gpubox_number && 1 <= h && h - 1
                        < data[i].hdu_unix_times_ms@.len() && data[i].hdu_unix_times_ms@[h - 1]
                        == times[t].unix_time_ms,
                None => true,
            },
{
    let rows = times.len() as int;
    let cols = chans.len() as int;
    lemma_grid_times_increase(m);
    lemma_chan_ids_unique(m, v, chans);
    // Every filled cell's location is in range.
    assert forall|j: int| 0 <= j < map.len() implies match #[trigger] map[j] {
        Some((b, h)) => b < num_batches && h >= 1,
        None => true,
    } by {
        if map[j] is Some {
            let (i, h) = choose|i: int, h: int|
                0 <= i < data.len() && 0 <= h < data[i].hdu_unix_times_ms@.len()
                    && #[trigger] spec_target_cell(
                    times,
                    chans,
                    data[i].hdu_unix_times_ms@[h],
                    crate::gpubox_files::spec_chan_of(data[i].filename),
                ) == Some(j) && map[j] == Some(
                    (
                        crate::gpubox_files::spec_batch_of(data[i].filename) as usize,
                        (h + 1) as usize,
                    ),
                );
            assert(0 <= crate::gpubox_files::spec_batch_of(data[i].filename) < num_batches);
            assert(0 <= h + 1 <= usize::MAX);
        }
    }
    // Forward and backward correspondence per cell.
    assert forall|t: int, c: int| 0 <= t < rows && 0 <= c < cols implies ((
    #[trigger] spec_cell_at(map, cols, t, c)) is Some <==> spec_data_at(
        data,
        times[t].unix_time_ms,
        chans[c].gpubox_number as int,
    )) && (match spec_cell_at(map, cols, t, c) {
        Some((b, h)) => exists|i: int|
            0 <= i < data.len() && spec_file_valid(m, v, #[trigger] data[i])
                && crate::gpubox_files::spec_batch_of(data[i].filename) == b
                && crate::gpubox_files::spec_chan_of(data[i].filename) == chans[c].gpubox_number
                && 1 <= h && h - 1 < data[i].hdu_unix_times_ms@.len()
                && data[i].hdu_unix_times_ms@[h - 1] == times[t].unix_time_ms,
        None => true,
    }) by {
        assert(0 <= t * cols + c < rows * cols) by (nonlinear_arith)
            requires
                0 <= t < rows,
                0 <= c < cols,
        ;
        let j = t * cols + c;
        if spec_cell_at(map, cols, t, c) is Some {
            // A filled cell comes from some data unit of some file.
            let (i, h) = choose|i: int, h: int|
                0 <= i < data.len() && 0 <= h < data[i].hdu_unix_times_ms@.len()
                    && #[trigger] spec_target_cell(
                    times,
                    chans,
                    data[i].hdu_unix_times_ms@[h],
                    crate::gpubox_files::spec_chan_of(data[i].filename),
                ) == Some(j) && map[j] == Some(
                    (
                        crate::gpubox_files::spec_batch_of(data[i].filename) as usize,
                        (h + 1) as usize,
                    ),
                );
            let t_ms = data[i].hdu_unix_times_ms@[h];
            let chan_id = crate::gpubox_files::spec_chan_of(data[i].filename);
            let r0 = spec_find_row(times, t_ms, 0)->Some_0;
            let c0 = spec_find_col(chans, chan_id, 0)->Some_0;
            lemma_find_row_facts(times, t_ms, 0);
            lemma_find_col_facts(chans, chan_id, 0);
            lemma_cell_decompose(cols, r0, c0, t, c);
            assert(times[t].unix_time_ms == t_ms && chans[c].gpubox_number == chan_id);
            assert(spec_data_at(data, times[t].unix_time_ms, chans[c].gpubox_number as int));
            let b_cell = (crate::gpubox_files::spec_batch_of(data[i].filename) as usize);
            let h_cell = ((h + 1) as usize);
            assert(spec_cell_at(map, cols, t, c) == Some((b_cell, h_cell)));
            assert(0 <= i < data.len() && spec_file_valid(m, v, data[i])
                && crate::gpubox_files::spec_batch_of(data[i].filename) == b_cell
                && crate::gpubox_files::spec_chan_of(data[i].filename) == chans[c].gpubox_number
                && 1 <= h_cell && h_cell - 1 < data[i].hdu_unix_times_ms@.len()
                && data[i].hdu_unix_times_ms@[h_cell - 1] == times[t].unix_time_ms);
        }
        if spec_data_at(data, times[t].unix_time_ms, chans[c].gpubox_number as int) {
            // A recorded data unit fills its cell.
            let t_ms = times[t].unix_time_ms;
            let chan_id = chans[c].gpubox_number as int;
            let (i, h) = choose|i: int, h: int|
                0 <= i < data.len() && crate::gpubox_files::spec_chan_of(data[i].filename)
                    == chan_id && 0 <= h < data[i].hdu_unix_times_ms.len()
                    && #[trigger] data[i].hdu_unix_times_ms@[h] == t_ms;
            lemma_find_row_facts(times, t_ms, 0);
            lemma_find_col_facts(chans, chan_id, 0);
            if spec_find_row(times, t_ms, 0) is None {
                assert(times[t].unix_time_ms != t_ms);
                assert(false);
            }
            if spec_find_col(chans, chan_id, 0) is None {
                assert(chans[c].gpubox_number != chan_id);
                assert(false);
            }
            let r0 = spec_find_row(times, t_ms, 0)->Some_0;
            let c0 = spec_find_col(chans, chan_id, 0)->Some_0;
            // The found row and column are the unique ones.
            if r0 != t {
                assert(times[r0].unix_time_ms == t_ms && times[t].unix_time_ms == t_ms);
                assert(false);
            }
            if c0 != c {
                assert(chans[c0].gpubox_number == chan_id && chans[c].gpubox_number == chan_id);
                assert(false);
            }
            assert(spec_target_cell(times, chans, t_ms, chan_id) == Some(j));
            assert(map[j] is Some);
        }
    }
}

/// The scheduled grid's start times are strictly increasing.
proof fn lemma_grid_times_increase(m: MetafitsContext)
    requires
        m.wf(),
    ensures
        forall|t1: int, t2: int|
            0 <= t1 < t2 < m.metafits_timesteps@.len()
                ==> (#[trigger] m.metafits_timesteps@[t1]).unix_time_ms < (
            #[trigger] m.metafits_timesteps@[t2]).unix_time_ms,
{
    assert forall|t1: int, t2: int|
        0 <= t1 < t2 < m.metafits_timesteps@.len() implies (
    #[trigger] m.metafits_timesteps@[t1]).unix_time_ms < (
    #[trigger] m.metafits_timesteps@[t2]).unix_time_ms by {
        let count = m.metafits_timesteps@.len() as int;
        assert(t1 * m.corr_int_time_ms < t2 * m.corr_int_time_ms && t2 * m.corr_int_time_ms
            <= m.sched_duration_ms && t1 * m.corr_int_time_ms
            <= m.sched_duration_ms) by (nonlinear_arith)
            requires
                0 <= t1 < t2 <= count - 1,
                m.corr_int_time_ms >= 1,
                count == m.sched_duration_ms as int / m.corr_int_time_ms as int,
        ;
    }
}

/// Distinct coarse channels carry distinct channel identifiers.
proof fn lemma_chan_ids_unique(m: MetafitsContext, v: MWAVersion, chans: Seq<CoarseChannel>)
    requires
        m.wf(),
        v.is_corr(),
        chans.len() == m.metafits_coarse_chans@.len(),
        forall|c: int|
            0 <= c < chans.len() ==> (#[trigger] chans[c]).gpubox_number
                == CoarseChannel::spec_gpubox_number(v, c, m.metafits_coarse_chans@[c] as int),
    ensures
        forall|c1: int, c2: int|
            0 <= c1 < c2 < chans.len() ==> (#[trigger] chans[c1]).gpubox_number != (
            #[trigger] chans[c2]).gpubox_number,
{
}

/// Two in-range cell coordinates with the same flat index are the same.
proof fn lemma_cell_decompose(cols: int, r1: int, c1: int, r2: int, c2: int)
    requires
        cols >= 1,
        0 <= c1 < cols,
        0 <= c2 < cols,
        r1 >= 0,
        r2 >= 0,
        r1 * cols + c1 == r2 * cols + c2,
    ensures
        r1 == r2 && c1 == c2,
{
    let j = r1 * cols + c1;
    lemma_fundamental_div_mod_converse(j, cols, r1, c1);
    lemma_fundamental_div_mod_converse(j, cols, r2, c2);
}

/// A strictly ascending list of indices below `bound` has at most
/// `bound` entries, each at least its position.
proof fn lemma_sorted_list_bounds(list: Seq<usize>, bound: int)
    requires
        bound >= 0,
        forall|k1: int, k2: int| 0 <= k1 < k2 < list.len() ==> list[k1] < list[k2],
        forall|k: int| 0 <= k < list.len() ==> (#[trigger] list[k]) < bound,
    ensures
        list.len() <= bound,
        forall|k: int| 0 <= k < list.len() ==> (#[trigger] list[k]) >= k,
    decreases list.len(),
{
    if list.len() > 0 {
        let prefix = list.drop_last();
        assert forall|k: int| 0 <= k < prefix.len() implies (#[trigger] prefix[k]) < bound by {
            assert(prefix[k] == list[k]);
        }
        lemma_sorted_list_bounds(prefix, bound);
        assert forall|k: int| 0 <= k < list.len() implies (#[trigger] list[k]) >= k by {
            if k < list.len() - 1 {
                assert(prefix[k] == list[k]);
            } else if k == list.len() - 1 && k > 0 {
                assert(list[k] > list[k - 1] && list[k - 1] == prefix[k - 1]);
            }
        }
        assert(list[list.len() - 1] >= list.len() - 1);
    }
}

impl CorrelatorContext {
    /// Internal consistency of a constructed context: the metadata is
    /// well-formed, the grids, descriptor lists, index and derived index
    /// lists all agree with it and with each other.
    pub open spec fn wf(self) -> bool {
        let m = self.metafits_context;
        let rows = self.num_timesteps as int;
        let cols = self.num_coarse_chans as int;
        let map = self.gpubox_time_map@;
        &&& m.wf()
        &&& self.mwa_version.is_corr()
        &&& self.timesteps@ == m.metafits_timesteps@
        &&& self.num_timesteps == self.timesteps@.len()
        &&& self.coarse_chans@.len() == m.metafits_coarse_chans@.len()
        &&& self.num_coarse_chans == self.coarse_chans@.len()
        &&& forall|c: int|
            0 <= c < cols ==> #[trigger] self.coarse_chans@[c] == (CoarseChannel {
                corr_chan_number: c as usize,
                gpubox_number: CoarseChannel::spec_gpubox_number(
                    self.mwa_version,
                    c,
                    m.metafits_coarse_chans@[c] as int,
                ) as usize,
                rec_chan_number: m.metafits_coarse_chans@[c],
                chan_centre_hz: (m.metafits_coarse_chans@[c] * m.coarse_chan_width_hz) as u32,
            })
        &&& map.len() == rows * cols
        &&& forall|j: int|
            0 <= j < map.len() ==> match #[trigger] map[j] {
                Some((b, h)) => b < self.gpubox_batches@.len() && h >= 1,
                None => true,
            }
        &&& self.num_timestep_coarse_chan_floats == m.num_baselines
            * m.num_corr_fine_chans_per_coarse * m.num_visibility_pols * 2
        &&& spec_index_list(
            self.provided_timestep_indices@,
            Seq::new(rows as nat, |t: int| spec_row_has(map, rows, cols, t)),
        )
        &&& self.num_provided_timesteps == self.provided_timestep_indices@.len()
        &&& spec_index_list(
            self.provided_coarse_chan_indices@,
            Seq::new(cols as nat, |c: int| spec_col_has(map, rows, cols, c)),
        )
        &&& self.num_provided_coarse_chans == self.provided_coarse_chan_indices@.len()
        &&& spec_index_list(
            self.common_timestep_indices@,
            Seq::new(rows as nat, |t: int| spec_row_common(map, rows, cols, t)),
        )
        &&& self.num_common_timesteps == self.common_timestep_indices@.len()
        &&& spec_index_list(
            self.common_coarse_chan_indices@,
            Seq::new(cols as nat, |c: int| spec_col_common(map, rows, cols, c)),
        )
        &&& self.num_common_coarse_chans == self.common_coarse_chan_indices@.len()
        &&& spec_index_list(
            self.common_good_timestep_indices@,
            Seq::new(
                rows as nat,
                |t: int|
                    spec_row_good(map, rows, cols, self.timesteps@, m.good_time_unix_ms, t),
            ),
        )
        &&& self.num_common_good_timesteps == self.common_good_timestep_indices@.len()
        &&& spec_index_list(
            self.common_good_coarse_chan_indices@,
            Seq::new(
                cols as nat,
                |c: int|
                    spec_col_good(map, rows, cols, self.timesteps@, m.good_time_unix_ms, c),
            ),
        )
        &&& self.num_common_good_coarse_chans == self.common_good_coarse_chan_indices@.len()
        &&& self.common_start_unix_time_ms == (if self.common_timestep_indices@.len() == 0 {
            0u64
        } else {
            self.timesteps@[self.common_timestep_indices@[0] as int].unix_time_ms
        })
        &&& self.common_end_unix_time_ms as int == (if self.common_timestep_indices@.len() == 0 {
            0
        } else {
            self.timesteps@[self.common_timestep_indices@[self.common_timestep_indices@.len()
                - 1] as int].unix_time_ms + m.corr_int_time_ms
        })
        &&& self.common_duration_ms == self.common_end_unix_time_ms
            - self.common_start_unix_time_ms
        &&& self.common_bandwidth_hz == self.num_common_coarse_chans * m.coarse_chan_width_hz
    }
}

impl CorrelatorContext {
    /// Check a data unit's declared axis lengths against the record
    /// shape the metadata implies for generation `corr_version`: axis 1
    /// first, then axis 2. Rejects the voltage-capture generations with
    /// `InvalidMwaVersion`.
    pub fn validate_hdu_axes(
        corr_version: MWAVersion,
        metafits_fine_chans_per_coarse: usize,
        metafits_baselines: usize,
        visibility_pols: usize,
        naxis1: usize,
        naxis2: usize,
    ) -> (r: Result<(), GpuboxError>)
        requires
            metafits_baselines * visibility_pols * 2 <= i32::MAX,
            metafits_fine_chans_per_coarse * visibility_pols * 2 <= i32::MAX,
        ensures
            r is Ok <==> (corr_version.is_corr() && naxis1 == spec_calc_naxis1(
                corr_version,
                metafits_fine_chans_per_coarse as int,
                metafits_baselines as int,
                visibility_pols as int,
            ) && naxis2 == spec_calc_naxis2(
                corr_version,
                metafits_fine_chans_per_coarse as int,
                metafits_baselines as int,
            )),
            !corr_version.is_corr() ==> r == Err::<(), GpuboxError>(
                GpuboxError::InvalidMwaVersion { mwa_version: corr_version },
            ),
            corr_version.is_corr() ==> (r matches Err(e) ==> spec_axes_error(
                corr_version,
                metafits_fine_chans_per_coarse as int,
                metafits_baselines as int,
                visibility_pols as int,
                naxis1 as int,
                naxis2 as int,
                e,
            )),
    {
        match corr_version {
            MWAVersion::CorrOldLegacy | MWAVersion::CorrLegacy => {
                let calculated_naxis1: usize = metafits_baselines * visibility_pols * 2;
                let calculated_naxis2: usize = metafits_fine_chans_per_coarse;
                if naxis1 != calculated_naxis1 {
                    return Err(
                        GpuboxError::LegacyNaxis1Mismatch {
                            naxis1,
                            calculated_naxis1: calculated_naxis1 as i32,
                            metafits_baselines,
                            visibility_pols,
                            naxis2,
                        },
                    );
                }
                if naxis2 != calculated_naxis2 {
                    return Err(
                        GpuboxError::LegacyNaxis2Mismatch {
                            naxis2,
                            calculated_naxis2: calculated_naxis2 as i32,
                            metafits_fine_chans_per_coarse,
                        },
                    );
                }
                Ok(())
            },
            MWAVersion::CorrMWAXv2 => {
                let calculated_naxis1: usize = metafits_fine_chans_per_coarse * visibility_pols
                    * 2;
                let calculated_naxis2: usize = metafits_baselines;
                if naxis1 != calculated_naxis1 {
                    return Err(
                        GpuboxError::MwaxNaxis1Mismatch {
                            naxis1,
                            calculated_naxis1: calculated_naxis1 as i32,
                            metafits_fine_chans_per_coarse,
                            visibility_pols,
                            naxis2,
                        },
                    );
                }
                if naxis2 != calculated_naxis2 {
                    return Err(
                        GpuboxError::MwaxNaxis2Mismatch {
                            naxis2,
                            calculated_naxis2: calculated_naxis2 as i32,
                            metafits_baselines,
                        },
                    );
                }
                Ok(())
            },
            _ => Err(GpuboxError::InvalidMwaVersion { mwa_version: corr_version }),
        }
    }

    /// Build a validated context: classify and group the data files,
    /// cross-validate every file's header values against the metadata,
    /// derive the channel and timestep descriptors, and fill the
    /// time/channel index. Fails with the first error the pipeline
    /// meets; succeeds exactly when the file set is well-formed and
    /// every file passes every check.
    #[verifier::rlimit(100)]
    pub fn new(
        metafits_context: MetafitsContext,
        gpubox_filenames: &Vec<String>,
        gpubox_file_data: &Vec<GpuboxFileData>,
    ) -> (r: Result<CorrelatorContext, GpuboxError>)
        requires
            metafits_context.wf(),
            gpubox_file_data@.len() == gpubox_filenames@.len(),
            forall|i: int|
                0 <= i < gpubox_file_data@.len() ==> (#[trigger] gpubox_file_data@[i]).filename@
                    == gpubox_filenames@[i]@,
        ensures
            r is Ok <==> (crate::gpubox_files::spec_batches_ok(gpubox_filenames@)
                && spec_first_invalid(
                metafits_context,
                crate::gpubox_files::spec_version_of(gpubox_filenames@[0]),
                gpubox_file_data@,
                0,
            ) == gpubox_file_data@.len()),
            gpubox_filenames@.len() == 0 ==> (r matches Err(e) && e is NoGpuboxes),
            crate::gpubox_files::spec_scan(gpubox_filenames@, gpubox_filenames@.len() as int)
                matches crate::gpubox_files::ScanOutcome::Unrecognised(i) ==> (r matches Err(
            GpuboxError::Unrecognised(f),
            ) && f@ == gpubox_filenames@[i]@),
            gpubox_filenames@.len() > 0 && crate::gpubox_files::spec_scan(
                gpubox_filenames@,
                gpubox_filenames@.len() as int,
            ) is Mixture ==> (r matches Err(e) && e is Mixture),
            (crate::gpubox_files::spec_scan(gpubox_filenames@, gpubox_filenames@.len() as int)
                is AllOk && exists|b: int|
                crate::gpubox_files::spec_is_first_missing_batch(gpubox_filenames@, b)) ==> (
            r matches Err(GpuboxError::BatchMissing { expected, got })
                && crate::gpubox_files::spec_is_first_missing_batch(
                gpubox_filenames@,
                expected as int,
            ) && crate::gpubox_files::spec_is_next_present_batch(
                gpubox_filenames@,
                expected as int,
                got as int,
            )),
            (crate::gpubox_files::spec_scan(gpubox_filenames@, gpubox_filenames@.len() as int)
                is AllOk && (forall|b: int|
                !crate::gpubox_files::spec_is_first_missing_batch(gpubox_filenames@, b))
                && exists|b: int|
                crate::gpubox_files::spec_is_first_uneven_batch(gpubox_filenames@, b)) ==> (
            r matches Err(e2) && e2 is UnevenCountInBatches),
            (crate::gpubox_files::spec_batches_ok(gpubox_filenames@) && spec_first_invalid(
                metafits_context,
                crate::gpubox_files::spec_version_of(gpubox_filenames@[0]),
                gpubox_file_data@,
                0,
            ) < gpubox_file_data@.len()) ==> (r matches Err(e) && spec_error_for_file(
                metafits_context,
                crate::gpubox_files::spec_version_of(gpubox_filenames@[0]),
                gpubox_file_data@[spec_first_invalid(
                    metafits_context,
                    crate::gpubox_files::spec_version_of(gpubox_filenames@[0]),
                    gpubox_file_data@,
                    0,
                )],
                e,
            )),
            r matches Ok(ctx) ==> {
                &&& ctx.wf()
                &&& ctx.metafits_context == metafits_context
                &&& ctx.mwa_version == crate::gpubox_files::spec_version_of(gpubox_filenames@[0])
                &&& ctx.num_gpubox_files == gpubox_file_data@.len()
                &&& ctx.gpubox_batches@.len() == crate::gpubox_files::spec_max_batch(
                    gpubox_filenames@,
                    gpubox_filenames@.len() as int,
                ) + 1
                &&& forall|b: int|
                    0 <= b < ctx.gpubox_batches@.len() ==> (
                    #[trigger] ctx.gpubox_batches@[b]).batch_number == b
                        && crate::gpubox_files::spec_batch_files_ok(
                        gpubox_filenames@,
                        b,
                        ctx.gpubox_batches@[b].gpubox_files@,
                    )
                &&& forall|i: int|
                    0 <= i < gpubox_file_data@.len() ==> spec_file_valid(
                        metafits_context,
                        ctx.mwa_version,
                        #[trigger] gpubox_file_data@[i],
                    )
                &&& forall|t: int, c: int|
                    0 <= t < ctx.num_timesteps && 0 <= c < ctx.num_coarse_chans ==> ((
                    #[trigger] spec_cell_at(
                        ctx.gpubox_time_map@,
                        ctx.num_coarse_chans as int,
                        t,
                        c,
                    )) is Some <==> spec_data_at(
                        gpubox_file_data@,
                        ctx.timesteps@[t].unix_time_ms,
                        ctx.coarse_chans@[c].gpubox_number as int,
                    ))
                &&& forall|t: int, c: int|
                    0 <= t < ctx.num_timesteps && 0 <= c < ctx.num_coarse_chans
                        ==> match #[trigger] spec_cell_at(
                        ctx.gpubox_time_map@,
                        ctx.num_coarse_chans as int,
                        t,
                        c,
                    ) {
                        Some((b, h)) => exists|i: int|
                            0 <= i < gpubox_file_data@.len() && spec_file_valid(
                                metafits_context,
                                ctx.mwa_version,
                                #[trigger] gpubox_file_data@[i],
                            ) && crate::gpubox_files::spec_batch_of(
                                gpubox_file_data@[i].filename,
                            ) == b && crate::gpubox_files::spec_chan_of(
                                gpubox_file_data@[i].filename,
                            ) == ctx.coarse_chans@[c].gpubox_number && 1 <= h && h - 1
                                < gpubox_file_data@[i].hdu_unix_times_ms@.len()
                                && gpubox_file_data@[i].hdu_unix_times_ms@[h - 1]
                                == ctx.timesteps@[t].unix_time_ms,
                        None => true,
                    }
            },
    {
        let ghost names = gpubox_filenames@;
        let ghost m = metafits_context;
        let ghost data = gpubox_file_data@;
        // Filename classifier and batch validator.
        let (gpubox_batches, mwa_version) =
            match crate::gpubox_files::determine_gpubox_batches(gpubox_filenames) {
            Ok(t) => t,
            Err(e) => {
                return Err(e);
            },
        };
        let ghost v = mwa_version;
        proof {
            // The data files' names classify like the supplied names.
            reveal(crate::gpubox_files::spec_version_of);
            reveal(crate::gpubox_files::spec_batch_of);
            reveal(crate::gpubox_files::spec_chan_of);
            assert forall|i: int| 0 <= i < data.len() implies {
                &&& crate::gpubox_files::spec_classify_name((#[trigger] data[i]).filename@)
                    is Some
                &&& crate::gpubox_files::spec_batch_of(data[i].filename)
                    == crate::gpubox_files::spec_batch_of(names[i])
                &&& crate::gpubox_files::spec_chan_of(data[i].filename)
                    == crate::gpubox_files::spec_chan_of(names[i])
            } by {
                assert(data[i].filename@ == names[i]@);
            }
        }
        // Header cross-validation, file by file in input order.
        let n_files: usize = gpubox_file_data.len();
        let mut i: usize = 0;
        while i < n_files
            invariant
                0 <= i <= n_files,
                n_files == data.len(),
                data == gpubox_file_data@,
                names == gpubox_filenames@,
                data.len() == names.len(),
                m == metafits_context,
                v == mwa_version,
                m.wf(),
                v.is_corr(),
                crate::gpubox_files::spec_batches_ok(names),
                v == crate::gpubox_files::spec_version_of(names[0]),
                forall|j: int| 0 <= j < i ==> spec_file_valid(m, v, #[trigger] data[j]),
            decreases n_files - i,
        {
            match validate_file(&metafits_context, mwa_version, &gpubox_file_data[i]) {
                Ok(()) => {},
                Err(e) => {
                    proof {
                        lemma_first_invalid_from(m, v, data, i as int);
                        assert(spec_first_invalid(m, v, data, 0) == i as int);
                        crate::gpubox_files::lemma_scan_all_ok(names, names.len() as int);
                        assert forall|b: int|
                            !crate::gpubox_files::spec_is_first_missing_batch(names, b) by {
                            if crate::gpubox_files::spec_is_first_missing_batch(names, b) {
                                assert(crate::gpubox_files::spec_has_batch(names, b));
                            }
                        }
                    }
                    return Err(e);
                },
            }
            i = i + 1;
        }
        proof {
            lemma_first_invalid_from(m, v, data, n_files as int);
            assert(spec_first_invalid(m, v, data, 0) == data.len());
            lemma_all_valid(m, v, data, n_files as int);
        }
        // Channel and timestep descriptors.
        let coarse_chans = match CoarseChannel::populate_coarse_channels(
            mwa_version,
            &metafits_context.metafits_coarse_chans,
            metafits_context.coarse_chan_width_hz,
        ) {
            Ok(c) => c,
            Err(e) => {
                proof {
                    assert(false);
                }
                return Err(e);
            },
        };
        let timesteps = TimeStep::populate_timesteps(
            metafits_context.sched_start_unix_time_ms,
            metafits_context.sched_start_gps_time_ms,
            metafits_context.sched_duration_ms,
            metafits_context.corr_int_time_ms,
        );
        proof {
            assert(timesteps@ =~= m.metafits_timesteps@);
        }
        let num_timesteps: usize = timesteps.len();
        let num_coarse_chans: usize = coarse_chans.len();
        // The time/channel index.
        let gpubox_time_map = build_time_map(gpubox_file_data, &timesteps, &coarse_chans);
        let num_batches: usize = gpubox_batches.len();
        proof {
            assert forall|j: int| 0 <= j < data.len() implies 0
                <= crate::gpubox_files::spec_batch_of((#[trigger] data[j]).filename)
                < num_batches as int by {
                assert(0 <= crate::gpubox_files::spec_batch_of(names[j]) < 1000);
                crate::gpubox_files::lemma_batch_le_max(names, j, names.len() as int);
            }
            lemma_map_characterization(
                m,
                v,
                data,
                timesteps@,
                coarse_chans@,
                gpubox_time_map@,
                num_batches as int,
            );
        }
        // Provided / common / good flags and index lists.
        let mut col_flags: Vec<bool> = Vec::new();
        let mut c: usize = 0;
        while c < num_coarse_chans
            invariant
                0 <= c <= num_coarse_chans,
                num_timesteps == timesteps@.len(),
                num_coarse_chans == coarse_chans@.len(),
                gpubox_time_map@.len() == num_timesteps * num_coarse_chans,
                col_flags@.len() == c,
                forall|c2: int|
                    0 <= c2 < c ==> #[trigger] col_flags@[c2] == spec_col_has(
                        gpubox_time_map@,
                        num_timesteps as int,
                        num_coarse_chans as int,
                        c2,
                    ),
            decreases num_coarse_chans - c,
        {
            let f = col_has_any(&gpubox_time_map, num_timesteps, num_coarse_chans, c);
            col_flags.push(f);
            c = c + 1;
        }
        let mut row_flags: Vec<bool> = Vec::new();
        let mut t: usize = 0;
        while t < num_timesteps
            invariant
                0 <= t <= num_timesteps,
                num_timesteps == timesteps@.len(),
                num_coarse_chans == coarse_chans@.len(),
                gpubox_time_map@.len() == num_timesteps * num_coarse_chans,
                row_flags@.len() == t,
                forall|t2: int|
                    0 <= t2 < t ==> #[trigger] row_flags@[t2] == spec_row_has(
                        gpubox_time_map@,
                        num_timesteps as int,
                        num_coarse_chans as int,
                        t2,
                    ),
            decreases num_timesteps - t,
        {
            let f = row_has_any(&gpubox_time_map, num_timesteps, num_coarse_chans, t);
            row_flags.push(f);
            t = t + 1;
        }
        let mut common_row_flags: Vec<bool> = Vec::new();
        let mut t: usize = 0;
        while t < num_timesteps
            invariant
                0 <= t <= num_timesteps,
                num_timesteps == timesteps@.len(),
                num_coarse_chans == coarse_chans@.len(),
                gpubox_time_map@.len() == num_timesteps * num_coarse_chans,
                col_flags@.len() == num_coarse_chans,
                forall|c2: int|
                    0 <= c2 < num_coarse_chans ==> #[trigger] col_flags@[c2] == spec_col_has(
                        gpubox_time_map@,
                        num_timesteps as int,
                        num_coarse_chans as int,
                        c2,
                    ),
                common_row_flags@.len() == t,
                forall|t2: int|
                    0 <= t2 < t ==> #[trigger] common_row_flags@[t2] == spec_row_common(
                        gpubox_time_map@,
                        num_timesteps as int,
                        num_coarse_chans as int,
                        t2,
                    ),
            decreases num_timesteps - t,
        {
            let f = row_is_common(&gpubox_time_map, num_timesteps, num_coarse_chans, &col_flags, t);
            common_row_flags.push(f);
            t = t + 1;
        }
        let mut good_row_flags: Vec<bool> = Vec::new();
        let mut t: usize = 0;
        while t < num_timesteps
            invariant
                0 <= t <= num_timesteps,
                num_timesteps == timesteps@.len(),
                num_coarse_chans == coarse_chans@.len(),
                gpubox_time_map@.len() == num_timesteps * num_coarse_chans,
                m == metafits_context,
                common_row_flags@.len() == num_timesteps,
                forall|t2: int|
                    0 <= t2 < num_timesteps ==> #[trigger] common_row_flags@[t2]
                        == spec_row_common(
                        gpubox_time_map@,
                        num_timesteps as int,
                        num_coarse_chans as int,
                        t2,
                    ),
                good_row_flags@.len() == t,
                forall|t2: int|
                    0 <= t2 < t ==> #[trigger] good_row_flags@[t2] == spec_row_good(
                        gpubox_time_map@,
                        num_timesteps as int,
                        num_coarse_chans as int,
                        timesteps@,
                        m.good_time_unix_ms,
                        t2,
                    ),
            decreases num_timesteps - t,
        {
            let f = common_row_flags[t] && timesteps[t].unix_time_ms
                >= metafits_context.good_time_unix_ms;
            good_row_flags.push(f);
            t = t + 1;
        }
        let any_good = any_flag(&good_row_flags);
        proof {
            if any_good {
                let j = choose|j: int| 0 <= j < good_row_flags@.len() && #[trigger] good_row_flags@[j];
                assert(spec_row_good(
                    gpubox_time_map@,
                    num_timesteps as int,
                    num_coarse_chans as int,
                    timesteps@,
                    m.good_time_unix_ms,
                    j,
                ));
            } else {
                assert forall|t2: int| 0 <= t2 < num_timesteps implies !spec_row_good(
                    gpubox_time_map@,
                    num_timesteps as int,
                    num_coarse_chans as int,
                    timesteps@,
                    m.good_time_unix_ms,
                    t2,
                ) by {
                    assert(!good_row_flags@[t2]);
                }
            }
        }
        let mut common_col_flags: Vec<bool> = Vec::new();
        let mut c: usize = 0;
        while c < num_coarse_chans
            invariant
                0 <= c <= num_coarse_chans,
                num_timesteps == timesteps@.len(),
                num_coarse_chans == coarse_chans@.len(),
                gpubox_time_map@.len() == num_timesteps * num_coarse_chans,
                row_flags@.len() == num_timesteps,
                forall|t2: int|
                    0 <= t2 < num_timesteps ==> #[trigger] row_flags@[t2] == spec_row_has(
                        gpubox_time_map@,
                        num_timesteps as int,
                        num_coarse_chans as int,
                        t2,
                    ),
                common_col_flags@.len() == c,
                forall|c2: int|
                    0 <= c2 < c ==> #[trigger] common_col_flags@[c2] == spec_col_common(
                        gpubox_time_map@,
                        num_timesteps as int,
                        num_coarse_chans as int,
                        c2,
                    ),
            decreases num_coarse_chans - c,
        {
            let f = col_is_common(&gpubox_time_map, num_timesteps, num_coarse_chans, &row_flags, c);
            common_col_flags.push(f);
            c = c + 1;
        }
        let mut good_col_flags: Vec<bool> = Vec::new();
        let mut c: usize = 0;
        while c < num_coarse_chans
            invariant
                0 <= c <= num_coarse_chans,
                num_timesteps == timesteps@.len(),
                num_coarse_chans == coarse_chans@.len(),
                gpubox_time_map@.len() == num_timesteps * num_coarse_chans,
                m == metafits_context,
                good_row_flags@.len() == num_timesteps,
                forall|t2: int|
                    0 <= t2 < num_timesteps ==> #[trigger] good_row_flags@[t2] == spec_row_good(
                        gpubox_time_map@,
                        num_timesteps as int,
                        num_coarse_chans as int,
                        timesteps@,
                        m.good_time_unix_ms,
                        t2,
                    ),
                any_good == exists|t2: int|
                    0 <= t2 < num_timesteps && #[trigger] spec_row_good(
                        gpubox_time_map@,
                        num_timesteps as int,
                        num_coarse_chans as int,
                        timesteps@,
                        m.good_time_unix_ms,
                        t2,
                    ),
                good_col_flags@.len() == c,
                forall|c2: int|
                    0 <= c2 < c ==> #[trigger] good_col_flags@[c2] == spec_col_good(
                        gpubox_time_map@,
                        num_timesteps as int,
                        num_coarse_chans as int,
                        timesteps@,
                        m.good_time_unix_ms,
                        c2,
                    ),
            decreases num_coarse_chans - c,
        {
            let f = col_is_good(
                &gpubox_time_map,
                num_timesteps,
                num_coarse_chans,
                &good_row_flags,
                any_good,
                &timesteps,
                metafits_context.good_time_unix_ms,
                c,
            );
            good_col_flags.push(f);
            c = c + 1;
        }
        let provided_timestep_indices = indices_of_true(&row_flags);
        let provided_coarse_chan_indices = indices_of_true(&col_flags);
        let common_timestep_indices = indices_of_true(&common_row_flags);
        let common_coarse_chan_indices = indices_of_true(&common_col_flags);
        let common_good_timestep_indices = indices_of_true(&good_row_flags);
        let common_good_coarse_chan_indices = indices_of_true(&good_col_flags);
        // Common time span and bandwidth.
        let num_common_timesteps: usize = common_timestep_indices.len();
        let num_common_coarse_chans: usize = common_coarse_chan_indices.len();
        let (common_start_unix_time_ms, common_end_unix_time_ms): (u64, u64) =
            if num_common_timesteps == 0 {
            (0, 0)
        } else {
            let first: usize = common_timestep_indices[0];
            let last: usize = common_timestep_indices[num_common_timesteps - 1];
            proof {
                let count = timesteps@.len() as int;
                assert((last as int) * m.corr_int_time_ms + m.corr_int_time_ms
                    <= m.sched_duration_ms) by (nonlinear_arith)
                    requires
                        0 <= last < count,
                        m.corr_int_time_ms >= 1,
                        count == m.sched_duration_ms as int / m.corr_int_time_ms as int,
                ;
            }
            let start: u64 = timesteps[first].unix_time_ms;
            let end: u64 = timesteps[last].unix_time_ms + metafits_context.corr_int_time_ms;
            (start, end)
        };
        proof {
            if num_common_timesteps > 0 {
                lemma_grid_times_increase(m);
                if common_timestep_indices@[0] as int != common_timestep_indices@[
                    num_common_timesteps - 1] as int {
                    assert(common_timestep_indices@[0]
                        < common_timestep_indices@[num_common_timesteps - 1]);
                }
            }
        }
        let common_duration_ms: u64 = common_end_unix_time_ms - common_start_unix_time_ms;
        proof {
            lemma_sorted_list_bounds(common_coarse_chan_indices@, num_coarse_chans as int);
            assert((num_common_coarse_chans as int) * (m.coarse_chan_width_hz as int) <= (
            num_coarse_chans as int) * (m.coarse_chan_width_hz as int)) by (nonlinear_arith)
                requires
                    num_common_coarse_chans <= num_coarse_chans,
            ;
        }
        let common_bandwidth_hz: u32 = ((num_common_coarse_chans as u64)
            * (metafits_context.coarse_chan_width_hz as u64)) as u32;
        // One block's sample count.
        proof {
            let bl = m.num_baselines as int;
            let fc = m.num_corr_fine_chans_per_coarse as int;
            let pl = m.num_visibility_pols as int;
            assert(bl * fc <= bl * fc * pl * 2 && bl * fc * pl <= bl * fc * pl * 2) by (
            nonlinear_arith)
                requires
                    bl >= 0,
                    fc >= 0,
                    pl >= 1,
            ;
        }
        let num_timestep_coarse_chan_floats: usize = metafits_context.num_baselines
            * metafits_context.num_corr_fine_chans_per_coarse
            * metafits_context.num_visibility_pols * 2;
        let ctx = CorrelatorContext {
            metafits_context,
            mwa_version,
            num_timesteps,
            timesteps,
            num_coarse_chans,
            coarse_chans,
            num_common_timesteps,
            common_timestep_indices,
            num_common_coarse_chans,
            common_coarse_chan_indices,
            common_start_unix_time_ms,
            common_end_unix_time_ms,
            common_duration_ms,
            common_bandwidth_hz,
            num_common_good_timesteps: common_good_timestep_indices.len(),
            common_good_timestep_indices,
            num_common_good_coarse_chans: common_good_coarse_chan_indices.len(),
            common_good_coarse_chan_indices,
            num_provided_timesteps: provided_timestep_indices.len(),
            provided_timestep_indices,
            num_provided_coarse_chans: provided_coarse_chan_indices.len(),
            provided_coarse_chan_indices,
            num_timestep_coarse_chan_floats,
            num_gpubox_files: n_files,
            gpubox_batches,
            gpubox_time_map,
        };
        proof {
            assert(ctx.timesteps@ == m.metafits_timesteps@);
            assert(Seq::new(num_timesteps as nat, |t: int| spec_row_has(
                ctx.gpubox_time_map@,
                num_timesteps as int,
                num_coarse_chans as int,
                t,
            )) =~= row_flags@);
            assert(Seq::new(num_coarse_chans as nat, |c: int| spec_col_has(
                ctx.gpubox_time_map@,
                num_timesteps as int,
                num_coarse_chans as int,
                c,
            )) =~= col_flags@);
            assert(Seq::new(num_timesteps as nat, |t: int| spec_row_common(
                ctx.gpubox_time_map@,
                num_timesteps as int,
                num_coarse_chans as int,
                t,
            )) =~= common_row_flags@);
            assert(Seq::new(num_coarse_chans as nat, |c: int| spec_col_common(
                ctx.gpubox_time_map@,
                num_timesteps as int,
                num_coarse_chans as int,
                c,
            )) =~= common_col_flags@);
            assert(Seq::new(num_timesteps as nat, |t: int| spec_row_good(
                ctx.gpubox_time_map@,
                num_timesteps as int,
                num_coarse_chans as int,
                ctx.timesteps@,
                m.good_time_unix_ms,
                t,
            )) =~= good_row_flags@);
            assert(Seq::new(num_coarse_chans as nat, |c: int| spec_col_good(
                ctx.gpubox_time_map@,
                num_timesteps as int,
                num_coarse_chans as int,
                ctx.timesteps@,
                m.good_time_unix_ms,
                c,
            )) =~= good_col_flags@);
            assert(ctx.wf());
            crate::gpubox_files::lemma_scan_all_ok(names, names.len() as int);
            assert forall|b: int|
                !crate::gpubox_files::spec_is_first_missing_batch(names, b) by {
                if crate::gpubox_files::spec_is_first_missing_batch(names, b) {
                    assert(crate::gpubox_files::spec_has_batch(names, b));
                }
            }
        }
        Ok(ctx)
    }

    /// The largest valid timestep index, or 0 where there is none.
    pub open spec fn spec_max_timestep_index(self) -> usize {
        if self.num_timesteps == 0 {
            0usize
        } else {
            (self.num_timesteps - 1) as usize
        }
    }

    /// The largest valid coarse-channel index, or 0 where there is none.
    pub open spec fn spec_max_coarse_chan_index(self) -> usize {
        if self.num_coarse_chans == 0 {
            0usize
        } else {
            (self.num_coarse_chans - 1) as usize
        }
    }

    /// Which error, if any, stops a read of (`timestep_index`,
    /// `coarse_chan_index`) before any data is touched: an out-of-range
    /// timestep index, an out-of-range coarse-channel index, or an empty
    /// index cell, in that order.
    pub open spec fn spec_read_gate(
        self,
        timestep_index: usize,
        coarse_chan_index: usize,
    ) -> Option<GpuboxError> {
        if timestep_index >= self.num_timesteps {
            Some(GpuboxError::InvalidTimeStepIndex(self.spec_max_timestep_index()))
        } else if coarse_chan_index >= self.num_coarse_chans {
            Some(GpuboxError::InvalidCoarseChanIndex(self.spec_max_coarse_chan_index()))
        } else if spec_cell_at(
            self.gpubox_time_map@,
            self.num_coarse_chans as int,
            timestep_index as int,
            coarse_chan_index as int,
        ) is None {
            Some(GpuboxError::NoDataForTimeStepCoarseChannel { timestep_index, coarse_chan_index })
        } else {
            None
        }
    }

    /// Resolve an in-range (timestep, coarse channel) pair to the batch
    /// index and in-file data-unit position holding its data.
    pub fn resolve_data_unit(&self, timestep_index: usize, coarse_chan_index: usize) -> (r:
        Result<(usize, usize), GpuboxError>)
        requires
            self.wf(),
        ensures
            match self.spec_read_gate(timestep_index, coarse_chan_index) {
                Some(e) => r == Err::<(usize, usize), GpuboxError>(e),
                None => r == Ok::<(usize, usize), GpuboxError>(
                    spec_cell_at(
                        self.gpubox_time_map@,
                        self.num_coarse_chans as int,
                        timestep_index as int,
                        coarse_chan_index as int,
                    )->Some_0,
                ),
            },
    {
        if timestep_index >= self.num_timesteps {
            let max_index: usize = if self.num_timesteps == 0 {
                0
            } else {
                self.num_timesteps - 1
            };
            return Err(GpuboxError::InvalidTimeStepIndex(max_index));
        }
        if coarse_chan_index >= self.num_coarse_chans {
            let max_index: usize = if self.num_coarse_chans == 0 {
                0
            } else {
                self.num_coarse_chans - 1
            };
            return Err(GpuboxError::InvalidCoarseChanIndex(max_index));
        }
        let total: usize = self.gpubox_time_map.len();
        proof {
            assert((timestep_index as int) * (self.num_coarse_chans as int) + (coarse_chan_index
                as int) < (self.num_timesteps as int) * (self.num_coarse_chans as int)) by (
            nonlinear_arith)
                requires
                    0 <= timestep_index < self.num_timesteps,
                    0 <= coarse_chan_index < self.num_coarse_chans,
            ;
        }
        match self.gpubox_time_map[timestep_index * self.num_coarse_chans + coarse_chan_index] {
            Some(loc) => Ok(loc),
            None => Err(
                GpuboxError::NoDataForTimeStepCoarseChannel { timestep_index, coarse_chan_index },
            ),
        }
    }
}

/// The linear offset where the sample of (`bl`, `fc`, `pol`, `reim`)
/// stands in a raw on-disk block of generation `v`: baseline-major for
/// the pre-MWAX generations, frequency-major for MWAX.
pub open spec fn spec_native_index(
    v: MWAVersion,
    baselines: int,
    fine_chans: int,
    pols: int,
    bl: int,
    fc: int,
    pol: int,
    reim: int,
) -> int {
    if v is CorrMWAXv2 {
        spec_sample_index(baselines, pols, fc, bl, pol, reim)
    } else {
        spec_sample_index(fine_chans, pols, bl, fc, pol, reim)
    }
}

/// Is `out` the baseline-major reading of the raw block `raw` of
/// generation `v`: ordered [baseline][fine channel][polarization][r,i]?
pub open spec fn spec_by_baseline_output(
    v: MWAVersion,
    baselines: int,
    fine_chans: int,
    pols: int,
    raw: Seq<u32>,
    out: Seq<u32>,
) -> bool {
    &&& out.len() == baselines * fine_chans * pols * 2
    &&& forall|bl: int, fc: int, pol: int, reim: int|
        0 <= bl < baselines && 0 <= fc < fine_chans && 0 <= pol < pols && 0 <= reim < 2
            ==> #[trigger] out[spec_sample_index(fine_chans, pols, bl, fc, pol, reim)] == raw[
            spec_native_index(v, baselines, fine_chans, pols, bl, fc, pol, reim)]
}

/// Is `out` the frequency-major reading of the raw block `raw` of
/// generation `v`: ordered [fine channel][baseline][polarization][r,i]?
pub open spec fn spec_by_frequency_output(
    v: MWAVersion,
    baselines: int,
    fine_chans: int,
    pols: int,
    raw: Seq<u32>,
    out: Seq<u32>,
) -> bool {
    &&& out.len() == baselines * fine_chans * pols * 2
    &&& forall|bl: int, fc: int, pol: int, reim: int|
        0 <= bl < baselines && 0 <= fc < fine_chans && 0 <= pol < pols && 0 <= reim < 2
            ==> #[trigger] out[spec_sample_index(baselines, pols, fc, bl, pol, reim)] == raw[
            spec_native_index(v, baselines, fine_chans, pols, bl, fc, pol, reim)]
}

impl CorrelatorContext {
    /// Re-order the raw data unit of (`timestep_index`,
    /// `coarse_chan_index`) into baseline-major order, writing into the
    /// caller's buffer. The caller read `raw_hdu` from the data unit
    /// this pair resolves to.
    pub fn read_by_baseline_into_buffer(
        &self,
        timestep_index: usize,
        coarse_chan_index: usize,
        raw_hdu: &Vec<u32>,
        buffer: &mut Vec<u32>,
    ) -> (r: Result<(), GpuboxError>)
        requires
            self.wf(),
        ensures
            match self.spec_read_gate(timestep_index, coarse_chan_index) {
                Some(e) => r == Err::<(), GpuboxError>(e),
                None => {
                    if old(buffer)@.len() != self.num_timestep_coarse_chan_floats {
                        r == Err::<(), GpuboxError>(
                            GpuboxError::InvalidBufferSize {
                                buffer_size: old(buffer)@.len() as usize,
                                expected_buffer_size: self.num_timestep_coarse_chan_floats,
                            },
                        )
                    } else if raw_hdu@.len() != self.num_timestep_coarse_chan_floats {
                        r == Err::<(), GpuboxError>(GpuboxError::UnequalHduSizes)
                    } else {
                        r is Ok && spec_by_baseline_output(
                            self.mwa_version,
                            self.metafits_context.num_baselines as int,
                            self.metafits_context.num_corr_fine_chans_per_coarse as int,
                            self.metafits_context.num_visibility_pols as int,
                            raw_hdu@,
                            final(buffer)@,
                        )
                    }
                },
            },
            r is Err ==> final(buffer)@ == old(buffer)@,
    {
        match self.resolve_data_unit(timestep_index, coarse_chan_index) {
            Ok(_) => {},
            Err(e) => {
                return Err(e);
            },
        }
        if buffer.len() != self.num_timestep_coarse_chan_floats {
            return Err(
                GpuboxError::InvalidBufferSize {
                    buffer_size: buffer.len(),
                    expected_buffer_size: self.num_timestep_coarse_chan_floats,
                },
            );
        }
        if raw_hdu.len() != self.num_timestep_coarse_chan_floats {
            return Err(GpuboxError::UnequalHduSizes);
        }
        let baselines: usize = self.metafits_context.num_baselines;
        let fine_chans: usize = self.metafits_context.num_corr_fine_chans_per_coarse;
        let pols: usize = self.metafits_context.num_visibility_pols;
        match self.mwa_version {
            MWAVersion::CorrMWAXv2 => {
                proof {
                    assert((baselines as int) * (fine_chans as int) * (pols as int) * 2 == (
                    fine_chans as int) * (baselines as int) * (pols as int) * 2) by (
                    nonlinear_arith);
                }
                transpose_into(raw_hdu, baselines, fine_chans, pols, buffer);
            },
            _ => {
                copy_into(raw_hdu, buffer);
            },
        }
        Ok(())
    }

    /// Re-order the raw data unit of (`timestep_index`,
    /// `coarse_chan_index`) into frequency-major order, writing into the
    /// caller's buffer. The caller read `raw_hdu` from the data unit
    /// this pair resolves to.
    pub fn read_by_frequency_into_buffer(
        &self,
        timestep_index: usize,
        coarse_chan_index: usize,
        raw_hdu: &Vec<u32>,
        buffer: &mut Vec<u32>,
    ) -> (r: Result<(), GpuboxError>)
        requires
            self.wf(),
        ensures
            match self.spec_read_gate(timestep_index, coarse_chan_index) {
                Some(e) => r == Err::<(), GpuboxError>(e),
                None => {
                    if old(buffer)@.len() != self.num_timestep_coarse_chan_floats {
                        r == Err::<(), GpuboxError>(
                            GpuboxError::InvalidBufferSize {
                                buffer_size: old(buffer)@.len() as usize,
                                expected_buffer_size: self.num_timestep_coarse_chan_floats,
                            },
                        )
                    } else if raw_hdu@.len() != self.num_timestep_coarse_chan_floats {
                        r == Err::<(), GpuboxError>(GpuboxError::UnequalHduSizes)
                    } else {
                        r is Ok && spec_by_frequency_output(
                            self.mwa_version,
                            self.metafits_context.num_baselines as int,
                            self.metafits_context.num_corr_fine_chans_per_coarse as int,
                            self.metafits_context.num_visibility_pols as int,
                            raw_hdu@,
                            final(buffer)@,
                        )
                    }
                },
            },
            r is Err ==> final(buffer)@ == old(buffer)@,
    {
        match self.resolve_data_unit(timestep_index, coarse_chan_index) {
            Ok(_) => {},
            Err(e) => {
                return Err(e);
            },
        }
        if buffer.len() != self.num_timestep_coarse_chan_floats {
            return Err(
                GpuboxError::InvalidBufferSize {
                    buffer_size: buffer.len(),
                    expected_buffer_size: self.num_timestep_coarse_chan_floats,
                },
            );
        }
        if raw_hdu.len() != self.num_timestep_coarse_chan_floats {
            return Err(GpuboxError::UnequalHduSizes);
        }
        let baselines: usize = self.metafits_context.num_baselines;
        let fine_chans: usize = self.metafits_context.num_corr_fine_chans_per_coarse;
        let pols: usize = self.metafits_context.num_visibility_pols;
        match self.mwa_version {
            MWAVersion::CorrMWAXv2 => {
                proof {
                    assert((baselines as int) * (fine_chans as int) * (pols as int) * 2 == (
                    fine_chans as int) * (baselines as int) * (pols as int) * 2) by (
                    nonlinear_arith);
                }
                copy_into(raw_hdu, buffer);
            },
            _ => {
                proof {
                    assert((baselines as int) * (fine_chans as int) * (pols as int) * 2 == (
                    fine_chans as int) * (baselines as int) * (pols as int) * 2) by (
                    nonlinear_arith);
                }
                transpose_into(raw_hdu, fine_chans, baselines, pols, buffer);
            },
        }
        Ok(())
    }

    /// Like `read_by_baseline_into_buffer`, returning a newly allocated
    /// buffer.
    pub fn read_by_baseline(
        &self,
        timestep_index: usize,
        coarse_chan_index: usize,
        raw_hdu: &Vec<u32>,
    ) -> (r: Result<Vec<u32>, GpuboxError>)
        requires
            self.wf(),
        ensures
            match self.spec_read_gate(timestep_index, coarse_chan_index) {
                Some(e) => r == Err::<Vec<u32>, GpuboxError>(e),
                None => {
                    if raw_hdu@.len() != self.num_timestep_coarse_chan_floats {
                        r matches Err(e2) && e2 is UnequalHduSizes
                    } else {
                        r matches Ok(out) && spec_by_baseline_output(
                            self.mwa_version,
                            self.metafits_context.num_baselines as int,
                            self.metafits_context.num_corr_fine_chans_per_coarse as int,
                            self.metafits_context.num_visibility_pols as int,
                            raw_hdu@,
                            out@,
                        )
                    }
                },
            },
    {
        let mut buffer: Vec<u32> = vec![0u32; self.num_timestep_coarse_chan_floats];
        match self.read_by_baseline_into_buffer(
            timestep_index,
            coarse_chan_index,
            raw_hdu,
            &mut buffer,
        ) {
            Ok(()) => Ok(buffer),
            Err(e) => Err(e),
        }
    }

    /// Like `read_by_frequency_into_buffer`, returning a newly allocated
    /// buffer.
    pub fn read_by_frequency(
        &self,
        timestep_index: usize,
        coarse_chan_index: usize,
        raw_hdu: &Vec<u32>,
    ) -> (r: Result<Vec<u32>, GpuboxError>)
        requires
            self.wf(),
        ensures
            match self.spec_read_gate(timestep_index, coarse_chan_index) {
                Some(e) => r == Err::<Vec<u32>, GpuboxError>(e),
                None => {
                    if raw_hdu@.len() != self.num_timestep_coarse_chan_floats {
                        r matches Err(e2) && e2 is UnequalHduSizes
                    } else {
                        r matches Ok(out) && spec_by_frequency_output(
                            self.mwa_version,
                            self.metafits_context.num_baselines as int,
                            self.metafits_context.num_corr_fine_chans_per_coarse as int,
                            self.metafits_context.num_visibility_pols as int,
                            raw_hdu@,
                            out@,
                        )
                    }
                },
            },
    {
        let mut buffer: Vec<u32> = vec![0u32; self.num_timestep_coarse_chan_floats];
        match self.read_by_frequency_into_buffer(
            timestep_index,
            coarse_chan_index,
            raw_hdu,
            &mut buffer,
        ) {
            Ok(()) => Ok(buffer),
            Err(e) => Err(e),
        }
    }
}

/// The two read orderings of one raw block carry the same samples: for
/// every coordinate, the baseline-major output at its baseline-major
/// offset equals the frequency-major output at its frequency-major
/// offset. The two offset maps are inverse-image decompositions of the
/// same index space, so the outputs are rearrangements of one another.
pub proof fn lemma_read_orderings_agree(
    v: MWAVersion,
    baselines: int,
    fine_chans: int,
    pols: int,
    raw: Seq<u32>,
    out_bl: Seq<u32>,
    out_fr: Seq<u32>,
)
    requires
        spec_by_baseline_output(v, baselines, fine_chans, pols, raw, out_bl),
        spec_by_frequency_output(v, baselines, fine_chans, pols, raw, out_fr),
    ensures
        out_bl.len() == out_fr.len(),
        forall|bl: int, fc: int, pol: int, reim: int|
            0 <= bl < baselines && 0 <= fc < fine_chans && 0 <= pol < pols && 0 <= reim < 2
                ==> #[trigger] out_bl[spec_sample_index(fine_chans, pols, bl, fc, pol, reim)]
                == out_fr[spec_sample_index(baselines, pols, fc, bl, pol, reim)],
{
    assert forall|bl: int, fc: int, pol: int, reim: int|
        0 <= bl < baselines && 0 <= fc < fine_chans && 0 <= pol < pols && 0 <= reim < 2 implies
        #[trigger] out_bl[spec_sample_index(fine_chans, pols, bl, fc, pol, reim)] == out_fr[
        spec_sample_index(baselines, pols, fc, bl, pol, reim)] by {
        assert(out_bl[spec_sample_index(fine_chans, pols, bl, fc, pol, reim)] == raw[
            spec_native_index(v, baselines, fine_chans, pols, bl, fc, pol, reim)]);
        assert(out_fr[spec_sample_index(baselines, pols, fc, bl, pol, reim)] == raw[
            spec_native_index(v, baselines, fine_chans, pols, bl, fc, pol, reim)]);
    }
}

/// The two read orderings of one raw block are permutations of one
/// another: they hold the same samples with the same multiplicities.
pub proof fn lemma_read_orderings_permutation(
    v: MWAVersion,
    baselines: int,
    fine_chans: int,
    pols: int,
    raw: Seq<u32>,
    out_bl: Seq<u32>,
    out_fr: Seq<u32>,
)
    requires
        baselines >= 0,
        fine_chans >= 0,
        pols >= 1,
        spec_by_baseline_output(v, baselines, fine_chans, pols, raw, out_bl),
        spec_by_frequency_output(v, baselines, fine_chans, pols, raw, out_fr),
    ensures
        out_bl.to_multiset() == out_fr.to_multiset(),
{
    let n = baselines * fine_chans * pols * 2;
    if baselines >= 1 && fine_chans >= 1 {
        let perm = Seq::new(
            n as nat,
            |j: int|
                spec_sample_index(
                    fine_chans,
                    pols,
                    (j / 2 / pols) % baselines,
                    j / 2 / pols / baselines,
                    (j / 2) % pols,
                    j % 2,
                ),
        );
        assert(fine_chans * baselines * pols * 2 == baselines * fine_chans * pols * 2) by (
        nonlinear_arith);
        assert forall|j: int| 0 <= j < perm.len() implies 0 <= #[trigger] perm[j] < out_bl.len() by {
            crate::transpose::lemma_sample_index_surjective(fine_chans, baselines, pols, j);
            crate::transpose::lemma_transpose_index(
                baselines,
                fine_chans,
                pols,
                (j / 2 / pols) % baselines,
                j / 2 / pols / baselines,
                (j / 2) % pols,
                j % 2,
            );
        }
        assert forall|j1: int, j2: int| 0 <= j1 < j2 < perm.len() implies perm[j1] != perm[j2] by {
            crate::transpose::lemma_sample_index_surjective(fine_chans, baselines, pols, j1);
            crate::transpose::lemma_sample_index_surjective(fine_chans, baselines, pols, j2);
            if perm[j1] == perm[j2] {
                crate::transpose::lemma_sample_index_inverts(
                    fine_chans,
                    pols,
                    (j1 / 2 / pols) % baselines,
                    j1 / 2 / pols / baselines,
                    (j1 / 2) % pols,
                    j1 % 2,
                );
                crate::transpose::lemma_sample_index_inverts(
                    fine_chans,
                    pols,
                    (j2 / 2 / pols) % baselines,
                    j2 / 2 / pols / baselines,
                    (j2 / 2) % pols,
                    j2 % 2,
                );
                assert((j1 / 2 / pols) % baselines == (j2 / 2 / pols) % baselines && j1 / 2 / pols
                    / baselines == j2 / 2 / pols / baselines && (j1 / 2) % pols == (j2 / 2) % pols
                    && j1 % 2 == j2 % 2);
                assert(false);
            }
        }
        assert forall|j: int| 0 <= j < out_fr.len() implies #[trigger] out_fr[j] == out_bl[perm[j]] by {
            crate::transpose::lemma_sample_index_surjective(fine_chans, baselines, pols, j);
            let bl = (j / 2 / pols) % baselines;
            let fc = j / 2 / pols / baselines;
            let pol = (j / 2) % pols;
            let reim = j % 2;
            assert(out_fr[spec_sample_index(baselines, pols, fc, bl, pol, reim)] == raw[
                spec_native_index(v, baselines, fine_chans, pols, bl, fc, pol, reim)]);
            assert(out_bl[spec_sample_index(fine_chans, pols, bl, fc, pol, reim)] == raw[
                spec_native_index(v, baselines, fine_chans, pols, bl, fc, pol, reim)]);
        }
        crate::transpose::lemma_permutation_multiset(out_bl, out_fr, perm);
    } else {
        assert(n == 0) by (nonlinear_arith)
            requires
                baselines == 0 || fine_chans == 0,
                n == baselines * fine_chans * pols * 2,
        ;
        crate::transpose::lemma_permutation_multiset(out_bl, out_fr, Seq::empty());
    }
}

/// The into-buffer and allocating forms of a read produce identical
/// sequences: any two baseline-major readings of the same raw block are
/// equal, and likewise for frequency-major readings.
pub proof fn lemma_read_forms_agree(
    v: MWAVersion,
    baselines: int,
    fine_chans: int,
    pols: int,
    raw: Seq<u32>,
    out1: Seq<u32>,
    out2: Seq<u32>,
)
    requires
        baselines >= 0,
        fine_chans >= 1,
        pols >= 1,
        spec_by_baseline_output(v, baselines, fine_chans, pols, raw, out1) && spec_by_baseline_output(
            v,
            baselines,
            fine_chans,
            pols,
            raw,
            out2,
        ) || spec_by_frequency_output(v, baselines, fine_chans, pols, raw, out1)
            && spec_by_frequency_output(v, baselines, fine_chans, pols, raw, out2),
    ensures
        out1 == out2,
{
    if spec_by_baseline_output(v, baselines, fine_chans, pols, raw, out1)
        && spec_by_baseline_output(v, baselines, fine_chans, pols, raw, out2) {
        assert forall|j: int| 0 <= j < out1.len() implies out1[j] == out2[j] by {
            crate::transpose::lemma_sample_index_surjective(baselines, fine_chans, pols, j);
            let bl = j / 2 / pols / fine_chans;
            let fc = (j / 2 / pols) % fine_chans;
            let pol = (j / 2) % pols;
            let reim = j % 2;
            assert(out1[spec_sample_index(fine_chans, pols, bl, fc, pol, reim)] == raw[
                spec_native_index(v, baselines, fine_chans, pols, bl, fc, pol, reim)]);
            assert(out2[spec_sample_index(fine_chans, pols, bl, fc, pol, reim)] == raw[
                spec_native_index(v, baselines, fine_chans, pols, bl, fc, pol, reim)]);
        }
        assert(out1 =~= out2);
    } else {
        assert(fine_chans * baselines * pols * 2 == baselines * fine_chans * pols * 2) by (
        nonlinear_arith);
        assert forall|j: int| 0 <= j < out1.len() implies out1[j] == out2[j] by {
            crate::transpose::lemma_sample_index_surjective(fine_chans, baselines, pols, j);
            let fc = j / 2 / pols / baselines;
            let bl = (j / 2 / pols) % baselines;
            let pol = (j / 2) % pols;
            let reim = j % 2;
            assert(out1[spec_sample_index(baselines, pols, fc, bl, pol, reim)] == raw[
                spec_native_index(v, baselines, fine_chans, pols, bl, fc, pol, reim)]);
            assert(out2[spec_sample_index(baselines, pols, fc, bl, pol, reim)] == raw[
                spec_native_index(v, baselines, fine_chans, pols, bl, fc, pol, reim)]);
        }
        assert(out1 =~= out2);
    }
}

} // verus!
