//! Errors associated with classifying, validating and indexing the
//! coarse-channel data files ("gpubox files") of an observation.

use vstd::prelude::*;

use crate::fits_read::FitsError;
use crate::mwa_version::MWAVersion;

verus! {

/// Everything that can go wrong while classifying, validating, indexing or
/// reading the coarse-channel data files of an observation.
#[derive(Clone, Debug)]
pub enum GpuboxError {
    /// A timestep index at or beyond `num_timesteps`; carries the largest
    /// valid index.
    InvalidTimeStepIndex(usize),
    /// A coarse-channel index at or beyond `num_coarse_chans`; carries the
    /// largest valid index.
    InvalidCoarseChanIndex(usize),
    /// No gpubox / mwax fits files were supplied.
    NoGpuboxes,
    /// The supplied filenames are a mixture of hardware generations.
    Mixture,
    /// A filename that fits no known gpubox filename grammar.
    Unrecognised(String),
    /// A gpubox file with no observation-ID header key.
    MissingObsid(String),
    /// A gpubox file whose embedded observation ID disagrees with the
    /// metadata context.
    ObsidMismatch { obsid: u32, gpubox_filename: String, gpubox_obsid: u32 },
    /// Filenames indicate OldLegacy or Legacy but the file carries an MWAX
    /// correlator-version marker.
    CorrVerMismatch { gpubox_filename: String, gpu_corr_version_value: u8 },
    /// A gpubox file with no data HDUs beyond its primary header.
    NoDataHDUsInGpuboxFile { gpubox_filename: String },
    /// An MWAX gpubox file without the correlator-version header key.
    MwaxCorrVerMissing(String),
    /// An MWAX gpubox file whose correlator-version key is not 2.
    MwaxCorrVerMismatch(String),
    /// A data unit whose size differs from the validated record shape.
    UnequalHduSizes,
    /// An entire gpubox batch is missing.
    BatchMissing { expected: usize, got: usize },
    /// The gpubox batches do not all hold the same number of files.
    UnevenCountInBatches { expected: u8, got: u8 },
    /// The time/channel index was empty where data was required.
    EmptyBTreeMap,
    /// NAXIS1 of a pre-MWAX data unit does not match
    /// baselines * polarizations * 2.
    LegacyNaxis1Mismatch {
        naxis1: usize,
        calculated_naxis1: i32,
        metafits_baselines: usize,
        visibility_pols: usize,
        naxis2: usize,
    },
    /// NAXIS2 of a pre-MWAX data unit does not match the fine-channel count.
    LegacyNaxis2Mismatch {
        naxis2: usize,
        calculated_naxis2: i32,
        metafits_fine_chans_per_coarse: usize,
    },
    /// NAXIS1 of an MWAX data unit does not match
    /// fine channels * polarizations * 2.
    MwaxNaxis1Mismatch {
        naxis1: usize,
        calculated_naxis1: i32,
        metafits_fine_chans_per_coarse: usize,
        visibility_pols: usize,
        naxis2: usize,
    },
    /// NAXIS2 of an MWAX data unit does not match the baseline count.
    MwaxNaxis2Mismatch { naxis2: usize, calculated_naxis2: i32, metafits_baselines: usize },
    /// A non-correlator `MWAVersion` was passed to a correlator-only
    /// routine.
    InvalidMwaVersion { mwa_version: MWAVersion },
    /// No data was recorded for this in-range (timestep, coarse channel)
    /// pair.
    NoDataForTimeStepCoarseChannel { timestep_index: usize, coarse_chan_index: usize },
    /// A caller-supplied buffer whose length is not the expected number of
    /// samples.
    InvalidBufferSize { buffer_size: usize, expected_buffer_size: usize },
    /// An error derived from `FitsError`.
    Fits(FitsError),
}

// ---------------------------------------------------------------------------
// Filename classifier.
//
// Three purely lexical grammars, one per hardware generation. A name
// matches a grammar when the pattern occurs anywhere in it (names usually
// carry a directory prefix). All offsets below are relative to the start
// of the pattern occurrence; byte values are ASCII.
//
//   MWAX:       dddddddddd_dddddddd[?]dddddd_chDDD_BBB.fits
//               (one arbitrary byte may stand between the 8-digit date and
//               the 6-digit time; DDD = channel, BBB = batch)
//   Legacy:     dddddddddd_dddddddddddddd_gpuboxDD_BB.fits
//   OldLegacy:  dddddddddd_dddddddddddddd_gpuboxDD.fits
//               (no batch group: the batch is implicitly 0)
// ---------------------------------------------------------------------------

/// Is byte `b` an ASCII decimal digit?
pub open spec fn spec_is_digit(b: u8) -> bool {
    0x30 <= b <= 0x39
}

/// Are the `n` bytes of `s` starting at `p` all ASCII digits?
pub open spec fn spec_digits_at(s: Seq<u8>, p: int, n: int) -> bool {
    forall|i: int| p <= i < p + n ==> spec_is_digit(#[trigger] s[i])
}

/// Numeric value of the ASCII digit `b`.
pub open spec fn spec_digit_val(b: u8) -> int {
    b - 0x30
}

/// Value of the two-digit group at `p`.
pub open spec fn spec_two_digit_val(s: Seq<u8>, p: int) -> int {
    10 * spec_digit_val(s[p]) + spec_digit_val(s[p + 1])
}

/// Value of the three-digit group at `p`.
pub open spec fn spec_three_digit_val(s: Seq<u8>, p: int) -> int {
    100 * spec_digit_val(s[p]) + 10 * spec_digit_val(s[p + 1]) + spec_digit_val(s[p + 2])
}

/// Does `".fits"` stand at `p`?
pub open spec fn spec_fits_ext_at(s: Seq<u8>, p: int) -> bool {
    &&& s[p] == 0x2e  // '.'
    &&& s[p + 1] == 0x66  // 'f'
    &&& s[p + 2] == 0x69  // 'i'
    &&& s[p + 3] == 0x74  // 't'
    &&& s[p + 4] == 0x73  // 's'
}

/// Does `"gpubox"` stand at `p`?
pub open spec fn spec_gpubox_lit_at(s: Seq<u8>, p: int) -> bool {
    &&& s[p] == 0x67  // 'g'
    &&& s[p + 1] == 0x70  // 'p'
    &&& s[p + 2] == 0x75  // 'u'
    &&& s[p + 3] == 0x62  // 'b'
    &&& s[p + 4] == 0x6f  // 'o'
    &&& s[p + 5] == 0x78  // 'x'
}

/// Does the MWAX pattern with the optional separator byte present match at
/// `p`? The channel group then stands at `p + 29`, the batch group at
/// `p + 33`.
pub open spec fn spec_mwax_sep_match_at(s: Seq<u8>, p: int) -> bool {
    &&& p >= 0
    &&& p + 41 <= s.len()
    &&& spec_digits_at(s, p, 10)
    &&& s[p + 10] == 0x5f  // '_'
    &&& spec_digits_at(s, p + 11, 8)
    &&& spec_digits_at(s, p + 20, 6)
    &&& s[p + 26] == 0x5f  // '_'
    &&& s[p + 27] == 0x63  // 'c'
    &&& s[p + 28] == 0x68  // 'h'
    &&& spec_digits_at(s, p + 29, 3)
    &&& s[p + 32] == 0x5f  // '_'
    &&& spec_digits_at(s, p + 33, 3)
    &&& spec_fits_ext_at(s, p + 36)
}

/// Does the MWAX pattern without the optional separator byte match at `p`?
/// The channel group then stands at `p + 28`, the batch group at `p + 31`.
pub open spec fn spec_mwax_nosep_match_at(s: Seq<u8>, p: int) -> bool {
    &&& p >= 0
    &&& p + 40 <= s.len()
    &&& spec_digits_at(s, p, 10)
    &&& s[p + 10] == 0x5f  // '_'
    &&& spec_digits_at(s, p + 11, 8)
    &&& spec_digits_at(s, p + 19, 6)
    &&& s[p + 25] == 0x5f  // '_'
    &&& s[p + 26] == 0x63  // 'c'
    &&& s[p + 27] == 0x68  // 'h'
    &&& spec_digits_at(s, p + 28, 3)
    &&& s[p + 31] == 0x5f  // '_'
    &&& spec_digits_at(s, p + 32, 3)
    &&& spec_fits_ext_at(s, p + 35)
}

/// Does either MWAX variant match at `p`?
pub open spec fn spec_mwax_match_at(s: Seq<u8>, p: int) -> bool {
    spec_mwax_sep_match_at(s, p) || spec_mwax_nosep_match_at(s, p)
}

/// The (batch, channel) groups of an MWAX match at `p`, preferring the
/// longer variant with the separator byte.
pub open spec fn spec_mwax_groups_at(s: Seq<u8>, p: int) -> (int, int) {
    if spec_mwax_sep_match_at(s, p) {
        (spec_three_digit_val(s, p + 33), spec_three_digit_val(s, p + 29))
    } else {
        (spec_three_digit_val(s, p + 32), spec_three_digit_val(s, p + 28))
    }
}

/// Does the Legacy pattern match at `p`? The channel group stands at
/// `p + 32`, the batch group at `p + 35`.
pub open spec fn spec_legacy_match_at(s: Seq<u8>, p: int) -> bool {
    &&& p >= 0
    &&& p + 42 <= s.len()
    &&& spec_digits_at(s, p, 10)
    &&& s[p + 10] == 0x5f  // '_'
    &&& spec_digits_at(s, p + 11, 14)
    &&& s[p + 25] == 0x5f  // '_'
    &&& spec_gpubox_lit_at(s, p + 26)
    &&& spec_digits_at(s, p + 32, 2)
    &&& s[p + 34] == 0x5f  // '_'
    &&& spec_digits_at(s, p + 35, 2)
    &&& spec_fits_ext_at(s, p + 37)
}

/// Does the OldLegacy pattern match at `p`? The channel group stands at
/// `p + 32`; there is no batch group.
pub open spec fn spec_old_legacy_match_at(s: Seq<u8>, p: int) -> bool {
    &&& p >= 0
    &&& p + 39 <= s.len()
    &&& spec_digits_at(s, p, 10)
    &&& s[p + 10] == 0x5f  // '_'
    &&& spec_digits_at(s, p + 11, 14)
    &&& s[p + 25] == 0x5f  // '_'
    &&& spec_gpubox_lit_at(s, p + 26)
    &&& spec_digits_at(s, p + 32, 2)
    &&& spec_fits_ext_at(s, p + 34)
}

/// (batch, channel) of the leftmost MWAX match at or after `p`, if any.
pub open spec fn spec_find_mwax(s: Seq<u8>, p: int) -> Option<(int, int)>
    decreases s.len() - p,
{
    if p < 0 || p > s.len() {
        None
    } else if spec_mwax_match_at(s, p) {
        Some(spec_mwax_groups_at(s, p))
    } else if p == s.len() {
        None
    } else {
        spec_find_mwax(s, p + 1)
    }
}

/// (batch, channel) of the leftmost Legacy match at or after `p`, if any.
pub open spec fn spec_find_legacy(s: Seq<u8>, p: int) -> Option<(int, int)>
    decreases s.len() - p,
{
    if p < 0 || p > s.len() {
        None
    } else if spec_legacy_match_at(s, p) {
        Some((spec_two_digit_val(s, p + 35), spec_two_digit_val(s, p + 32)))
    } else if p == s.len() {
        None
    } else {
        spec_find_legacy(s, p + 1)
    }
}

/// Channel of the leftmost OldLegacy match at or after `p`, if any.
pub open spec fn spec_find_old_legacy(s: Seq<u8>, p: int) -> Option<int>
    decreases s.len() - p,
{
    if p < 0 || p > s.len() {
        None
    } else if spec_old_legacy_match_at(s, p) {
        Some(spec_two_digit_val(s, p + 32))
    } else if p == s.len() {
        None
    } else {
        spec_find_old_legacy(s, p + 1)
    }
}

/// What the classifier produces for the name with bytes `s`: the hardware
/// generation, the batch number and the channel identifier, trying the
/// MWAX grammar first, then Legacy, then OldLegacy.
pub open spec fn spec_classify_bytes(s: Seq<u8>) -> Option<(MWAVersion, int, int)> {
    if spec_find_mwax(s, 0) is Some {
        Some(
            (MWAVersion::CorrMWAXv2, spec_find_mwax(s, 0)->Some_0.0, spec_find_mwax(
                s,
                0,
            )->Some_0.1),
        )
    } else if spec_find_legacy(s, 0) is Some {
        Some(
            (MWAVersion::CorrLegacy, spec_find_legacy(s, 0)->Some_0.0, spec_find_legacy(
                s,
                0,
            )->Some_0.1),
        )
    } else if spec_find_old_legacy(s, 0) is Some {
        Some((MWAVersion::CorrOldLegacy, 0, spec_find_old_legacy(s, 0)->Some_0))
    } else {
        None
    }
}

/// What the classifier produces for the filename `name`.
#[verifier::opaque]
pub open spec fn spec_classify_name(name: Seq<char>) -> Option<(MWAVersion, int, int)> {
    spec_classify_bytes(vstd::utf8::encode_utf8(name))
}

/// Are the `n` bytes starting at `p` all ASCII digits?
fn digits_at(b: &[u8], p: usize, n: usize) -> (r: bool)
    requires
        p + n <= b@.len(),
    ensures
        r == spec_digits_at(b@, p as int, n as int),
{
    let total: usize = b.len();
    let mut i: usize = 0;
    while i < n
        invariant
            0 <= i <= n,
            p + n <= b@.len(),
            b@.len() <= usize::MAX,
            forall|j: int| p <= j < p + i ==> spec_is_digit(#[trigger] b@[j]),
        decreases n - i,
    {
        let c: u8 = b[p + i];
        if c < 0x30 || c > 0x39 {
            assert(!spec_is_digit(b@[p + i]));
            return false;
        }
        i = i + 1;
    }
    true
}

/// Numeric value of the two-digit group at `p`.
fn two_digit_val(b: &[u8], p: usize) -> (r: usize)
    requires
        p + 2 <= b@.len(),
        spec_digits_at(b@, p as int, 2),
    ensures
        r == spec_two_digit_val(b@, p as int),
        r < 100,
{
    assert(spec_is_digit(b@[p as int]) && spec_is_digit(b@[p as int + 1]));
    (b[p] - 0x30) as usize * 10 + (b[p + 1] - 0x30) as usize
}

/// Numeric value of the three-digit group at `p`.
fn three_digit_val(b: &[u8], p: usize) -> (r: usize)
    requires
        p + 3 <= b@.len(),
        spec_digits_at(b@, p as int, 3),
    ensures
        r == spec_three_digit_val(b@, p as int),
        r < 1000,
{
    assert(spec_is_digit(b@[p as int]) && spec_is_digit(b@[p as int + 1]) && spec_is_digit(
        b@[p as int + 2],
    ));
    (b[p] - 0x30) as usize * 100 + (b[p + 1] - 0x30) as usize * 10 + (b[p + 2] - 0x30) as usize
}

/// Does `".fits"` stand at `p`?
fn fits_ext_at(b: &[u8], p: usize) -> (r: bool)
    requires
        p + 5 <= b@.len(),
    ensures
        r == spec_fits_ext_at(b@, p as int),
{
    b[p] == 0x2e && b[p + 1] == 0x66 && b[p + 2] == 0x69 && b[p + 3] == 0x74 && b[p + 4] == 0x73
}

/// Does `"gpubox"` stand at `p`?
fn gpubox_lit_at(b: &[u8], p: usize) -> (r: bool)
    requires
        p + 6 <= b@.len(),
    ensures
        r == spec_gpubox_lit_at(b@, p as int),
{
    b[p] == 0x67 && b[p + 1] == 0x70 && b[p + 2] == 0x75 && b[p + 3] == 0x62 && b[p + 4] == 0x6f
        && b[p + 5] == 0x78
}

/// Try the MWAX grammar at `p`, returning its (batch, channel) groups.
fn mwax_at(b: &[u8], p: usize) -> (r: Option<(usize, usize)>)
    ensures
        r is Some <==> spec_mwax_match_at(b@, p as int),
        r matches Some(g) ==> spec_mwax_groups_at(b@, p as int) == (g.0 as int, g.1 as int),
        r matches Some(g) ==> g.0 < 1000 && g.1 < 1000,
{
    if b.len() >= 41 && p <= b.len() - 41 && digits_at(b, p, 10) && b[p + 10] == 0x5f && digits_at(b, p + 11, 8)
        && digits_at(b, p + 20, 6) && b[p + 26] == 0x5f && b[p + 27] == 0x63 && b[p + 28] == 0x68
        && digits_at(b, p + 29, 3) && b[p + 32] == 0x5f && digits_at(b, p + 33, 3) && fits_ext_at(
        b,
        p + 36,
    ) {
        assert(spec_mwax_sep_match_at(b@, p as int));
        return Some((three_digit_val(b, p + 33), three_digit_val(b, p + 29)));
    }
    assert(!spec_mwax_sep_match_at(b@, p as int));
    if b.len() >= 40 && p <= b.len() - 40 && digits_at(b, p, 10) && b[p + 10] == 0x5f && digits_at(b, p + 11, 8)
        && digits_at(b, p + 19, 6) && b[p + 25] == 0x5f && b[p + 26] == 0x63 && b[p + 27] == 0x68
        && digits_at(b, p + 28, 3) && b[p + 31] == 0x5f && digits_at(b, p + 32, 3) && fits_ext_at(
        b,
        p + 35,
    ) {
        assert(spec_mwax_nosep_match_at(b@, p as int));
        return Some((three_digit_val(b, p + 32), three_digit_val(b, p + 28)));
    }
    assert(!spec_mwax_nosep_match_at(b@, p as int));
    None
}

/// Try the Legacy grammar at `p`, returning its (batch, channel) groups.
fn legacy_at(b: &[u8], p: usize) -> (r: Option<(usize, usize)>)
    ensures
        r is Some <==> spec_legacy_match_at(b@, p as int),
        r matches Some(g) ==> (spec_two_digit_val(b@, p as int + 35), spec_two_digit_val(
            b@,
            p as int + 32,
        )) == (g.0 as int, g.1 as int),
        r matches Some(g) ==> g.0 < 100 && g.1 < 100,
{
    if b.len() >= 42 && p <= b.len() - 42 && digits_at(b, p, 10) && b[p + 10] == 0x5f && digits_at(b, p + 11, 14)
        && b[p + 25] == 0x5f && gpubox_lit_at(b, p + 26) && digits_at(b, p + 32, 2) && b[p + 34]
        == 0x5f && digits_at(b, p + 35, 2) && fits_ext_at(b, p + 37) {
        assert(spec_legacy_match_at(b@, p as int));
        return Some((two_digit_val(b, p + 35), two_digit_val(b, p + 32)));
    }
    assert(!spec_legacy_match_at(b@, p as int));
    None
}

/// Try the OldLegacy grammar at `p`, returning its channel group.
fn old_legacy_at(b: &[u8], p: usize) -> (r: Option<usize>)
    ensures
        r is Some <==> spec_old_legacy_match_at(b@, p as int),
        r matches Some(c) ==> spec_two_digit_val(b@, p as int + 32) == c as int,
        r matches Some(c) ==> c < 100,
{
    if b.len() >= 39 && p <= b.len() - 39 && digits_at(b, p, 10) && b[p + 10] == 0x5f && digits_at(b, p + 11, 14)
        && b[p + 25] == 0x5f && gpubox_lit_at(b, p + 26) && digits_at(b, p + 32, 2) && fits_ext_at(
        b,
        p + 34,
    ) {
        assert(spec_old_legacy_match_at(b@, p as int));
        return Some(two_digit_val(b, p + 32));
    }
    assert(!spec_old_legacy_match_at(b@, p as int));
    None
}

/// Find the leftmost MWAX match anywhere in `b`.
fn find_mwax_in(b: &[u8]) -> (r: Option<(usize, usize)>)
    ensures
        r is Some <==> spec_find_mwax(b@, 0) is Some,
        r matches Some(g) ==> spec_find_mwax(b@, 0) == Some((g.0 as int, g.1 as int)),
        r matches Some(g) ==> g.0 < 1000 && g.1 < 1000,
{
    let n: usize = b.len();
    let mut p: usize = 0;
    while p < n
        invariant
            0 <= p <= n,
            n == b@.len(),
            spec_find_mwax(b@, 0) == spec_find_mwax(b@, p as int),
        decreases n - p,
    {
        let m = mwax_at(b, p);
        if m.is_some() {
            return m;
        }
        p = p + 1;
    }
    assert(spec_find_mwax(b@, n as int) is None);
    None
}

/// Find the leftmost Legacy match anywhere in `b`.
fn find_legacy_in(b: &[u8]) -> (r: Option<(usize, usize)>)
    ensures
        r is Some <==> spec_find_legacy(b@, 0) is Some,
        r matches Some(g) ==> spec_find_legacy(b@, 0) == Some((g.0 as int, g.1 as int)),
        r matches Some(g) ==> g.0 < 100 && g.1 < 100,
{
    let n: usize = b.len();
    let mut p: usize = 0;
    while p < n
        invariant
            0 <= p <= n,
            n == b@.len(),
            spec_find_legacy(b@, 0) == spec_find_legacy(b@, p as int),
        decreases n - p,
    {
        let m = legacy_at(b, p);
        if m.is_some() {
            return m;
        }
        p = p + 1;
    }
    assert(spec_find_legacy(b@, n as int) is None);
    None
}

/// Find the leftmost OldLegacy match anywhere in `b`.
fn find_old_legacy_in(b: &[u8]) -> (r: Option<usize>)
    ensures
        r is Some <==> spec_find_old_legacy(b@, 0) is Some,
        r matches Some(c) ==> spec_find_old_legacy(b@, 0) == Some(c as int),
        r matches Some(c) ==> c < 100,
{
    let n: usize = b.len();
    let mut p: usize = 0;
    while p < n
        invariant
            0 <= p <= n,
            n == b@.len(),
            spec_find_old_legacy(b@, 0) == spec_find_old_legacy(b@, p as int),
        decreases n - p,
    {
        let m = old_legacy_at(b, p);
        if m.is_some() {
            return m;
        }
        p = p + 1;
    }
    assert(spec_find_old_legacy(b@, n as int) is None);
    None
}

/// Classify one coarse-channel data filename into its hardware generation,
/// batch number and channel identifier, or `None` where no grammar fits.
pub fn classify_filename(filename: &str) -> (r: Option<(MWAVersion, usize, usize)>)
    ensures
        r is Some <==> spec_classify_name(filename@) is Some,
        r matches Some(t) ==> spec_classify_name(filename@) == Some(
            (t.0, t.1 as int, t.2 as int),
        ),
        r matches Some(t) ==> t.1 < 1000 && t.2 < 1000,
        r matches Some(t) ==> t.0.is_corr(),
{
    proof {
        reveal(spec_classify_name);
    }
    let b: &[u8] = filename.as_bytes();
    if let Some((batch, chan)) = find_mwax_in(b) {
        return Some((MWAVersion::CorrMWAXv2, batch, chan));
    }
    if let Some((batch, chan)) = find_legacy_in(b) {
        return Some((MWAVersion::CorrLegacy, batch, chan));
    }
    if let Some(chan) = find_old_legacy_in(b) {
        return Some((MWAVersion::CorrOldLegacy, 0, chan));
    }
    None
}

// ---------------------------------------------------------------------------
// Batch validator: group the classified files into batches.
// ---------------------------------------------------------------------------

/// One classified coarse-channel data file within a batch.
#[derive(Clone, Debug)]
pub struct GpuboxFile {
    /// The filename exactly as supplied.
    pub filename: String,
    /// The channel identifier its name encodes.
    pub channel_identifier: usize,
}

/// All files of one batch: one contiguous time window of the observation.
#[derive(Clone, Debug)]
pub struct GpuboxBatch {
    /// The batch number the files' names encode.
    pub batch_number: usize,
    /// The batch's files, ascending by channel identifier.
    pub gpubox_files: Vec<GpuboxFile>,
}

/// The generation the classifier assigns to `name`; meaningful only where
/// the name classifies.
#[verifier::opaque]
pub open spec fn spec_version_of(name: String) -> MWAVersion {
    spec_classify_name(name@)->Some_0.0
}

/// The batch number the classifier assigns to `name`.
#[verifier::opaque]
pub open spec fn spec_batch_of(name: String) -> int {
    spec_classify_name(name@)->Some_0.1
}

/// The channel identifier the classifier assigns to `name`.
#[verifier::opaque]
pub open spec fn spec_chan_of(name: String) -> int {
    spec_classify_name(name@)->Some_0.2
}

/// Do the first `k` names all classify?
pub open spec fn spec_classified_upto(names: Seq<String>, k: int) -> bool {
    forall|i: int| 0 <= i < k ==> spec_classify_name(#[trigger] names[i]@) is Some
}

/// Do the first `k` names all carry the generation of the first name?
pub open spec fn spec_same_version_upto(names: Seq<String>, k: int) -> bool {
    forall|i: int| 0 <= i < k ==> spec_version_of(#[trigger] names[i]) == spec_version_of(names[0])
}

/// The largest batch number among the first `k` names (-1 when `k == 0`).
pub open spec fn spec_max_batch(names: Seq<String>, k: int) -> int
    decreases k,
{
    if k <= 0 {
        -1
    } else if spec_batch_of(names[k - 1]) > spec_max_batch(names, k - 1) {
        spec_batch_of(names[k - 1])
    } else {
        spec_max_batch(names, k - 1)
    }
}

/// Does some name carry batch number `b`?
pub open spec fn spec_has_batch(names: Seq<String>, b: int) -> bool {
    exists|i: int| 0 <= i < names.len() && spec_batch_of(#[trigger] names[i]) == b
}

/// How many of the first `k` names carry batch number `b`?
pub open spec fn spec_count_batch(names: Seq<String>, k: int, b: int) -> int
    decreases k,
{
    if k <= 0 {
        0
    } else {
        spec_count_batch(names, k - 1, b) + if spec_batch_of(names[k - 1]) == b {
            1int
        } else {
            0int
        }
    }
}

/// Does the file set as a whole pass the batch validator: nonempty, every
/// name classified, one generation throughout, batch numbers contiguous
/// from zero, and the same number of files in every batch?
pub open spec fn spec_batches_ok(names: Seq<String>) -> bool {
    &&& names.len() > 0
    &&& spec_classified_upto(names, names.len() as int)
    &&& spec_same_version_upto(names, names.len() as int)
    &&& forall|b: int|
        0 <= b <= spec_max_batch(names, names.len() as int) ==> spec_has_batch(names, b)
    &&& forall|b: int|
        0 <= b <= spec_max_batch(names, names.len() as int) ==> #[trigger] spec_count_batch(
            names,
            names.len() as int,
            b,
        ) == spec_count_batch(names, names.len() as int, 0)
}

/// How the classification scan of a file list ends: cleanly, at the first
/// unclassifiable name, or at the first name whose generation differs from
/// the first name's.
pub enum ScanOutcome {
    /// Every name scanned so far classifies, all to one generation.
    AllOk,
    /// The name at this position is the first that does not classify.
    Unrecognised(int),
    /// Some name's generation differs from the first name's.
    Mixture,
}

/// The outcome of scanning the first `k` names in order: stop at the first
/// unclassifiable name, else at the first generation mismatch.
#[verifier::opaque]
pub open spec fn spec_scan(names: Seq<String>, k: int) -> ScanOutcome
    decreases k,
{
    if k <= 0 {
        ScanOutcome::AllOk
    } else {
        match spec_scan(names, k - 1) {
            ScanOutcome::AllOk => {
                if spec_classify_name(names[k - 1]@) is None {
                    ScanOutcome::Unrecognised(k - 1)
                } else if spec_version_of(names[k - 1]) != spec_version_of(names[0]) {
                    ScanOutcome::Mixture
                } else {
                    ScanOutcome::AllOk
                }
            },
            outcome => outcome,
        }
    }
}

/// A scan that has gone wrong stays wrong: the outcome at `i` carries to
/// every longer prefix.
pub proof fn lemma_scan_propagates(names: Seq<String>, i: int, j: int)
    requires
        0 <= i <= j,
        !(spec_scan(names, i) is AllOk),
    ensures
        spec_scan(names, j) == spec_scan(names, i),
    decreases j - i,
{
    reveal(spec_scan);
    if j > i {
        lemma_scan_propagates(names, i, j - 1);
    }
}

/// A prefix whose names all classify to one generation scans cleanly.
pub proof fn lemma_scan_all_ok(names: Seq<String>, k: int)
    requires
        0 <= k,
        spec_classified_upto(names, k),
        spec_same_version_upto(names, k),
    ensures
        spec_scan(names, k) is AllOk,
    decreases k,
{
    reveal(spec_scan);
    if k > 0 {
        lemma_scan_all_ok(names, k - 1);
    }
}

/// A clean scan of a prefix means every scanned name classified and all
/// carried the first name's generation.
proof fn lemma_scan_ok_facts(names: Seq<String>, k: int)
    requires
        0 <= k,
        spec_scan(names, k) is AllOk,
    ensures
        spec_classified_upto(names, k),
        spec_same_version_upto(names, k),
    decreases k,
{
    reveal(spec_scan);
    if k > 0 {
        assert(spec_scan(names, k - 1) is AllOk);
        lemma_scan_ok_facts(names, k - 1);
    }
}

/// The maximum batch number of a nonempty prefix is attained, and bounds
/// every batch number in the prefix.
proof fn lemma_max_batch_attained(names: Seq<String>, k: int)
    requires
        1 <= k,
        forall|i: int| 0 <= i < k ==> spec_batch_of(#[trigger] names[i]) >= 0,
    ensures
        exists|i: int|
            0 <= i < k && spec_batch_of(#[trigger] names[i]) == spec_max_batch(names, k),
        forall|i: int| 0 <= i < k ==> spec_batch_of(#[trigger] names[i]) <= spec_max_batch(
            names,
            k,
        ),
    decreases k,
{
    if k == 1 {
        assert(spec_max_batch(names, 0) == -1);
        assert(spec_max_batch(names, 1) == spec_batch_of(names[0]));
    } else {
        lemma_max_batch_attained(names, k - 1);
        if spec_batch_of(names[k - 1]) > spec_max_batch(names, k - 1) {
            assert(spec_batch_of(names[k - 1]) == spec_max_batch(names, k));
        } else {
            let w = choose|i: int|
                0 <= i < k - 1 && spec_batch_of(#[trigger] names[i]) == spec_max_batch(
                    names,
                    k - 1,
                );
            assert(spec_batch_of(names[w]) == spec_max_batch(names, k));
        }
    }
}

/// Every batch number is at most the prefix maximum.
pub proof fn lemma_batch_le_max(names: Seq<String>, i: int, k: int)
    requires
        0 <= i < k,
    ensures
        spec_batch_of(names[i]) <= spec_max_batch(names, k),
    decreases k,
{
    if i < k - 1 {
        lemma_batch_le_max(names, i, k - 1);
    }
}

/// Is `b` the smallest batch number missing below the maximum?
pub open spec fn spec_is_first_missing_batch(names: Seq<String>, b: int) -> bool {
    &&& 0 <= b < spec_max_batch(names, names.len() as int)
    &&& !spec_has_batch(names, b)
    &&& forall|b2: int| 0 <= b2 < b ==> spec_has_batch(names, b2)
}

/// Is `g` the smallest batch number above `b` that some name carries?
pub open spec fn spec_is_next_present_batch(names: Seq<String>, b: int, g: int) -> bool {
    &&& b < g <= spec_max_batch(names, names.len() as int)
    &&& spec_has_batch(names, g)
    &&& forall|b2: int| b < b2 < g ==> !spec_has_batch(names, b2)
}

/// Is `b` the smallest batch number whose file count differs from batch
/// 0's?
pub open spec fn spec_is_first_uneven_batch(names: Seq<String>, b: int) -> bool {
    &&& 1 <= b <= spec_max_batch(names, names.len() as int)
    &&& spec_count_batch(names, names.len() as int, b) != spec_count_batch(
        names,
        names.len() as int,
        0,
    )
    &&& forall|b2: int|
        1 <= b2 < b ==> #[trigger] spec_count_batch(names, names.len() as int, b2)
            == spec_count_batch(names, names.len() as int, 0)
}

/// Does `srcs` witness where each entry of `files` comes from, and `locs`
/// where each batch-`b` name went? `files` then holds exactly the batch-`b`
/// names: right count, sorted by channel identifier, every entry from a
/// batch-`b` name, and every batch-`b` name present.
pub open spec fn spec_batch_files_linked(
    names: Seq<String>,
    b: int,
    files: Seq<GpuboxFile>,
    srcs: Seq<int>,
    locs: Map<int, int>,
) -> bool {
    &&& files.len() == spec_count_batch(names, names.len() as int, b)
    &&& forall|k1: int, k2: int|
        0 <= k1 < k2 < files.len() ==> #[trigger] files[k1].channel_identifier
            <= #[trigger] files[k2].channel_identifier
    &&& srcs.len() == files.len()
    &&& forall|k: int|
        0 <= k < files.len() ==> 0 <= #[trigger] srcs[k] < names.len() && spec_batch_of(
            names[srcs[k]],
        ) == b && files[k].filename@ == names[srcs[k]]@ && files[k].channel_identifier
            == spec_chan_of(names[srcs[k]])
    &&& forall|j: int|
        0 <= j < names.len() && #[trigger] spec_batch_of(names[j]) == b ==> locs.dom().contains(j)
            && 0 <= locs[j] < files.len() && files[locs[j]].filename@ == names[j]@
            && files[locs[j]].channel_identifier == spec_chan_of(names[j])
}

/// Is `files` exactly the batch-`b` slice of `names`: right count, sorted
/// by channel identifier, every entry from a batch-`b` name (witnessed by
/// a source-index list), and every batch-`b` name present (witnessed by a
/// location map)?
pub open spec fn spec_batch_files_ok(names: Seq<String>, b: int, files: Seq<GpuboxFile>) -> bool {
    exists|srcs: Seq<int>, locs: Map<int, int>|
        #[trigger] spec_batch_files_linked(names, b, files, srcs, locs)
}


/// Classify every filename in order, stopping at the first unclassifiable
/// name or generation mismatch; on success hand back each name's (batch,
/// channel) pair and the common generation.
fn scan_classify(filenames: &Vec<String>) -> (r: Result<
    (Vec<(usize, usize)>, MWAVersion),
    GpuboxError,
>)
    requires
        filenames@.len() > 0,
    ensures
        r is Ok <==> spec_scan(filenames@, filenames@.len() as int) is AllOk,
        r matches Ok(t) ==> {
            &&& t.0@.len() == filenames@.len()
            &&& forall|i: int|
                0 <= i < filenames@.len() ==> (#[trigger] t.0@[i]).0 == spec_batch_of(
                    filenames@[i],
                ) && t.0@[i].1 == spec_chan_of(filenames@[i])
            &&& forall|i: int|
                0 <= i < filenames@.len() ==> (#[trigger] t.0@[i]).0 < 1000 && t.0@[i].1 < 1000
            &&& t.1 == spec_version_of(filenames@[0])
            &&& t.1.is_corr()
        },
        spec_scan(filenames@, filenames@.len() as int) matches ScanOutcome::Unrecognised(i) ==> (
        r matches Err(GpuboxError::Unrecognised(f)) && f@ == filenames@[i]@),
        spec_scan(filenames@, filenames@.len() as int) is Mixture ==> (r matches Err(e) && e
            is Mixture),
{
    let ghost names = filenames@;
    let n: usize = filenames.len();
    let mut pairs: Vec<(usize, usize)> = Vec::new();
    proof {
        reveal(spec_scan);
        reveal(spec_version_of);
        reveal(spec_batch_of);
        reveal(spec_chan_of);
    }
    let first = classify_filename(filenames[0].as_str());
    if first.is_none() {
        proof {
            assert(spec_scan(names, 0) is AllOk);
            assert(spec_scan(names, 1) == ScanOutcome::Unrecognised(0));
            lemma_scan_propagates(names, 1, n as int);
        }
        return Err(GpuboxError::Unrecognised(filenames[0].clone()));
    }
    let version: MWAVersion = first.unwrap().0;
    let mut i: usize = 0;
    while i < n
        invariant
            0 < n == names.len(),
            0 <= i <= n,
            names == filenames@,
            spec_classify_name(names[0]@) is Some,
            version == spec_version_of(names[0]),
            spec_scan(names, i as int) is AllOk,
            pairs@.len() == i,
            forall|j: int|
                0 <= j < i ==> (#[trigger] pairs@[j]).0 == spec_batch_of(names[j]) && pairs@[j].1
                    == spec_chan_of(names[j]),
            forall|j: int| 0 <= j < i ==> (#[trigger] pairs@[j]).0 < 1000 && pairs@[j].1 < 1000,
        decreases n - i,
    {
        proof {
            reveal(spec_scan);
            reveal(spec_version_of);
            reveal(spec_batch_of);
            reveal(spec_chan_of);
        }
        match classify_filename(filenames[i].as_str()) {
            None => {
                proof {
                    assert(spec_scan(names, i + 1) == ScanOutcome::Unrecognised(i as int));
                    lemma_scan_propagates(names, i + 1, n as int);
                }
                return Err(GpuboxError::Unrecognised(filenames[i].clone()));
            },
            Some((v, batch, chan)) => {
                if v != version {
                    proof {
                        assert(spec_scan(names, i + 1) is Mixture);
                        lemma_scan_propagates(names, i + 1, n as int);
                    }
                    return Err(GpuboxError::Mixture);
                }
                pairs.push((batch, chan));
            },
        }
        i = i + 1;
    }
    Ok((pairs, version))
}

/// Does any classified file carry batch number `b`?
fn has_batch_exec(pairs: &Vec<(usize, usize)>, b: usize, Ghost(names): Ghost<Seq<String>>) -> (r:
    bool)
    requires
        pairs@.len() == names.len(),
        forall|i: int|
            0 <= i < names.len() ==> (#[trigger] pairs@[i]).0 == spec_batch_of(names[i]),
    ensures
        r == spec_has_batch(names, b as int),
{
    let n: usize = pairs.len();
    let mut i: usize = 0;
    while i < n
        invariant
            0 <= i <= n,
            n == pairs@.len() == names.len(),
            forall|j: int|
                0 <= j < names.len() ==> (#[trigger] pairs@[j]).0 == spec_batch_of(names[j]),
            forall|j: int| 0 <= j < i ==> spec_batch_of(#[trigger] names[j]) != b,
        decreases n - i,
    {
        if pairs[i].0 == b {
            assert(spec_batch_of(names[i as int]) == b);
            return true;
        }
        i = i + 1;
    }
    false
}

/// How many classified files carry batch number `b`?
fn count_batch_exec(pairs: &Vec<(usize, usize)>, b: usize, Ghost(names): Ghost<Seq<String>>) -> (c:
    usize)
    requires
        pairs@.len() == names.len(),
        forall|i: int|
            0 <= i < names.len() ==> (#[trigger] pairs@[i]).0 == spec_batch_of(names[i]),
    ensures
        c == spec_count_batch(names, names.len() as int, b as int),
        c <= names.len(),
{
    let n: usize = pairs.len();
    let mut i: usize = 0;
    let mut c: usize = 0;
    while i < n
        invariant
            0 <= i <= n,
            n == pairs@.len() == names.len(),
            forall|j: int|
                0 <= j < names.len() ==> (#[trigger] pairs@[j]).0 == spec_batch_of(names[j]),
            c == spec_count_batch(names, i as int, b as int),
            c <= i,
        decreases n - i,
    {
        if pairs[i].0 == b {
            c = c + 1;
        }
        i = i + 1;
    }
    c
}

/// Inserting a file at `pos` keeps the slice sorted when everything before
/// `pos` is no greater and the entry at `pos` was strictly greater.
proof fn lemma_insert_keeps_sorted(old_files: Seq<GpuboxFile>, new_files: Seq<GpuboxFile>, pos: int)
    requires
        0 <= pos <= old_files.len(),
        new_files == old_files.insert(pos, new_files[pos]),
        forall|k1: int, k2: int|
            0 <= k1 < k2 < old_files.len() ==> #[trigger] old_files[k1].channel_identifier
                <= #[trigger] old_files[k2].channel_identifier,
        forall|k: int|
            0 <= k < pos ==> (#[trigger] old_files[k]).channel_identifier
                <= new_files[pos].channel_identifier,
        pos < old_files.len() ==> old_files[pos].channel_identifier
            > new_files[pos].channel_identifier,
    ensures
        forall|k1: int, k2: int|
            0 <= k1 < k2 < new_files.len() ==> #[trigger] new_files[k1].channel_identifier
                <= #[trigger] new_files[k2].channel_identifier,
{
    assert forall|k1: int, k2: int|
        0 <= k1 < k2 < new_files.len() implies #[trigger] new_files[k1].channel_identifier
        <= #[trigger] new_files[k2].channel_identifier by {
        if k1 < pos {
            assert(new_files[k1] == old_files[k1]);
        } else if k1 > pos {
            assert(new_files[k1] == old_files[k1 - 1]);
        }
        if k2 < pos {
            assert(new_files[k2] == old_files[k2]);
        } else if k2 > pos {
            assert(new_files[k2] == old_files[k2 - 1]);
        }
    }
}



/// A file list with full ghost bookkeeping is exactly the batch-`b` slice
/// of `names`.
proof fn lemma_batch_files_from_witnesses(
    names: Seq<String>,
    b: int,
    files: Seq<GpuboxFile>,
    srcs: Seq<int>,
    locs: Map<int, int>,
)
    requires
        spec_batch_files_linked(names, b, files, srcs, locs),
    ensures
        spec_batch_files_ok(names, b, files),
{
}

/// Gather the files of batch `b` in input order, placing each at its
/// sorted position by channel identifier.
#[verifier::rlimit(100)]
fn collect_batch_files(
    gpubox_filenames: &Vec<String>,
    pairs: &Vec<(usize, usize)>,
    b: usize,
    Ghost(names): Ghost<Seq<String>>,
) -> (files: Vec<GpuboxFile>)
    requires
        names == gpubox_filenames@,
        pairs@.len() == names.len(),
        forall|j: int|
            0 <= j < names.len() ==> (#[trigger] pairs@[j]).0 == spec_batch_of(names[j])
                && pairs@[j].1 == spec_chan_of(names[j]),
    ensures
        spec_batch_files_ok(names, b as int, files@),
{
    let n: usize = gpubox_filenames.len();
    let mut files: Vec<GpuboxFile> = Vec::new();
    // Ghost bookkeeping: which input index each file entry came from, and
    // where each matching input index now sits.
    let ghost mut srcs: Seq<int> = Seq::empty();
    let ghost mut locs: Map<int, int> = Map::empty();
    let mut i: usize = 0;
    while i < n
        invariant
            0 <= i <= n,
            n == names.len() == pairs@.len() == gpubox_filenames@.len(),
            names == gpubox_filenames@,
            forall|j: int|
                0 <= j < names.len() ==> (#[trigger] pairs@[j]).0 == spec_batch_of(names[j])
                    && pairs@[j].1 == spec_chan_of(names[j]),
            files@.len() == spec_count_batch(names, i as int, b as int),
            forall|k1: int, k2: int|
                0 <= k1 < k2 < files@.len() ==> #[trigger] files@[k1].channel_identifier
                    <= #[trigger] files@[k2].channel_identifier,
            srcs.len() == files@.len(),
            forall|k: int|
                0 <= k < srcs.len() ==> 0 <= #[trigger] srcs[k] < i && spec_batch_of(
                    names[srcs[k]],
                ) == b && files@[k].filename@ == names[srcs[k]]@ && files@[k].channel_identifier
                    == spec_chan_of(names[srcs[k]]),
            forall|j: int|
                0 <= j < i && #[trigger] spec_batch_of(names[j]) == b ==> locs.dom().contains(j)
                    && 0 <= locs[j] < files@.len() && files@[locs[j]].filename@ == names[j]@
                    && files@[locs[j]].channel_identifier == spec_chan_of(names[j]),
        decreases n - i,
    {
        if pairs[i].0 == b {
            let chan: usize = pairs[i].1;
            let mut pos: usize = 0;
            while pos < files.len()
                invariant
                    0 <= pos <= files@.len(),
                    forall|k: int|
                        0 <= k < pos ==> (#[trigger] files@[k]).channel_identifier <= chan,
                ensures
                    0 <= pos <= files@.len(),
                    forall|k: int|
                        0 <= k < pos ==> (#[trigger] files@[k]).channel_identifier <= chan,
                    pos < files@.len() ==> files@[pos as int].channel_identifier > chan,
                decreases files@.len() - pos,
            {
                if files[pos].channel_identifier > chan {
                    break ;
                }
                pos = pos + 1;
            }
            let ghost old_files = files@;
            files.insert(
                pos,
                GpuboxFile { filename: gpubox_filenames[i].clone(), channel_identifier: chan },
            );
            proof {
                lemma_insert_keeps_sorted(old_files, files@, pos as int);
                let old_srcs = srcs;
                let old_locs = locs;
                srcs = old_srcs.insert(pos as int, i as int);
                locs = Map::<int, int>::new(
                    |j: int| old_locs.dom().contains(j),
                    |j: int|
                        if old_locs[j] >= pos {
                            old_locs[j] + 1
                        } else {
                            old_locs[j]
                        },
                ).insert(i as int, pos as int);
                assert forall|k: int|
                    0 <= k < srcs.len() implies 0 <= #[trigger] srcs[k] < i + 1 && spec_batch_of(
                    names[srcs[k]],
                ) == b && files@[k].filename@ == names[srcs[k]]@ && files@[k].channel_identifier
                    == spec_chan_of(names[srcs[k]]) by {
                    if k < pos {
                        assert(srcs[k] == old_srcs[k] && files@[k] == old_files[k]);
                    } else if k > pos {
                        assert(srcs[k] == old_srcs[k - 1] && files@[k] == old_files[k - 1]);
                    }
                }
                assert forall|j: int|
                    0 <= j < i + 1 && #[trigger] spec_batch_of(names[j]) == b implies locs.dom()
                    .contains(j) && 0 <= locs[j] < files@.len() && files@[locs[j]].filename@
                    == names[j]@ && files@[locs[j]].channel_identifier == spec_chan_of(
                    names[j],
                ) by {
                    if j == i {
                        assert(locs[j] == pos);
                    } else {
                        let k0 = old_locs[j];
                        if k0 < pos {
                            assert(locs[j] == k0 && files@[k0] == old_files[k0]);
                        } else {
                            assert(locs[j] == k0 + 1 && files@[k0 + 1] == old_files[k0]);
                        }
                    }
                }
            }
        }
        i = i + 1;
    }
    proof {
        lemma_batch_files_from_witnesses(names, b as int, files@, srcs, locs);
    }
    files
}

/// Group the supplied coarse-channel data filenames into batches: classify
/// each name, insist on a single hardware generation, on batch numbers
/// contiguous from zero and on an equal file count in every batch, and
/// order each batch's files by channel identifier.
#[verifier::rlimit(100)]
pub fn determine_gpubox_batches(gpubox_filenames: &Vec<String>) -> (r: Result<
    (Vec<GpuboxBatch>, MWAVersion),
    GpuboxError,
>)
    ensures
        r is Ok <==> spec_batches_ok(gpubox_filenames@),
        gpubox_filenames@.len() == 0 ==> (r matches Err(e) && e is NoGpuboxes),
        spec_scan(gpubox_filenames@, gpubox_filenames@.len() as int) matches
            ScanOutcome::Unrecognised(i) ==> (r matches Err(GpuboxError::Unrecognised(f)) && f@
            == gpubox_filenames@[i]@),
        gpubox_filenames@.len() > 0 && spec_scan(
            gpubox_filenames@,
            gpubox_filenames@.len() as int,
        ) is Mixture ==> (r matches Err(e) && e is Mixture),
        (spec_scan(gpubox_filenames@, gpubox_filenames@.len() as int) is AllOk && exists|b: int|
            spec_is_first_missing_batch(gpubox_filenames@, b)) ==> (r matches Err(
            GpuboxError::BatchMissing { expected, got },
        ) && spec_is_first_missing_batch(gpubox_filenames@, expected as int)
            && spec_is_next_present_batch(gpubox_filenames@, expected as int, got as int)),
        (spec_scan(gpubox_filenames@, gpubox_filenames@.len() as int) is AllOk && (forall|b: int|
            !spec_is_first_missing_batch(gpubox_filenames@, b)) && exists|b: int|
            spec_is_first_uneven_batch(gpubox_filenames@, b)) ==> (r matches Err(
            GpuboxError::UnevenCountInBatches { expected, got },
        ) && exists|b: int|
            {
                &&& spec_is_first_uneven_batch(gpubox_filenames@, b)
                &&& spec_count_batch(gpubox_filenames@, gpubox_filenames@.len() as int, 0) < 256
                    ==> expected == spec_count_batch(
                    gpubox_filenames@,
                    gpubox_filenames@.len() as int,
                    0,
                )
                &&& spec_count_batch(gpubox_filenames@, gpubox_filenames@.len() as int, b) < 256
                    ==> got == spec_count_batch(
                    gpubox_filenames@,
                    gpubox_filenames@.len() as int,
                    b,
                )
            }),
        r matches Ok(t) ==> {
            &&& t.1 == spec_version_of(gpubox_filenames@[0])
            &&& t.1.is_corr()
            &&& t.0@.len() == spec_max_batch(gpubox_filenames@, gpubox_filenames@.len() as int) + 1
            &&& forall|b: int|
                0 <= b < t.0@.len() ==> (#[trigger] t.0@[b]).batch_number == b
                    && spec_batch_files_ok(gpubox_filenames@, b, t.0@[b].gpubox_files@)
        },
{
    let ghost names = gpubox_filenames@;
    let n: usize = gpubox_filenames.len();
    if n == 0 {
        proof {
            reveal(spec_scan);
            assert(spec_scan(names, 0) is AllOk);
        }
        return Err(GpuboxError::NoGpuboxes);
    }
    let (pairs, version) = match scan_classify(gpubox_filenames) {
        Ok(t) => t,
        Err(e) => {
            proof {
                assert(!spec_batches_ok(names)) by {
                    if spec_batches_ok(names) {
                        lemma_scan_all_ok(names, n as int);
                    }
                }
            }
            return Err(e);
        },
    };
    proof {
        lemma_scan_ok_facts(names, n as int);
    }
    // The largest batch number that occurs.
    let mut max_batch: usize = pairs[0].0;
    proof {
        reveal_with_fuel(spec_max_batch, 2);
        assert(pairs@[0].0 == spec_batch_of(names[0]));
        assert(spec_max_batch(names, 1) == spec_batch_of(names[0]));
    }
    let mut i: usize = 1;
    while i < n
        invariant
            1 <= i <= n,
            n == names.len() == pairs@.len(),
            forall|j: int|
                0 <= j < names.len() ==> (#[trigger] pairs@[j]).0 == spec_batch_of(names[j])
                    && pairs@[j].1 == spec_chan_of(names[j]),
            forall|j: int| 0 <= j < names.len() ==> (#[trigger] pairs@[j]).0 < 1000,
            max_batch == spec_max_batch(names, i as int),
            max_batch < 1000,
        decreases n - i,
    {
        if pairs[i].0 > max_batch {
            max_batch = pairs[i].0;
        }
        i = i + 1;
    }
    proof {
        assert forall|j: int| 0 <= j < names.len() implies spec_batch_of(#[trigger] names[j])
            >= 0 by {
            assert(pairs@[j].0 == spec_batch_of(names[j]));
        }
        lemma_max_batch_attained(names, n as int);
    }
    // Contiguity: every batch number below the maximum must occur.
    let mut b: usize = 0;
    while b < max_batch
        invariant
            0 <= b <= max_batch,
            max_batch < 1000,
            n == names.len() == pairs@.len(),
            names == gpubox_filenames@,
            n > 0,
            spec_scan(names, n as int) is AllOk,
            forall|j: int|
                0 <= j < names.len() ==> (#[trigger] pairs@[j]).0 == spec_batch_of(names[j])
                    && pairs@[j].1 == spec_chan_of(names[j]),
            max_batch == spec_max_batch(names, n as int),
            spec_has_batch(names, max_batch as int),
            forall|b2: int| 0 <= b2 < b ==> spec_has_batch(names, b2),
        decreases max_batch - b,
    {
        if !has_batch_exec(&pairs, b, Ghost(names)) {
            // `b` is the first missing batch; find the next one that occurs.
            let ghost expected = b as int;
            let mut g: usize = b + 1;
            while g < max_batch
                invariant
                    b < g <= max_batch,
                    n == names.len() == pairs@.len(),
                    names == gpubox_filenames@,
                    spec_scan(names, n as int) is AllOk,
                    forall|j: int|
                        0 <= j < names.len() ==> (#[trigger] pairs@[j]).0 == spec_batch_of(
                            names[j],
                        ),
                    max_batch == spec_max_batch(names, n as int),
                    spec_has_batch(names, max_batch as int),
                    b as int == expected,
                    spec_is_first_missing_batch(names, expected),
                    forall|b2: int| b < b2 < g ==> !spec_has_batch(names, b2),
                decreases max_batch - g,
            {
                if has_batch_exec(&pairs, g, Ghost(names)) {
                    proof {
                        assert(!spec_batches_ok(names)) by {
                            if spec_batches_ok(names) {
                                assert(spec_has_batch(names, expected));
                            }
                        }
                    }
                    return Err(GpuboxError::BatchMissing { expected: b, got: g });
                }
                g = g + 1;
            }
            proof {
                assert(!spec_batches_ok(names)) by {
                    if spec_batches_ok(names) {
                        assert(spec_has_batch(names, expected));
                    }
                }
            }
            return Err(GpuboxError::BatchMissing { expected: b, got: max_batch });
        }
        b = b + 1;
    }
    proof {
        // Contiguity holds, so no batch below the maximum is missing.
        assert forall|b2: int| !spec_is_first_missing_batch(names, b2) by {
            if spec_is_first_missing_batch(names, b2) {
                assert(spec_has_batch(names, b2));
            }
        }
    }
    // Evenness: every batch must hold as many files as batch 0.
    let count0: usize = count_batch_exec(&pairs, 0, Ghost(names));
    let mut b: usize = 1;
    while b <= max_batch
        invariant
            1 <= b <= max_batch + 1,
            max_batch < 1000,
            n == names.len() == pairs@.len(),
            names == gpubox_filenames@,
            n > 0,
            spec_scan(names, n as int) is AllOk,
            forall|j: int|
                0 <= j < names.len() ==> (#[trigger] pairs@[j]).0 == spec_batch_of(names[j])
                    && pairs@[j].1 == spec_chan_of(names[j]),
            max_batch == spec_max_batch(names, n as int),
            forall|b2: int| 0 <= b2 <= max_batch ==> spec_has_batch(names, b2),
            forall|b2: int| !spec_is_first_missing_batch(names, b2),
            count0 == spec_count_batch(names, n as int, 0),
            count0 <= n,
            forall|b2: int|
                1 <= b2 < b ==> #[trigger] spec_count_batch(names, n as int, b2)
                    == spec_count_batch(names, n as int, 0),
        decreases max_batch + 1 - b,
    {
        let cb: usize = count_batch_exec(&pairs, b, Ghost(names));
        if cb != count0 {
            proof {
                assert(!spec_batches_ok(names)) by {
                    if spec_batches_ok(names) {
                        assert(spec_count_batch(names, n as int, b as int) == spec_count_batch(
                            names,
                            n as int,
                            0,
                        ));
                    }
                }
                assert(spec_is_first_uneven_batch(names, b as int));
            }
            return Err(
                GpuboxError::UnevenCountInBatches {
                    expected: #[verifier::truncate] (count0 as u8),
                    got: #[verifier::truncate] (cb as u8),
                },
            );
        }
        b = b + 1;
    }
    // Build the batches, each with its files ordered by channel identifier.
    let mut batches: Vec<GpuboxBatch> = Vec::new();
    let mut b: usize = 0;
    while b <= max_batch
        invariant
            0 <= b <= max_batch + 1,
            max_batch < 1000,
            n == names.len() == pairs@.len() == gpubox_filenames@.len(),
            names == gpubox_filenames@,
            n > 0,
            spec_scan(names, n as int) is AllOk,
            version == spec_version_of(names[0]),
            forall|j: int|
                0 <= j < names.len() ==> (#[trigger] pairs@[j]).0 == spec_batch_of(names[j])
                    && pairs@[j].1 == spec_chan_of(names[j]),
            max_batch == spec_max_batch(names, n as int),
            forall|b2: int| 0 <= b2 <= max_batch ==> spec_has_batch(names, b2),
            forall|b2: int| !spec_is_first_missing_batch(names, b2),
            forall|b2: int|
                1 <= b2 <= max_batch ==> #[trigger] spec_count_batch(names, n as int, b2)
                    == spec_count_batch(names, n as int, 0),
            batches@.len() == b,
            forall|b2: int|
                0 <= b2 < b ==> (#[trigger] batches@[b2]).batch_number == b2 && spec_batch_files_ok(
                    names,
                    b2,
                    batches@[b2].gpubox_files@,
                ),
        decreases max_batch + 1 - b,
    {
        let files = collect_batch_files(gpubox_filenames, &pairs, b, Ghost(names));
        batches.push(GpuboxBatch { batch_number: b, gpubox_files: files });
        b = b + 1;
    }
    proof {
        lemma_scan_ok_facts(names, n as int);
        assert(spec_batches_ok(names));
    }
    Ok((batches, version))
}

// ---------------------------------------------------------------------------
// Header cross-validation of the values read from each file.
// ---------------------------------------------------------------------------

/// Check a file's embedded observation ID (`None` where the key was
/// absent) against the metadata context's observation ID.
pub fn validate_gpubox_metadata_obs_id(
    gpubox_obsid: Option<u32>,
    metafits_obsid: u32,
    gpubox_filename: &String,
) -> (r: Result<(), GpuboxError>)
    ensures
        r is Ok <==> gpubox_obsid == Some(metafits_obsid),
        gpubox_obsid is None ==> (r matches Err(GpuboxError::MissingObsid(f)) && f@
            == gpubox_filename@),
        (gpubox_obsid matches Some(o) && o != metafits_obsid) ==> (r matches Err(
            GpuboxError::ObsidMismatch { obsid: a, gpubox_filename: f, gpubox_obsid: g },
        ) && a == metafits_obsid && g == gpubox_obsid->0 && f@ == gpubox_filename@),
{
    match gpubox_obsid {
        None => Err(GpuboxError::MissingObsid(gpubox_filename.clone())),
        Some(o) => {
            if o == metafits_obsid {
                Ok(())
            } else {
                Err(
                    GpuboxError::ObsidMismatch {
                        obsid: metafits_obsid,
                        gpubox_filename: gpubox_filename.clone(),
                        gpubox_obsid: o,
                    },
                )
            }
        },
    }
}

/// The correlator-version marker value that identifies MWAX files.
pub const MWAX_CORR_VER: u8 = 2;

/// Check a file's correlator-version header key (`None` where the key was
/// absent) against the generation its filename implies.
///
/// Pre-MWAX files must not carry the MWAX marker; MWAX files must carry
/// exactly it. The voltage-capture generations are rejected as internal
/// misuse.
pub fn validate_gpubox_metadata_correlator_version(
    gpu_corr_version: Option<u8>,
    gpubox_filename: &String,
    mwa_version: MWAVersion,
) -> (r: Result<(), GpuboxError>)
    ensures
        r is Ok <==> match mwa_version {
            MWAVersion::CorrOldLegacy | MWAVersion::CorrLegacy => gpu_corr_version != Some(
                MWAX_CORR_VER,
            ),
            MWAVersion::CorrMWAXv2 => gpu_corr_version == Some(MWAX_CORR_VER),
            _ => false,
        },
        (mwa_version is CorrOldLegacy || mwa_version is CorrLegacy) && gpu_corr_version == Some(
            MWAX_CORR_VER,
        ) ==> (r matches Err(
            GpuboxError::CorrVerMismatch { gpubox_filename: f, gpu_corr_version_value: v },
        ) && f@ == gpubox_filename@ && v == MWAX_CORR_VER),
        mwa_version is CorrMWAXv2 && gpu_corr_version is None ==> (r matches Err(
            GpuboxError::MwaxCorrVerMissing(f),
        ) && f@ == gpubox_filename@),
        mwa_version is CorrMWAXv2 && (gpu_corr_version matches Some(v) && v != MWAX_CORR_VER)
            ==> (r matches Err(GpuboxError::MwaxCorrVerMismatch(f)) && f@ == gpubox_filename@),
        !mwa_version.is_corr() ==> r == Err::<(), GpuboxError>(
            GpuboxError::InvalidMwaVersion { mwa_version },
        ),
{
    match mwa_version {
        MWAVersion::CorrOldLegacy | MWAVersion::CorrLegacy => {
            match gpu_corr_version {
                Some(v) => {
                    if v == MWAX_CORR_VER {
                        Err(
                            GpuboxError::CorrVerMismatch {
                                gpubox_filename: gpubox_filename.clone(),
                                gpu_corr_version_value: v,
                            },
                        )
                    } else {
                        Ok(())
                    }
                },
                None => Ok(()),
            }
        },
        MWAVersion::CorrMWAXv2 => {
            match gpu_corr_version {
                Some(v) => {
                    if v == MWAX_CORR_VER {
                        Ok(())
                    } else {
                        Err(GpuboxError::MwaxCorrVerMismatch(gpubox_filename.clone()))
                    }
                },
                None => Err(GpuboxError::MwaxCorrVerMissing(gpubox_filename.clone())),
            }
        },
        _ => Err(GpuboxError::InvalidMwaVersion { mwa_version }),
    }
}

} // verus!
