//! The transpose read engine: both orderings, both forms, and their
//! error cases.

use mwalib::correlator_context::CorrelatorContext;
use mwalib::correlator_context::GpuboxFileData;
use mwalib::gpubox_files::GpuboxError;
use mwalib::metafits_context::MetafitsContext;

// The fixtures have 3 baselines, 2 fine channels and 2 polarizations:
// 24 samples per data unit.
const BASELINES: usize = 3;
const FINE_CHANS: usize = 2;
const POLS: usize = 2;
const FLOATS: usize = BASELINES * FINE_CHANS * POLS * 2;

fn legacy_context() -> CorrelatorContext {
    let metafits = MetafitsContext::new(
        1_101_503_312,
        1_417_468_096_000,
        4000,
        2000,
        2000,
        1_417_468_098_000,
        2,
        POLS,
        FINE_CHANS,
        vec![109],
        1_280_000,
    );
    let filename = String::from("1101503312_20141201210818_gpubox01_00.fits");
    let data = GpuboxFileData {
        filename: filename.clone(),
        obsid: Some(1_101_503_312),
        corr_ver: None,
        naxis1: BASELINES * POLS * 2,
        naxis2: FINE_CHANS,
        hdu_unix_times_ms: vec![1_417_468_096_000],
    };
    CorrelatorContext::new(metafits, &vec![filename], &vec![data])
        .expect("Failed to create CorrelatorContext")
}

fn mwax_context() -> CorrelatorContext {
    let metafits = MetafitsContext::new(
        1_244_973_688,
        1_560_938_470_000,
        2000,
        1000,
        0,
        1_560_938_470_000,
        2,
        POLS,
        FINE_CHANS,
        vec![114],
        1_280_000,
    );
    let filename = String::from("1244973688_20190619100110_ch114_000.fits");
    let data = GpuboxFileData {
        filename: filename.clone(),
        obsid: Some(1_244_973_688),
        corr_ver: Some(2),
        naxis1: FINE_CHANS * POLS * 2,
        naxis2: BASELINES,
        hdu_unix_times_ms: vec![1_560_938_470_000],
    };
    CorrelatorContext::new(metafits, &vec![filename], &vec![data])
        .expect("Failed to create CorrelatorContext")
}

/// A raw block whose sample at position `i` is the bit pattern of
/// `i + 1` as a 32-bit float.
fn sample_block() -> Vec<u32> {
    let mut raw: Vec<u32> = Vec::new();
    for i in 0..FLOATS {
        raw.push(((i + 1) as f32).to_bits());
    }
    raw
}

fn float_sum(samples: &[u32]) -> f64 {
    samples.iter().fold(0.0, |acc, v| acc + f32::from_bits(*v) as f64)
}

/// The offset of (baseline, fine channel, polarization, component) in
/// baseline-major order.
fn bl_index(bl: usize, fc: usize, pol: usize, reim: usize) -> usize {
    ((bl * FINE_CHANS + fc) * POLS + pol) * 2 + reim
}

/// The offset of the same coordinate in frequency-major order.
fn freq_index(bl: usize, fc: usize, pol: usize, reim: usize) -> usize {
    ((fc * BASELINES + bl) * POLS + pol) * 2 + reim
}

#[test]
fn test_legacy_read_by_baseline_is_native_order() {
    let context = legacy_context();
    let raw = sample_block();
    let out = context.read_by_baseline(0, 0, &raw).expect("Error!");
    // Pre-MWAX blocks are already baseline-major on disk.
    assert_eq!(out, raw);
}

#[test]
fn test_legacy_read_by_frequency_transposes() {
    let context = legacy_context();
    let raw = sample_block();
    let out = context.read_by_frequency(0, 0, &raw).expect("Error!");
    assert_eq!(out.len(), FLOATS);
    for bl in 0..BASELINES {
        for fc in 0..FINE_CHANS {
            for pol in 0..POLS {
                for reim in 0..2 {
                    assert_eq!(out[freq_index(bl, fc, pol, reim)], raw[bl_index(bl, fc, pol, reim)]);
                }
            }
        }
    }
}

#[test]
fn test_mwax_read_by_frequency_is_native_order() {
    let context = mwax_context();
    let raw = sample_block();
    let out = context.read_by_frequency(0, 0, &raw).expect("Error!");
    // MWAX blocks are already frequency-major on disk.
    assert_eq!(out, raw);
}

#[test]
fn test_mwax_read_by_baseline_transposes() {
    let context = mwax_context();
    let raw = sample_block();
    let out = context.read_by_baseline(0, 0, &raw).expect("Error!");
    assert_eq!(out.len(), FLOATS);
    for bl in 0..BASELINES {
        for fc in 0..FINE_CHANS {
            for pol in 0..POLS {
                for reim in 0..2 {
                    assert_eq!(out[bl_index(bl, fc, pol, reim)], raw[freq_index(bl, fc, pol, reim)]);
                }
            }
        }
    }
}

#[test]
fn test_read_orderings_same_length_and_sum() {
    // Both orderings of one block hold the same samples: equal length,
    // equal sum, for both hardware generations.
    let raw = sample_block();
    for context in [legacy_context(), mwax_context()] {
        let by_bl = context.read_by_baseline(0, 0, &raw).expect("Error!");
        let by_freq = context.read_by_frequency(0, 0, &raw).expect("Error!");
        assert_eq!(by_bl.len(), by_freq.len());
        assert!(float_sum(&by_bl) != 0.0);
        assert_eq!(float_sum(&by_bl), float_sum(&by_freq));
        assert_eq!(float_sum(&by_bl), float_sum(&raw));
    }
}

#[test]
fn test_read_into_buffer_matches_allocating_form() {
    let raw = sample_block();
    for context in [legacy_context(), mwax_context()] {
        let by_bl = context.read_by_baseline(0, 0, &raw).expect("Error!");
        let mut buffer_bl: Vec<u32> = vec![0; FLOATS];
        context
            .read_by_baseline_into_buffer(0, 0, &raw, &mut buffer_bl)
            .expect("Error!");
        assert_eq!(by_bl, buffer_bl);

        let by_freq = context.read_by_frequency(0, 0, &raw).expect("Error!");
        let mut buffer_freq: Vec<u32> = vec![0; FLOATS];
        context
            .read_by_frequency_into_buffer(0, 0, &raw, &mut buffer_freq)
            .expect("Error!");
        assert_eq!(by_freq, buffer_freq);
    }
}

#[test]
fn test_read_by_frequency_invalid_inputs() {
    let context = mwax_context();
    let raw = sample_block();

    // 99999 is invalid as a timestep for this observation
    let result_invalid_timestep = context.read_by_frequency(99999, 0, &raw);

    assert!(matches!(
        result_invalid_timestep.unwrap_err(),
        GpuboxError::InvalidTimeStepIndex(_)
    ));

    // 99999 is invalid as a coarse_chan for this observation
    let result_invalid_coarse_chan = context.read_by_frequency(0, 99999, &raw);

    assert!(matches!(
        result_invalid_coarse_chan.unwrap_err(),
        GpuboxError::InvalidCoarseChanIndex(_)
    ));
}

#[test]
fn test_read_by_baseline_invalid_inputs() {
    let context = mwax_context();
    let raw = sample_block();

    // 99999 is invalid as a timestep for this observation
    let result_invalid_timestep = context.read_by_baseline(99999, 0, &raw);

    assert!(matches!(
        result_invalid_timestep.unwrap_err(),
        GpuboxError::InvalidTimeStepIndex(_)
    ));

    // 99999 is invalid as a coarse_chan for this observation
    let result_invalid_coarse_chan = context.read_by_baseline(0, 99999, &raw);

    assert!(matches!(
        result_invalid_coarse_chan.unwrap_err(),
        GpuboxError::InvalidCoarseChanIndex(_)
    ));
}

#[test]
fn test_read_missing_data() {
    let context = legacy_context();
    let raw = sample_block();
    // Timestep 1 is on the grid but no file recorded it.
    assert!(matches!(
        context.read_by_baseline(1, 0, &raw).unwrap_err(),
        GpuboxError::NoDataForTimeStepCoarseChannel {
            timestep_index: 1,
            coarse_chan_index: 0
        }
    ));
}

#[test]
fn test_read_buffer_size_mismatch() {
    let context = legacy_context();
    let raw = sample_block();
    let mut small: Vec<u32> = vec![0; FLOATS - 1];
    match context
        .read_by_baseline_into_buffer(0, 0, &raw, &mut small)
        .unwrap_err()
    {
        GpuboxError::InvalidBufferSize {
            buffer_size,
            expected_buffer_size,
        } => {
            assert_eq!(buffer_size, FLOATS - 1);
            assert_eq!(expected_buffer_size, FLOATS);
        }
        other => panic!("unexpected error: {:?}", other),
    }
}

#[test]
fn test_read_raw_size_mismatch() {
    let context = legacy_context();
    let short_raw: Vec<u32> = vec![0; FLOATS - 1];
    assert!(matches!(
        context.read_by_baseline(0, 0, &short_raw).unwrap_err(),
        GpuboxError::UnequalHduSizes
    ));
}
