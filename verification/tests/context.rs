//! Construction of the observation context from plain values, and its
//! time/channel index.

use mwalib::correlator_context::CorrelatorContext;
use mwalib::correlator_context::GpuboxFileData;
use mwalib::gpubox_files::GpuboxError;
use mwalib::metafits_context::MetafitsContext;
use mwalib::mwa_version::MWAVersion;

/// A small two-timestep, two-channel legacy observation.
fn legacy_metafits() -> MetafitsContext {
    MetafitsContext::new(
        1_101_503_312,
        1_417_468_096_000,
        4000,
        2000,
        2000,
        1_417_468_098_000,
        2,
        2,
        2,
        vec![109, 110],
        1_280_000,
    )
}

fn legacy_file_1() -> (String, GpuboxFileData) {
    let filename = String::from("1101503312_20141201210818_gpubox01_00.fits");
    let data = GpuboxFileData {
        filename: filename.clone(),
        obsid: Some(1_101_503_312),
        corr_ver: None,
        naxis1: 12,
        naxis2: 2,
        hdu_unix_times_ms: vec![1_417_468_096_000, 1_417_468_098_000],
    };
    (filename, data)
}

fn legacy_file_2() -> (String, GpuboxFileData) {
    let filename = String::from("1101503312_20141201210818_gpubox02_00.fits");
    let data = GpuboxFileData {
        filename: filename.clone(),
        obsid: Some(1_101_503_312),
        corr_ver: None,
        naxis1: 12,
        naxis2: 2,
        hdu_unix_times_ms: vec![1_417_468_096_000],
    };
    (filename, data)
}

fn legacy_context() -> CorrelatorContext {
    let (f1, d1) = legacy_file_1();
    let (f2, d2) = legacy_file_2();
    CorrelatorContext::new(legacy_metafits(), &vec![f1, f2], &vec![d1, d2])
        .expect("Failed to create CorrelatorContext")
}

#[test]
fn test_context_new_no_files() {
    let context = CorrelatorContext::new(legacy_metafits(), &Vec::new(), &Vec::new());
    assert!(matches!(context.unwrap_err(), GpuboxError::NoGpuboxes));
}

#[test]
fn test_context_new_obsid_mismatch() {
    let (f1, mut d1) = legacy_file_1();
    d1.obsid = Some(1_101_503_313);
    let context = CorrelatorContext::new(legacy_metafits(), &vec![f1], &vec![d1]);
    match context.unwrap_err() {
        GpuboxError::ObsidMismatch {
            obsid,
            gpubox_filename,
            gpubox_obsid,
        } => {
            assert_eq!(obsid, 1_101_503_312);
            assert_eq!(gpubox_obsid, 1_101_503_313);
            assert_eq!(gpubox_filename, "1101503312_20141201210818_gpubox01_00.fits");
        }
        other => panic!("unexpected error: {:?}", other),
    }
}

#[test]
fn test_context_new_missing_obsid() {
    let (f1, mut d1) = legacy_file_1();
    d1.obsid = None;
    let context = CorrelatorContext::new(legacy_metafits(), &vec![f1], &vec![d1]);
    assert!(matches!(context.unwrap_err(), GpuboxError::MissingObsid(_)));
}

#[test]
fn test_context_new_mwax_marker_on_legacy_file() {
    let (f1, mut d1) = legacy_file_1();
    d1.corr_ver = Some(2);
    let context = CorrelatorContext::new(legacy_metafits(), &vec![f1], &vec![d1]);
    assert!(matches!(
        context.unwrap_err(),
        GpuboxError::CorrVerMismatch {
            gpubox_filename: _,
            gpu_corr_version_value: 2
        }
    ));
}

#[test]
fn test_context_new_bad_axes() {
    let (f1, mut d1) = legacy_file_1();
    d1.naxis1 = 13;
    let context = CorrelatorContext::new(legacy_metafits(), &vec![f1], &vec![d1]);
    match context.unwrap_err() {
        GpuboxError::LegacyNaxis1Mismatch {
            naxis1,
            calculated_naxis1,
            metafits_baselines,
            visibility_pols,
            naxis2,
        } => {
            assert_eq!(naxis1, 13);
            assert_eq!(calculated_naxis1, 12);
            assert_eq!(metafits_baselines, 3);
            assert_eq!(visibility_pols, 2);
            assert_eq!(naxis2, 2);
        }
        other => panic!("unexpected error: {:?}", other),
    }
}

#[test]
fn test_context_new_no_data_hdus() {
    let (f1, mut d1) = legacy_file_1();
    d1.hdu_unix_times_ms = Vec::new();
    let context = CorrelatorContext::new(legacy_metafits(), &vec![f1], &vec![d1]);
    assert!(matches!(
        context.unwrap_err(),
        GpuboxError::NoDataHDUsInGpuboxFile { gpubox_filename: _ }
    ));
}

#[test]
fn test_context_legacy_fixture() {
    let context = legacy_context();

    assert_eq!(context.mwa_version, MWAVersion::CorrLegacy);
    assert_eq!(context.num_timesteps, 2);
    assert_eq!(context.timesteps[0].unix_time_ms, 1_417_468_096_000);
    assert_eq!(context.timesteps[1].unix_time_ms, 1_417_468_098_000);

    assert_eq!(context.num_coarse_chans, 2);
    assert_eq!(context.coarse_chans[0].corr_chan_number, 0);
    assert_eq!(context.coarse_chans[0].gpubox_number, 1);
    assert_eq!(context.coarse_chans[0].rec_chan_number, 109);
    assert_eq!(context.coarse_chans[0].chan_centre_hz, 139_520_000);
    assert_eq!(context.coarse_chans[1].gpubox_number, 2);
    assert_eq!(context.coarse_chans[1].chan_centre_hz, 140_800_000);

    assert_eq!(context.num_gpubox_files, 2);
    assert_eq!(context.gpubox_batches.len(), 1);
    assert_eq!(context.gpubox_batches[0].gpubox_files.len(), 2);

    // Both channels and both timesteps appear somewhere.
    assert_eq!(context.provided_timestep_indices, vec![0, 1]);
    assert_eq!(context.provided_coarse_chan_indices, vec![0, 1]);

    // Only the first timestep has data in both channels; only the first
    // channel has data at both timesteps.
    assert_eq!(context.common_timestep_indices, vec![0]);
    assert_eq!(context.num_common_timesteps, 1);
    assert_eq!(context.common_coarse_chan_indices, vec![0]);
    assert_eq!(context.num_common_coarse_chans, 1);
    assert_eq!(context.common_start_unix_time_ms, 1_417_468_096_000);
    assert_eq!(context.common_end_unix_time_ms, 1_417_468_098_000);
    assert_eq!(context.common_duration_ms, 2000);
    assert_eq!(context.common_bandwidth_hz, 1_280_000);

    // The good-time boundary excludes the whole common span.
    assert_eq!(context.common_good_timestep_indices.len(), 0);
    assert_eq!(context.common_good_coarse_chan_indices.len(), 0);

    assert_eq!(context.num_timestep_coarse_chan_floats, 24);

    assert_eq!(context.metafits_context.num_baselines, 3);
    assert_eq!(context.metafits_context.metafits_coarse_chans.len(), 2);
    assert_eq!(context.metafits_context.metafits_timesteps.len(), 2);
}

#[test]
fn test_timestep_gps_times() {
    let context = legacy_context();
    // The GPS grid starts at obsid seconds and advances with the UNIX grid.
    assert_eq!(context.timesteps[0].gps_time_ms, 1_101_503_312_000);
    assert_eq!(context.timesteps[1].gps_time_ms, 1_101_503_314_000);
}

#[test]
fn test_good_time_boundary_is_inclusive() {
    // Two common timesteps; the good-time boundary falls exactly on the
    // second one. A timestep starting exactly at the boundary counts as
    // good; the one before it does not.
    let metafits = MetafitsContext::new(
        1_101_503_312,
        1_417_468_096_000,
        4000,
        2000,
        2000,
        1_417_468_098_000,
        2,
        2,
        2,
        vec![109],
        1_280_000,
    );
    let filename = String::from("1101503312_20141201210818_gpubox01_00.fits");
    let data = GpuboxFileData {
        filename: filename.clone(),
        obsid: Some(1_101_503_312),
        corr_ver: None,
        naxis1: 12,
        naxis2: 2,
        hdu_unix_times_ms: vec![1_417_468_096_000, 1_417_468_098_000],
    };
    let context = CorrelatorContext::new(metafits, &vec![filename], &vec![data])
        .expect("Failed to create CorrelatorContext");
    assert_eq!(context.common_timestep_indices, vec![0, 1]);
    assert_eq!(context.common_good_timestep_indices, vec![1]);
    assert_eq!(context.common_good_coarse_chan_indices, vec![0]);
}

#[test]
fn test_resolve_data_unit() {
    let context = legacy_context();

    // Timestep 0 is present in both channels.
    assert_eq!(context.resolve_data_unit(0, 0).expect("data"), (0, 1));
    assert_eq!(context.resolve_data_unit(0, 1).expect("data"), (0, 1));
    // Timestep 1 is present only in the first channel, as its second
    // data unit.
    assert_eq!(context.resolve_data_unit(1, 0).expect("data"), (0, 2));
    assert!(matches!(
        context.resolve_data_unit(1, 1).unwrap_err(),
        GpuboxError::NoDataForTimeStepCoarseChannel {
            timestep_index: 1,
            coarse_chan_index: 1
        }
    ));
}

#[test]
fn test_resolve_index_bounds() {
    let context = legacy_context();

    // The boundary: index == count fails, index == count - 1 succeeds
    // where data is present.
    assert!(matches!(
        context.resolve_data_unit(2, 0).unwrap_err(),
        GpuboxError::InvalidTimeStepIndex(1)
    ));
    assert!(context.resolve_data_unit(1, 0).is_ok());
    assert!(matches!(
        context.resolve_data_unit(0, 2).unwrap_err(),
        GpuboxError::InvalidCoarseChanIndex(1)
    ));
    assert!(context.resolve_data_unit(0, 1).is_ok());
    assert!(matches!(
        context.resolve_data_unit(99999, 0).unwrap_err(),
        GpuboxError::InvalidTimeStepIndex(_)
    ));
}

#[test]
fn test_context_mwax_fixture() {
    let metafits = MetafitsContext::new(
        1_244_973_688,
        1_560_938_470_000,
        2000,
        1000,
        0,
        1_560_938_470_000,
        2,
        2,
        2,
        vec![114, 115],
        1_280_000,
    );
    let filename = String::from("1244973688_20190619100110_ch114_000.fits");
    let data = GpuboxFileData {
        filename: filename.clone(),
        obsid: Some(1_244_973_688),
        corr_ver: Some(2),
        naxis1: 8,
        naxis2: 3,
        hdu_unix_times_ms: vec![1_560_938_470_000],
    };
    let context = CorrelatorContext::new(metafits, &vec![filename], &vec![data])
        .expect("Failed to create CorrelatorContext");

    assert_eq!(context.mwa_version, MWAVersion::CorrMWAXv2);
    assert_eq!(context.num_timesteps, 2);
    assert_eq!(context.coarse_chans[0].gpubox_number, 114);
    assert_eq!(context.coarse_chans[0].rec_chan_number, 114);
    assert_eq!(context.coarse_chans[0].chan_centre_hz, 145_920_000);
    assert_eq!(context.provided_timestep_indices, vec![0]);
    assert_eq!(context.provided_coarse_chan_indices, vec![0]);
    assert_eq!(context.common_timestep_indices, vec![0]);
    assert_eq!(context.common_coarse_chan_indices, vec![0]);
    // The whole common span is at or after the good-time boundary.
    assert_eq!(context.common_good_timestep_indices, vec![0]);
    assert_eq!(context.common_good_coarse_chan_indices, vec![0]);
    assert_eq!(context.resolve_data_unit(0, 0).expect("data"), (0, 1));
}
