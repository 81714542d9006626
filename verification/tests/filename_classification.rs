//! The filename classifier and the batch validator.

use mwalib::gpubox_files::classify_filename;
use mwalib::gpubox_files::determine_gpubox_batches;
use mwalib::gpubox_files::GpuboxError;
use mwalib::mwa_version::MWAVersion;

#[test]
fn test_classify_legacy_filename() {
    let r = classify_filename("1101503312_20141201210818_gpubox01_00.fits");
    assert_eq!(r, Some((MWAVersion::CorrLegacy, 0, 1)));
}

#[test]
fn test_classify_legacy_filename_with_path() {
    let r = classify_filename("test_files/1101503312_1_timestep/1101503312_20141201210818_gpubox01_00.fits");
    assert_eq!(r, Some((MWAVersion::CorrLegacy, 0, 1)));
}

#[test]
fn test_classify_old_legacy_filename() {
    let r = classify_filename("1101503312_20141201210818_gpubox13.fits");
    assert_eq!(r, Some((MWAVersion::CorrOldLegacy, 0, 13)));
}

#[test]
fn test_classify_mwax_filename() {
    let r = classify_filename("1244973688_20190619100110_ch114_000.fits");
    assert_eq!(r, Some((MWAVersion::CorrMWAXv2, 0, 114)));
}

#[test]
fn test_classify_mwax_filename_with_datetime_separator() {
    let r = classify_filename("1244973688_20190619T100110_ch114_005.fits");
    assert_eq!(r, Some((MWAVersion::CorrMWAXv2, 5, 114)));
}

#[test]
fn test_classify_unrecognised_filename() {
    assert_eq!(classify_filename("NOT_A_GPUBOX_FILE.fits"), None);
    assert_eq!(classify_filename("1101503312_20141201210818_gpubox01_00.dat"), None);
    assert_eq!(classify_filename(""), None);
}

#[test]
fn test_determine_batches_empty() {
    let files: Vec<String> = Vec::new();
    assert!(matches!(
        determine_gpubox_batches(&files).unwrap_err(),
        GpuboxError::NoGpuboxes
    ));
}

#[test]
fn test_determine_batches_unrecognised() {
    let files = vec![
        String::from("1101503312_20141201210818_gpubox01_00.fits"),
        String::from("garbage.fits"),
    ];
    match determine_gpubox_batches(&files).unwrap_err() {
        GpuboxError::Unrecognised(f) => assert_eq!(f, "garbage.fits"),
        other => panic!("unexpected error: {:?}", other),
    }
}

#[test]
fn test_determine_batches_mixture() {
    let files = vec![
        String::from("1101503312_20141201210818_gpubox01_00.fits"),
        String::from("1244973688_20190619100110_ch114_000.fits"),
    ];
    assert!(matches!(
        determine_gpubox_batches(&files).unwrap_err(),
        GpuboxError::Mixture
    ));
}

#[test]
fn test_determine_batches_missing_batch() {
    // Batches 0 and 2 are present; batch 1 is missing.
    let files = vec![
        String::from("1101503312_20141201210818_gpubox01_00.fits"),
        String::from("1101503312_20141201210818_gpubox01_02.fits"),
    ];
    match determine_gpubox_batches(&files).unwrap_err() {
        GpuboxError::BatchMissing { expected, got } => {
            assert_eq!(expected, 1);
            assert_eq!(got, 2);
        }
        other => panic!("unexpected error: {:?}", other),
    }
}

#[test]
fn test_determine_batches_uneven() {
    // Batch 0 has two files, batch 1 only one.
    let files = vec![
        String::from("1101503312_20141201210818_gpubox01_00.fits"),
        String::from("1101503312_20141201210818_gpubox02_00.fits"),
        String::from("1101503312_20141201210818_gpubox01_01.fits"),
    ];
    match determine_gpubox_batches(&files).unwrap_err() {
        GpuboxError::UnevenCountInBatches { expected, got } => {
            assert_eq!(expected, 2);
            assert_eq!(got, 1);
        }
        other => panic!("unexpected error: {:?}", other),
    }
}

#[test]
fn test_determine_batches_orders_files() {
    // Two batches, two channels each, given out of order.
    let files = vec![
        String::from("1101503312_20141201210818_gpubox02_01.fits"),
        String::from("1101503312_20141201210818_gpubox01_00.fits"),
        String::from("1101503312_20141201210818_gpubox01_01.fits"),
        String::from("1101503312_20141201210818_gpubox02_00.fits"),
    ];
    let (batches, version) = determine_gpubox_batches(&files).expect("batches");
    assert_eq!(version, MWAVersion::CorrLegacy);
    assert_eq!(batches.len(), 2);
    assert_eq!(batches[0].batch_number, 0);
    assert_eq!(batches[1].batch_number, 1);
    assert_eq!(batches[0].gpubox_files.len(), 2);
    assert_eq!(batches[1].gpubox_files.len(), 2);
    assert_eq!(batches[0].gpubox_files[0].channel_identifier, 1);
    assert_eq!(batches[0].gpubox_files[0].filename, files[1]);
    assert_eq!(batches[0].gpubox_files[1].channel_identifier, 2);
    assert_eq!(batches[0].gpubox_files[1].filename, files[3]);
    assert_eq!(batches[1].gpubox_files[0].channel_identifier, 1);
    assert_eq!(batches[1].gpubox_files[0].filename, files[2]);
    assert_eq!(batches[1].gpubox_files[1].channel_identifier, 2);
    assert_eq!(batches[1].gpubox_files[1].filename, files[0]);
}
