//! Header cross-validation checks on plain values.

use mwalib::correlator_context::CorrelatorContext;
use mwalib::gpubox_files::validate_gpubox_metadata_correlator_version;
use mwalib::gpubox_files::validate_gpubox_metadata_obs_id;
use mwalib::gpubox_files::GpuboxError;
use mwalib::mwa_version::MWAVersion;

#[test]
fn test_validate_hdu_axes_good() {
    let metafits_fine_chans_per_coarse = 128;
    let metafits_baselines = 8256;
    let visibility_pols = 4;
    let result_good1 = CorrelatorContext::validate_hdu_axes(
        MWAVersion::CorrOldLegacy,
        metafits_fine_chans_per_coarse,
        metafits_baselines,
        visibility_pols,
        8256 * 4 * 2,
        128,
    );

    assert!(result_good1.is_ok());

    let result_good2 = CorrelatorContext::validate_hdu_axes(
        MWAVersion::CorrLegacy,
        metafits_fine_chans_per_coarse,
        metafits_baselines,
        visibility_pols,
        8256 * 4 * 2,
        128,
    );

    assert!(result_good2.is_ok());

    let result_good3 = CorrelatorContext::validate_hdu_axes(
        MWAVersion::CorrMWAXv2,
        metafits_fine_chans_per_coarse,
        metafits_baselines,
        visibility_pols,
        128 * 4 * 2,
        8256,
    );

    assert!(result_good3.is_ok());
}

#[test]
fn test_validate_hdu_axes_naxis_mismatches_oldlegacy() {
    let metafits_fine_chans_per_coarse = 128;
    let metafits_baselines = 8256;
    let visibility_pols = 4;
    let values = 1;

    // Check for NAXIS1 mismatch
    let result_bad1 = CorrelatorContext::validate_hdu_axes(
        MWAVersion::CorrOldLegacy,
        metafits_fine_chans_per_coarse,
        metafits_baselines,
        visibility_pols,
        metafits_baselines * visibility_pols * values,
        128,
    );

    assert!(matches!(
        result_bad1.unwrap_err(),
        GpuboxError::LegacyNaxis1Mismatch {
            metafits_baselines: _,
            visibility_pols: _,
            naxis1: _,
            naxis2: _,
            calculated_naxis1: _
        }
    ));

    // Check for NAXIS2 mismatch
    let result_bad2 = CorrelatorContext::validate_hdu_axes(
        MWAVersion::CorrOldLegacy,
        metafits_fine_chans_per_coarse,
        metafits_baselines,
        visibility_pols,
        8256 * 4 * 2,
        129,
    );

    assert!(matches!(
        result_bad2.unwrap_err(),
        GpuboxError::LegacyNaxis2Mismatch {
            metafits_fine_chans_per_coarse: _,
            naxis2: _,
            calculated_naxis2: _
        }
    ));
}

#[test]
fn test_validate_hdu_axes_naxis_mismatches_legacy() {
    let metafits_fine_chans_per_coarse = 128;
    let metafits_baselines = 8256;
    let visibility_pols = 4;
    let values = 1;

    // Check for NAXIS1 mismatch
    let result_bad1 = CorrelatorContext::validate_hdu_axes(
        MWAVersion::CorrLegacy,
        metafits_fine_chans_per_coarse,
        metafits_baselines,
        visibility_pols,
        metafits_baselines * visibility_pols * values,
        128,
    );

    assert!(matches!(
        result_bad1.unwrap_err(),
        GpuboxError::LegacyNaxis1Mismatch {
            metafits_baselines: _,
            visibility_pols: _,
            naxis1: _,
            naxis2: _,
            calculated_naxis1: _
        }
    ));

    // Check for NAXIS2 mismatch
    let result_bad2 = CorrelatorContext::validate_hdu_axes(
        MWAVersion::CorrLegacy,
        metafits_fine_chans_per_coarse,
        metafits_baselines,
        visibility_pols,
        8256 * 4 * 2,
        129,
    );

    assert!(matches!(
        result_bad2.unwrap_err(),
        GpuboxError::LegacyNaxis2Mismatch {
            metafits_fine_chans_per_coarse: _,
            naxis2: _,
            calculated_naxis2: _
        }
    ));
}

#[test]
fn test_validate_hdu_axes_naxis_mismatches_v2() {
    let metafits_fine_chans_per_coarse = 128;
    let metafits_baselines = 8256;
    let visibility_pols = 4;
    let values = 2;

    // Check for NAXIS1 mismatch
    let result_bad1 = CorrelatorContext::validate_hdu_axes(
        MWAVersion::CorrMWAXv2,
        metafits_fine_chans_per_coarse,
        metafits_baselines,
        visibility_pols,
        metafits_fine_chans_per_coarse * visibility_pols,
        8256,
    );

    assert!(matches!(
        result_bad1.unwrap_err(),
        GpuboxError::MwaxNaxis1Mismatch {
            metafits_fine_chans_per_coarse: _,
            visibility_pols: _,
            naxis1: _,
            naxis2: _,
            calculated_naxis1: _
        }
    ));

    // Check for NAXIS2 mismatch
    let result_bad2 = CorrelatorContext::validate_hdu_axes(
        MWAVersion::CorrMWAXv2,
        metafits_fine_chans_per_coarse,
        metafits_baselines,
        visibility_pols,
        metafits_fine_chans_per_coarse * visibility_pols * values,
        8257,
    );

    assert!(matches!(
        result_bad2.unwrap_err(),
        GpuboxError::MwaxNaxis2Mismatch {
            metafits_baselines: _,
            naxis2: _,
            calculated_naxis2: _
        }
    ));
}

#[test]
fn test_validate_hdu_axes_rejects_vcs_versions() {
    let r = CorrelatorContext::validate_hdu_axes(MWAVersion::VCSLegacyRecombined, 128, 8256, 4, 1, 1);
    assert!(matches!(
        r.unwrap_err(),
        GpuboxError::InvalidMwaVersion { mwa_version: MWAVersion::VCSLegacyRecombined }
    ));
    let r2 = CorrelatorContext::validate_hdu_axes(MWAVersion::VCSMWAXv2, 128, 8256, 4, 1, 1);
    assert!(matches!(
        r2.unwrap_err(),
        GpuboxError::InvalidMwaVersion { mwa_version: MWAVersion::VCSMWAXv2 }
    ));
}

#[test]
fn test_validate_obs_id() {
    let name = String::from("1101503312_20141201210818_gpubox01_00.fits");
    assert!(validate_gpubox_metadata_obs_id(Some(1_101_503_312), 1_101_503_312, &name).is_ok());
    assert!(matches!(
        validate_gpubox_metadata_obs_id(None, 1_101_503_312, &name).unwrap_err(),
        GpuboxError::MissingObsid(_)
    ));
    match validate_gpubox_metadata_obs_id(Some(99), 1_101_503_312, &name).unwrap_err() {
        GpuboxError::ObsidMismatch {
            obsid,
            gpubox_filename,
            gpubox_obsid,
        } => {
            assert_eq!(obsid, 1_101_503_312);
            assert_eq!(gpubox_obsid, 99);
            assert_eq!(gpubox_filename, name);
        }
        other => panic!("unexpected error: {:?}", other),
    }
}

#[test]
fn test_validate_correlator_version() {
    let name = String::from("x.fits");
    // Pre-MWAX files: the MWAX marker is the only bad value.
    assert!(
        validate_gpubox_metadata_correlator_version(None, &name, MWAVersion::CorrLegacy).is_ok()
    );
    assert!(validate_gpubox_metadata_correlator_version(Some(1), &name, MWAVersion::CorrOldLegacy)
        .is_ok());
    assert!(matches!(
        validate_gpubox_metadata_correlator_version(Some(2), &name, MWAVersion::CorrLegacy)
            .unwrap_err(),
        GpuboxError::CorrVerMismatch {
            gpubox_filename: _,
            gpu_corr_version_value: 2
        }
    ));
    // MWAX files: the marker must be present and exactly 2.
    assert!(
        validate_gpubox_metadata_correlator_version(Some(2), &name, MWAVersion::CorrMWAXv2).is_ok()
    );
    assert!(matches!(
        validate_gpubox_metadata_correlator_version(None, &name, MWAVersion::CorrMWAXv2)
            .unwrap_err(),
        GpuboxError::MwaxCorrVerMissing(_)
    ));
    assert!(matches!(
        validate_gpubox_metadata_correlator_version(Some(1), &name, MWAVersion::CorrMWAXv2)
            .unwrap_err(),
        GpuboxError::MwaxCorrVerMismatch(_)
    ));
}
