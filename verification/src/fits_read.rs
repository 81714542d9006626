//! Errors reported by the structured-file access layer.
//!
//! The library itself performs no file I/O: callers read header keys and
//! data units and hand the values in. When such a read fails, the caller
//! describes the failure with one of these variants and the error travels
//! through the library unchanged (wrapped as `GpuboxError::Fits`).

use vstd::prelude::*;

verus! {

/// A failure in the underlying structured-file access layer, as plain data.
#[derive(Clone, Debug)]
pub enum FitsError {
    /// Error when opening a fits file.
    Open { fits_error: String, fits_filename: String, source_file: String, source_line: u32 },
    /// A key that couldn't be found in a fits header.
    MissingKey {
        key: String,
        fits_filename: String,
        hdu_num: usize,
        source_file: String,
        source_line: u32,
    },
    /// A HDU that couldn't be used as an image.
    NotImage { fits_filename: String, hdu_num: usize, source_file: String, source_line: u32 },
    /// Failure to read a long string.
    LongString {
        key: String,
        fits_filename: String,
        hdu_num: usize,
        source_file: String,
        source_line: u32,
    },
    /// A generic error from the file access layer.
    Fitsio {
        fits_error: String,
        fits_filename: String,
        hdu_num: usize,
        source_file: String,
        source_line: u32,
    },
    /// An error associated with parsing a header value into another type.
    Parse {
        key: String,
        fits_filename: String,
        hdu_num: usize,
        source_file: String,
        source_line: u32,
    },
}

} // verus!
