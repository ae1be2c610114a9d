//! Font resolution engine: name normalization, tiered similarity matching,
//! a hybrid two-level cache, and a compressed font database codec.

pub mod acquisition;
pub mod cache;
pub mod compressor;
pub mod outside;
pub mod license;
pub mod normalize;
pub mod resolver;
pub mod similarity;
pub mod sources;
pub mod text;
pub mod types;
pub mod updater;
pub mod webdb;

use vstd::prelude::*;

verus! {

/// Errors reported by the resolution engine.
///
/// Quota errors carry the projected use in kilobytes and the configured
/// limit in megabytes.
#[derive(Debug, Clone)]
pub enum FontError {
    Io(String),
    Parse(String),
    NotFound(String),
    UnsupportedFormat,
    LicenseRestriction(String),
    InvalidFontName(String),
    PlatformNotSupported(String),
    CacheError(String),
    MemoryLimitExceeded(usize, usize),
    DiskLimitExceeded(usize, usize),
}

pub type FontResult<T> = Result<T, FontError>;

} // verus!
