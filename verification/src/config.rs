//! The settings that decisions depend on.
use std::path::PathBuf;
use vstd::prelude::*;

verus! {

/// The configuration
pub struct Config {
    pub directories: DirectoryConfig,
    pub processing: ProcessingConfig,
    pub performance: PerformanceConfig,
    pub quality: QualityConfig,
    pub metadata: MetadataConfig,
    pub advanced: AdvancedConfig,
}

/// Where audiobooks come from and go to
pub struct DirectoryConfig {
    /// Source directory
    pub source: Option<PathBuf>,
    /// Output directory, or `same_as_source`
    pub output: String,
}

/// How books are processed
pub struct ProcessingConfig {
    /// Number of parallel workers
    pub parallel_workers: u8,
    /// Skip folders with existing M4B files
    pub skip_existing: bool,
    /// Keep temporary files
    pub keep_temp_files: bool,
}

/// How much is done at a time
pub struct PerformanceConfig {
    /// Number of encodes at a time, or `auto`
    pub max_concurrent_encodes: String,
    /// Number of files of a book at a time, or `auto`
    pub max_concurrent_files_per_book: String,
}

/// What finished books are like
pub struct QualityConfig {
    /// Chapter source priority
    pub chapter_source: String,
}

/// How metadata is found
pub struct MetadataConfig {
    /// Cover art filenames to search for
    pub cover_filenames: Vec<String>,
    /// Auto-extract embedded cover art
    pub auto_extract_cover: bool,
    pub audible: AudibleConfig,
}

/// How Audible is used
pub struct AudibleConfig {
    /// Fetch metadata during a build
    pub enabled: bool,
    /// Region
    pub region: String,
    /// Match books by name where they carry no ASIN
    pub auto_match: bool,
    /// Download cover art
    pub download_covers: bool,
    /// Fetch chapters with the metadata
    pub fetch_chapters: bool,
}

/// Settings for experts
pub struct AdvancedConfig {
    /// AAC encoder, or `auto`
    pub aac_encoder: String,
    /// Superseded choice of the encoder
    pub use_apple_silicon_encoder: Option<bool>,
}

} // verus!
