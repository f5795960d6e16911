//! CLI commands and arguments, as values.
use std::path::PathBuf;
use vstd::prelude::*;

verus! {

/// Audiobook Forge - Convert audiobook directories to M4B format
pub struct Cli {
    pub command: Commands,
    /// Enable verbose output
    pub verbose: bool,
}

/// What the user asks for
pub enum Commands {
    /// Process audiobooks and convert to M4B
    Build(BuildArgs),
    /// Organize audiobooks into M4B and To_Convert folders
    Organize(OrganizeArgs),
    /// Manage configuration
    Config(ConfigCommands),
    /// Fetch and manage Audible metadata
    Metadata(MetadataCommands),
    /// Interactive metadata matching for M4B files
    Match(MatchArgs),
    /// Check system dependencies
    Check,
    /// Show version information
    Version,
}

/// Arguments for the build command
pub struct BuildArgs {
    /// Root directory containing audiobook folders
    pub root: Option<PathBuf>,
    /// Output directory (defaults to same as root)
    pub out: Option<PathBuf>,
    /// Number of parallel workers (1-8)
    pub parallel: Option<u8>,
    /// Skip folders with existing M4B files
    pub skip_existing: Option<bool>,
    /// Force reprocessing (overwrite existing)
    pub force: bool,
    /// Merge multiple M4B files even without detected naming pattern
    pub merge_m4b: bool,
    /// Normalize existing M4B files (fix metadata)
    pub normalize: bool,
    /// Dry run (analyze without creating files)
    pub dry_run: bool,
    /// Prefer stereo over mono
    pub prefer_stereo: Option<bool>,
    /// Chapter source priority
    pub chapter_source: Option<String>,
    /// Cover art filenames (comma-separated)
    pub cover_names: Option<String>,
    /// Default language for metadata
    pub language: Option<String>,
    /// Keep temporary files for debugging
    pub keep_temp: bool,
    /// Delete original files after conversion
    pub delete_originals: bool,
    /// Quality preset for output audio
    pub quality: Option<String>,
    /// AAC encoder to use (auto, aac_at, libfdk_aac, aac)
    pub aac_encoder: Option<String>,
    /// DEPRECATED: Use --aac-encoder instead
    pub use_apple_silicon_encoder: Option<bool>,
    /// Fetch metadata from Audible during build
    pub fetch_audible: bool,
    /// Audible region (us, uk, ca, au, fr, de, jp, it, in, es)
    pub audible_region: Option<String>,
    /// Auto-match books with Audible by folder name
    pub audible_auto_match: bool,
    /// Configuration file path
    pub config: Option<PathBuf>,
}

/// Arguments for the organize command
pub struct OrganizeArgs {
    /// Root directory to organize
    pub root: Option<PathBuf>,
    /// Dry run (show what would be done)
    pub dry_run: bool,
    /// Configuration file path
    pub config: Option<PathBuf>,
}

/// The config commands
pub enum ConfigCommands {
    /// Initialize config file with defaults
    Init {
        /// Overwrite existing config file
        force: bool,
    },
    /// Show current configuration
    Show {
        /// Configuration file path
        config: Option<PathBuf>,
    },
    /// Validate configuration file
    Validate {
        /// Configuration file path
        config: Option<PathBuf>,
    },
    /// Show config file path
    Path,
    /// Edit config file in default editor
    Edit,
}

/// The metadata commands
pub enum MetadataCommands {
    /// Fetch metadata from Audible
    Fetch {
        /// Audible ASIN (B002V5D7RU format)
        asin: Option<String>,
        /// Search by title
        title: Option<String>,
        /// Search by author
        author: Option<String>,
        /// Audible region (us, uk, ca, au, fr, de, jp, it, in, es)
        region: String,
        /// Save metadata to JSON file
        output: Option<PathBuf>,
    },
    /// Enrich M4B file with Audible metadata
    Enrich {
        /// M4B file to enrich
        file: PathBuf,
        /// Audible ASIN
        asin: Option<String>,
        /// Auto-detect ASIN from filename
        auto_detect: bool,
        /// Audible region
        region: String,
        /// Update chapters from file (text/EPUB)
        chapters: Option<PathBuf>,
        /// Fetch chapters from Audnex API by ASIN
        chapters_asin: Option<String>,
        /// Only update chapters, skip metadata enrichment
        update_chapters_only: bool,
        /// Chapter merge strategy (keep-timestamps, replace-all, skip-on-mismatch, interactive)
        merge_strategy: String,
    },
}

/// Arguments for the match command
pub struct MatchArgs {
    /// M4B file to match
    pub file: Option<PathBuf>,
    /// Directory of M4B files
    pub dir: Option<PathBuf>,
    /// Manual title override
    pub title: Option<String>,
    /// Manual author override
    pub author: Option<String>,
    /// Auto mode (non-interactive, select best match)
    pub auto: bool,
    /// Audible region
    pub region: String,
    /// Keep existing cover art instead of downloading
    pub keep_cover: bool,
    /// Dry run (show matches but don't apply)
    pub dry_run: bool,
}

} // verus!
