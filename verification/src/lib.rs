//! Planning for batch media work: cutting a length into near-equal or
//! fixed-size pieces, laying tiles over an image, slicing sample buffers into
//! padded chunks, and naming what comes out.

pub mod audio;
pub mod chunks;
pub mod distinct;
pub mod duplicates;
pub mod error;
pub mod extension;
pub mod frames;
pub mod listing;
pub mod naming;
pub mod orient;
pub mod partition;
pub mod pixels;
pub mod sanity;
pub mod summary;
pub mod table;
pub mod tiles;

use vstd::prelude::*;

verus! {

/// Arguments for counting the entries of a directory.
#[derive(Debug, Clone)]
pub struct CountArgs {
    /// Target directory or file
    pub target: String,
}

/// Arguments for the summary of the images under a target.
#[derive(Debug, Clone)]
pub struct ImageSummaryArgs {
    /// Target directory or file
    pub target: String,
}

/// Arguments for resizing images to a fixed height and width.
#[derive(Debug, Clone)]
pub struct ImageResizeArgs {
    /// Input file or directory
    pub input: String,
    /// Requested height
    pub height: u32,
    /// Requested width
    pub width: u32,
    /// Output file or directory
    pub output: String,
    /// Flag to enable overwriting of input file
    pub overwrite: bool,
}

/// Arguments for cutting images into tiles.
#[derive(Debug, Clone)]
pub struct ImageTessellateArgs {
    /// Input file or directory
    pub input: String,
    /// Number of vertical patches
    pub n_vertical: u32,
    /// Number of horizontal patches
    pub n_horizontal: u32,
    /// Output file or directory
    pub output: String,
    /// Delete original file
    pub delete_original: bool,
}

/// Arguments for turning images to landscape orientation.
#[derive(Debug, Clone)]
pub struct ImageToLandscapeArgs {
    /// Input file or directory
    pub input: String,
    /// Output file or directory
    pub output: String,
    /// Flag to enable overwriting of input file
    pub overwrite: bool,
}

/// Arguments for turning images to portrait orientation.
#[derive(Debug, Clone)]
pub struct ImageToPortraitArgs {
    /// Input file or directory
    pub input: String,
    /// Output file or directory
    pub output: String,
    /// Flag to enable overwriting of input file
    pub overwrite: bool,
}

/// Arguments for the summary of the audio files under a target.
#[derive(Debug, Clone)]
pub struct AudioSummaryArgs {
    /// Target directory or file
    pub target: String,
}

/// Arguments for resampling audio files.
#[derive(Debug, Clone)]
pub struct AudioResampleArgs {
    /// Input file or directory
    pub input: String,
    /// Target sample rate
    pub sr: u32,
    /// Output file or directory
    pub output: String,
    /// Flag to enable overwriting of input file
    pub overwrite: bool,
}

/// Arguments for the summary of the video files under a target.
#[derive(Debug, Clone)]
pub struct VideoSummaryArgs {
    /// Target directory or file
    pub target: String,
}

/// Arguments for printing the schema of a table.
#[derive(Debug, Clone)]
pub struct TableSchemaArgs {
    /// Input file (CSV or parquet)
    pub input: String,
}

/// Arguments for converting CSV files to parquet.
#[derive(Debug, Clone)]
pub struct TableToParquetArgs {
    /// Input CSV file or directory
    pub input: String,
    /// Output directory or file
    pub output: String,
}

/// Arguments for converting parquet files to CSV.
#[derive(Debug, Clone)]
pub struct TableToCsvArgs {
    /// Input parquet file
    pub input: String,
    /// Output directory or file
    pub output: String,
}

} // verus!
