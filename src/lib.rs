//! Preparation of extraction jobs for a batch archive extractor: grouping of
//! split volumes, validation of their completeness, and recognition and
//! carving of archives hidden behind cover images.
pub mod appinfo;
pub mod config;
pub mod job;
pub mod manager;
pub mod naming;
pub mod order;
pub mod paths;
pub mod signature;
pub mod text;

pub use appinfo::{AppInfo, Edition, Version};
pub use config::{
    CliArgs, Config, DefaultPath, DeferOperation, ExtractConfig, ExtractMethod, GeneralConfig, LogLevel,
    MainCommand, TokenConfig, TokenFilePattern, TokenListStyle, TokenProcess,
};
pub use job::{split_at_offset, CarveError, CarvePlan, ExtractJob, ExtractJobKind};
pub use manager::{needs_head, CarveOutcome, Extractor, SourceFile};
pub use naming::{parse_volume_name, VolumeName};
pub use signature::{scan_cover, CoverScan, StegoError};
