//! Project resolution for SQF packages: locating the package that owns a file,
//! laying out the files a package declares, and folding the per-file analysis
//! results into one index.
//!
//! Everything here works on plain values. Whatever touches the disk, the
//! configuration parser or the analyzer hands its findings in as arguments.

pub mod aggregate;
pub mod aggregate_laws;
pub mod definition;
pub mod diagnostic;
pub mod discovery;
pub mod discovery_laws;
pub mod index;
pub mod package;
pub mod path;
pub mod path_map;
pub mod span;
pub mod stub;
pub mod survey;
pub mod survey_laws;
pub mod symbol;
pub mod table;
pub mod unit;
