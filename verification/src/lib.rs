//! What the package manager of a host recorded about the files it
//! installed: which package manager the host has, the checksums and the
//! configuration files that it recorded, and whether a file has a diversion.
//!
//! The library decides and parses; it reads nothing itself. Its callers hand
//! it directory listings and file contents as plain values.

pub mod detect;
pub mod diversion;
pub mod metadata;
pub mod records;
pub mod table;
pub mod text;

pub use detect::{determine_package_manager, PackageManager};
pub use diversion::has_diversion;
pub use metadata::{load_conffiles, load_md5s, LoadError, MetadataFile};
pub use table::ChecksumTable;
pub use text::bytes_to_str;
