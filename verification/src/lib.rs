//! A single-file store for variable-length binary blobs.
//!
//! The file is a fixed header followed by equally sized pages. A blob is a
//! chain of pages; released pages are kept on an intrusive free list and
//! reused. The library works on the file's image, held in memory as bytes,
//! and every operation is stated over that image.

mod bytes;
pub mod codec;
pub mod config;
pub mod error;
pub mod file;
pub mod frame;
pub mod image;
pub mod laws;
pub mod shape;
pub mod store;
pub mod writing;

pub use codec::PageHeader;
pub use config::Config;
pub use error::{Error, IoFailure};
pub use file::File;
