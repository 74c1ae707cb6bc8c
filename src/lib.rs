//! Applies BPS delta patches to a source blob, with the patch, source and
//! target each guarded by a CRC32 checksum.
pub mod action;
pub mod bps;
pub mod decode;
pub mod engine;
pub mod errors;
pub mod patcher;
pub mod source;
pub mod target;

pub use action::Action;
pub use errors::Errors;
pub use bps::Bps;
pub use patcher::Patcher;
pub use source::SourceFile;
pub use target::TargetFile;
