//! Builds the 512-byte Master Boot Record header of a disk image.
//!
//! The core type is [`MasterBootRecord`]: an in-memory model of the classic
//! 4-slot MBR partition table together with a sequential bump allocator that
//! assigns each requested partition a non-overlapping, sector-aligned byte
//! range.  [`Kind`] resolves partition-type names to their one-byte codes and
//! [`Error`] describes the ways a request string can be rejected.

pub mod error;
pub mod kind;
pub mod mbr;

pub use error::Error;
pub use kind::Kind;
pub use mbr::MasterBootRecord;
pub use mbr::PartitionEntry;
