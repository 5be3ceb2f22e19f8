//! Free-space reporting over a machine's mounted filesystems.
//!
//! The crate turns a raw, possibly duplicated list of mount records into a
//! deduplicated, eligible candidate set and answers either an enumeration
//! query (all candidates, deterministically ordered) or a minimum-free-space
//! query (the tightest mount, with a stable tie-break and an optional
//! exclusion list).

pub mod device;
pub mod error;
pub mod ignore;
pub mod normalize;
pub mod order;
pub mod report;
pub mod select;
pub mod strcmp;

pub use device::Device;
pub use error::SpaceError;
pub use ignore::IgnoreList;
