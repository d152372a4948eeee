//! Reversible replacement of system utilities by the binaries of other
//! packages.
//!
//! An experiment names a set of utilities and the package whose binaries
//! replace them. Enabling it installs the package and puts a symlink in
//! place of each utility, keeping the file that was there as a backup beside
//! it; disabling it brings the backups back and removes the package. Both
//! can be repeated without harm.
//!
//! The host is reached through the `Worker` trait alone. A `System` hands
//! requests to a worker and keeps their history as ghost state, and the
//! contracts of the experiments say which requests are made, in which order,
//! and how the answers decide the result.

pub mod experiments;
pub mod packages;
pub mod utils;
