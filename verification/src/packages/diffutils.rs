//! The package `rust-diffutils`.

use vstd::prelude::*;

use crate::experiments::uutils::{UutilsExperiment, UutilsView};
use crate::packages::{installed, listed, package_restored, restore};
use crate::utils::worker::{System, Worker, WorkerError};

verus! {

/// The settings of `rust-diffutils`: each utility is a link to its own file in the package.
pub open spec fn rust_diffutils() -> UutilsView {
    UutilsView {
        name: "diffutils"@,
        package: "rust-diffutils"@,
        first_supported_release: "24.10"@,
        unified_binary: None,
        bin_directory: "/usr/lib/cargo/bin/diffutils"@,
    }
}

pub struct RustDiffutils {}

impl RustDiffutils {
    /// The package as an experiment.
    pub fn experiment() -> (r: UutilsExperiment)
        ensures
            r@ == rust_diffutils(),
    {
        UutilsExperiment::new(
            "diffutils",
            "rust-diffutils",
            "24.10",
            None,
            "/usr/lib/cargo/bin/diffutils".to_string(),
        )
    }

    /// Installs the package and links its files into the system, unless the
    /// host's release is before the first that the package supports.
    pub fn install<W: Worker>(system: &mut System<'_, W>) -> (r: Result<(), WorkerError>)
        ensures
            final(system).continues(old(system)),
            rust_diffutils().enabled(
                old(system).host().release@,
                final(system).since(old(system)),
                r,
            ),
    {
        Self::experiment().enable(system)
    }

    /// Restores the system's own files and removes the package, if it is
    /// installed and supports the host's release.
    pub fn restore<W: Worker>(system: &mut System<'_, W>) -> (r: Result<(), WorkerError>)
        ensures
            final(system).continues(old(system)),
            package_restored(
                rust_diffutils(),
                old(system).host().release@,
                final(system).since(old(system)),
                r,
            ),
    {
        restore(system, &Self::experiment())
    }

    /// Whether the package is installed: whether its directory can be listed.
    pub fn installed<W: Worker>(system: &mut System<'_, W>) -> (r: bool)
        ensures
            final(system).continues(old(system)),
            listed(rust_diffutils(), final(system).since(old(system)), r),
    {
        installed(system, &Self::experiment())
    }

    /// Whether the host's release is not before the first that the package
    /// supports.
    pub fn compatible<W: Worker>(system: &System<'_, W>) -> (r: bool)
        ensures
            r == rust_diffutils().compatible(system.host().release@),
    {
        Self::experiment().check_compatible(system)
    }
}

} // verus!
