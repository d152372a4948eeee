//! The utility packages by name. Each is an experiment with fixed settings;
//! whether it is installed is told by the directory it installs into.

pub mod coreutils;
pub mod diffutils;
pub mod findutils;

pub use coreutils::RustCoreutils;
pub use diffutils::RustDiffutils;
pub use findutils::RustFindutils;

use vstd::prelude::*;

use crate::experiments::uutils::{UutilsExperiment, UutilsView};
use crate::utils::worker::{event, Event, Reply, Request, System, Worker, WorkerError};

verus! {

/// `events` is the one listing of the package's directory, and `r` says
/// whether the listing succeeded.
pub open spec fn listed(package: UutilsView, events: Seq<Event>, r: bool) -> bool {
    &&& events.len() == 1
    &&& events[0].request == Request::ListFiles(package.bin_directory)
    &&& events[0].reply matches Reply::Files(listing) && r == (listing is Ok)
}

/// `events` are the requests of restoring `package` on a host with
/// `release`, and `r` is how it ended: the package's directory is listed;
/// where that fails, or the package does not support the release, nothing
/// else is requested and the result is success; else the system's own files
/// are restored and then the package is removed.
pub open spec fn package_restored(
    package: UutilsView,
    release: Seq<char>,
    events: Seq<Event>,
    r: Result<(), WorkerError>,
) -> bool {
    &&& events.len() >= 1
    &&& events[0].request == Request::ListFiles(package.bin_directory)
    &&& match events[0].reply {
        Reply::Files(listing) => if listing is Ok && package.compatible(release) {
            package.reverted(events.skip(1), r)
        } else {
            events.len() == 1 && r is Ok
        },
        _ => false,
    }
}

/// Whether the directory of `package` can be listed, which is taken to mean
/// that the package is installed.
pub fn installed<W: Worker>(system: &mut System<'_, W>, package: &UutilsExperiment) -> (r: bool)
    ensures
        final(system).continues(old(system)),
        listed(package@, final(system).since(old(system)), r),
{
    let ghost s0 = *system;
    let listing = system.list_files(package.bin_directory());
    proof {
        system.lemma_follows(
            &s0,
            event(Request::ListFiles(package@.bin_directory), Reply::Files(listing)),
        );
    }
    listing.is_ok()
}

/// Restores the system's own files and removes `package`, if it is
/// installed and supports the host's release.
pub fn restore<W: Worker>(system: &mut System<'_, W>, package: &UutilsExperiment) -> (r: Result<
    (),
    WorkerError,
>)
    ensures
        final(system).continues(old(system)),
        package_restored(
            package@,
            old(system).host().release@,
            final(system).since(old(system)),
            r,
        ),
{
    let ghost s0 = *system;
    let found = installed(system, package);
    let ghost s1 = *system;
    if !found || !package.check_compatible(system) {
        return Ok(());
    }
    let r = package.revert(system);
    proof {
        system.lemma_continues(&s1, &s0);
        assert(system.since(&s0).skip(1) =~= system.since(&s1));
    }
    r
}

} // verus!
