//! The experiments: each a set of system utilities with the package whose
//! binaries replace them, and the catalog of those that are known.

pub mod laws;
pub mod selection;
pub mod sudors;
pub mod uutils;

pub use selection::{
    default_experiments, disable_experiments, enable_experiments, incompatible_experiments,
    selected_experiments,
};
pub use sudors::SudoRsExperiment;
pub use uutils::UutilsExperiment;

use vstd::prelude::*;

use crate::experiments::sudors::{
    sudors_disabled, sudors_enabled, sudors_package, sudors_releases,
};
use crate::experiments::uutils::{asked_installed, means_installed, UutilsView};
use crate::utils::text::texts;
use crate::utils::Distribution;
use crate::utils::worker::{event, Event, Reply, Request, System, Worker, WorkerError};

verus! {

/// An experiment of either kind.
#[derive(Debug, Clone)]
pub enum Experiment {
    Uutils(UutilsExperiment),
    SudoRs(SudoRsExperiment),
}

/// What an `Experiment` holds, as text.
pub ghost enum ExperimentView {
    Uutils(UutilsView),
    SudoRs,
}

impl View for Experiment {
    type V = ExperimentView;

    open spec fn view(&self) -> ExperimentView {
        match self {
            Experiment::Uutils(e) => ExperimentView::Uutils(e@),
            Experiment::SudoRs(_) => ExperimentView::SudoRs,
        }
    }
}

/// The views of a sequence of experiments, element by element.
pub open spec fn views(experiments: Seq<Experiment>) -> Seq<ExperimentView> {
    Seq::new(experiments.len(), |i: int| experiments[i]@)
}

impl ExperimentView {
    /// The name by which the experiment is selected.
    pub open spec fn name(self) -> Seq<char> {
        match self {
            ExperimentView::Uutils(e) => e.name,
            ExperimentView::SudoRs => sudors_package(),
        }
    }

    /// The package that the experiment installs.
    pub open spec fn package(self) -> Seq<char> {
        match self {
            ExperimentView::Uutils(e) => e.package,
            ExperimentView::SudoRs => sudors_package(),
        }
    }

    /// The releases that the experiment names as supported: its first
    /// supported release, or the releases it is known to work on.
    pub open spec fn supported_releases(self) -> Seq<Seq<char>> {
        match self {
            ExperimentView::Uutils(e) => seq![e.first_supported_release],
            ExperimentView::SudoRs => sudors_releases(),
        }
    }

    /// Whether the experiment supports a host with `release`: `release` is
    /// not before its first supported release, or is one of the releases it
    /// is known to work on.
    pub open spec fn compatible(self, release: Seq<char>) -> bool {
        match self {
            ExperimentView::Uutils(e) => e.compatible(release),
            ExperimentView::SudoRs => sudors_releases().contains(release),
        }
    }

    /// `events` are the requests of `enable` on a host with `release`, and
    /// `r` is how it ended: none, and success, where the experiment does not
    /// support the release and the check is not bypassed; else the package
    /// is installed and its files are linked.
    pub open spec fn enabled(
        self,
        release: Seq<char>,
        no_compatibility_check: bool,
        events: Seq<Event>,
        r: Result<(), WorkerError>,
    ) -> bool {
        if !no_compatibility_check && !self.compatible(release) {
            events.len() == 0 && r is Ok
        } else {
            match self {
                ExperimentView::Uutils(e) => e.applied(events, r),
                ExperimentView::SudoRs => sudors_enabled(events, r),
            }
        }
    }

    /// `events` are the requests of `disable`, and `r` is how it ended: the
    /// host is asked whether the package is installed; unless it is, nothing
    /// else is requested and the result is success; if it is, the files are
    /// restored and then the package is removed.
    pub open spec fn disabled(self, events: Seq<Event>, r: Result<(), WorkerError>) -> bool {
        &&& events.len() >= 1
        &&& events[0].request == Request::CheckInstalled(self.package())
        &&& match events[0].reply {
            Reply::Installed(reply) => if means_installed(reply) {
                match self {
                    ExperimentView::Uutils(e) => e.reverted(events.skip(1), r),
                    ExperimentView::SudoRs => sudors_disabled(events.skip(1), r),
                }
            } else {
                events.len() == 1 && r is Ok
            },
            _ => false,
        }
    }
}

impl Experiment {
    /// Report the name of the experiment.
    pub fn name(&self) -> (r: String)
        ensures
            r@ == self@.name(),
    {
        match self {
            Experiment::Uutils(uutils) => uutils.name(),
            Experiment::SudoRs(sudors) => sudors.name(),
        }
    }

    /// Enable the experiment, unless the host is not compatible with it and
    /// the check is not bypassed.
    pub fn enable<W: Worker>(
        &self,
        system: &mut System<'_, W>,
        no_compatibility_check: bool,
    ) -> (r: Result<(), WorkerError>)
        ensures
            final(system).continues(old(system)),
            self@.enabled(
                old(system).host().release@,
                no_compatibility_check,
                final(system).since(old(system)),
                r,
            ),
    {
        if !no_compatibility_check && !self.check_compatible(system) {
            proof {
                system.lemma_unchanged();
            }
            return Ok(());
        }
        match self {
            Experiment::Uutils(e) => e.apply(system),
            Experiment::SudoRs(e) => e.enable(system),
        }
    }

    /// Disable the experiment, unless its package is not installed.
    pub fn disable<W: Worker>(&self, system: &mut System<'_, W>) -> (r: Result<(), WorkerError>)
        ensures
            final(system).continues(old(system)),
            self@.disabled(final(system).since(old(system)), r),
    {
        let ghost s0 = *system;
        let installed = self.check_installed(system);
        let ghost s1 = *system;
        if !installed {
            return Ok(());
        }
        let r = match self {
            Experiment::Uutils(e) => e.revert(system),
            Experiment::SudoRs(e) => e.disable(system),
        };
        proof {
            system.lemma_continues(&s1, &s0);
            assert(system.since(&s0).skip(1) =~= system.since(&s1));
        }
        r
    }

    /// Whether the experiment supports `distribution`.
    pub fn is_compatible(&self, distribution: &Distribution) -> (r: bool)
        ensures
            r == self@.compatible(distribution.release@),
    {
        match self {
            Experiment::Uutils(e) => e.is_compatible(distribution),
            Experiment::SudoRs(e) => e.is_compatible(distribution),
        }
    }

    /// Check if the system is compatible with the experiment.
    pub fn check_compatible<W: Worker>(&self, system: &System<'_, W>) -> (r: bool)
        ensures
            r == self@.compatible(system.host().release@),
    {
        self.is_compatible(system.distribution())
    }

    /// Reports the releases that the experiment names as supported.
    pub fn supported_releases(&self) -> (r: Vec<String>)
        ensures
            texts(r@) == self@.supported_releases(),
    {
        match self {
            Experiment::Uutils(e) => e.supported_releases(),
            Experiment::SudoRs(e) => e.supported_releases(),
        }
    }

    /// Check if the package is installed.
    pub fn check_installed<W: Worker>(&self, system: &mut System<'_, W>) -> (r: bool)
        ensures
            final(system).continues(old(system)),
            asked_installed(final(system).since(old(system)), self@.package(), r),
    {
        match self {
            Experiment::Uutils(e) => e.check_installed(system),
            Experiment::SudoRs(e) => e.check_installed(system),
        }
    }
}

/// The catalog of known experiments.
pub open spec fn catalog() -> Seq<ExperimentView> {
    seq![
        ExperimentView::Uutils(
            UutilsView {
                name: "coreutils"@,
                package: "rust-coreutils"@,
                first_supported_release: "24.04"@,
                unified_binary: Some("/usr/bin/coreutils"@),
                bin_directory: "/usr/lib/cargo/bin/coreutils"@,
            },
        ),
        ExperimentView::Uutils(
            UutilsView {
                name: "diffutils"@,
                package: "rust-diffutils"@,
                first_supported_release: "24.10"@,
                unified_binary: Some("/usr/lib/cargo/bin/diffutils/diffutils"@),
                bin_directory: "/usr/lib/cargo/bin/diffutils"@,
            },
        ),
        ExperimentView::Uutils(
            UutilsView {
                name: "findutils"@,
                package: "rust-findutils"@,
                first_supported_release: "24.04"@,
                unified_binary: None,
                bin_directory: "/usr/lib/cargo/bin/findutils"@,
            },
        ),
        ExperimentView::SudoRs,
    ]
}

/// The known experiments, in the order of the catalog.
pub fn all_experiments() -> (r: Vec<Experiment>)
    ensures
        views(r@) == catalog(),
{
    let mut r: Vec<Experiment> = Vec::new();
    r.push(
        Experiment::Uutils(
            UutilsExperiment::new(
                "coreutils",
                "rust-coreutils",
                "24.04",
                Some("/usr/bin/coreutils".to_string()),
                "/usr/lib/cargo/bin/coreutils".to_string(),
            ),
        ),
    );
    r.push(
        Experiment::Uutils(
            UutilsExperiment::new(
                "diffutils",
                "rust-diffutils",
                "24.10",
                Some("/usr/lib/cargo/bin/diffutils/diffutils".to_string()),
                "/usr/lib/cargo/bin/diffutils".to_string(),
            ),
        ),
    );
    r.push(
        Experiment::Uutils(
            UutilsExperiment::new(
                "findutils",
                "rust-findutils",
                "24.04",
                None,
                "/usr/lib/cargo/bin/findutils".to_string(),
            ),
        ),
    );
    r.push(Experiment::SudoRs(SudoRsExperiment::new()));
    assert(views(r@) =~= catalog());
    r
}

} // verus!
