//! Experiments that replace a set of system utilities with the binaries of
//! one package, found by listing the directory the package installs into.

use vstd::prelude::*;

use crate::utils::path::{file_name, file_name_of, final_segment, join, joined};
use crate::utils::text::{le, lex_le, texts};
use crate::utils::Distribution;
use crate::utils::worker::{
    done_in_order, event, lemma_done_failed, lemma_done_then, lemma_plain_success, Event, Reply,
    Request, System, Worker, WorkerError,
};

verus! {

/// The directory in which the system keeps the utilities that are replaced.
pub open spec fn system_directory() -> Seq<char> {
    "/usr/bin"@
}

/// The system path of the utility called `name`.
pub open spec fn system_path(name: Seq<char>) -> Seq<char> {
    system_directory() + seq!['/'] + name
}

/// Every path in `files` has a file name.
pub open spec fn all_named(files: Seq<Seq<char>>) -> bool {
    forall|i: int| 0 <= i < files.len() ==> file_name_of(#[trigger] files[i]) is Some
}

/// `files[i]` is the first path in `files` without a file name.
pub open spec fn first_unnamed(files: Seq<Seq<char>>, i: int) -> bool {
    &&& 0 <= i < files.len()
    &&& file_name_of(files[i]) is None
    &&& all_named(files.take(i))
}

/// The first path in `files` without a file name, if there is one.
pub open spec fn unnamed(files: Seq<Seq<char>>) -> Option<Seq<char>> {
    if all_named(files) {
        None
    } else {
        Some(files[choose|i: int| first_unnamed(files, i)])
    }
}

/// At most one path is the first without a file name.
pub proof fn lemma_first_unnamed(files: Seq<Seq<char>>, i: int)
    requires
        first_unnamed(files, i),
    ensures
        unnamed(files) == Some(files[i]),
{
    assert forall|k: int| #[trigger] first_unnamed(files, k) implies k == i by {
        if k < i {
            assert(files.take(i)[k] == files[k]);
        }
        if k > i {
            assert(files.take(k)[i] == files[i]);
        }
    }
}

/// The system paths of the utilities that `files` stand for.
pub open spec fn targets_of(files: Seq<Seq<char>>) -> Seq<Seq<char>> {
    Seq::new(files.len(), |i: int| system_path(final_segment(files[i])))
}

/// One request to restore each of `targets`, in order.
pub open spec fn restore_requests(targets: Seq<Seq<char>>) -> Seq<Request> {
    Seq::new(targets.len(), |i: int| Request::RestoreFile(targets[i]))
}

/// One request to replace each target by a link to its source, in order.
pub open spec fn replace_requests(
    sources: Seq<Seq<char>>,
    targets: Seq<Seq<char>>,
) -> Seq<Request> {
    Seq::new(targets.len(), |i: int| Request::ReplaceFileWithSymlink(sources[i], targets[i]))
}

/// Whether a reply to the question "is the package installed" means yes.
pub open spec fn means_installed(reply: Result<bool, WorkerError>) -> bool {
    reply == Ok::<bool, WorkerError>(true)
}

/// `events` is the one question whether `package` is installed, and `r`
/// says whether the answer means yes.
pub open spec fn asked_installed(events: Seq<Event>, package: Seq<char>, r: bool) -> bool {
    &&& events.len() == 1
    &&& events[0].request == Request::CheckInstalled(package)
    &&& events[0].reply matches Reply::Installed(reply) && r == means_installed(reply)
}

/// The system path of the utility that the file at `path` stands for.
pub fn system_path_of(path: &str) -> (r: Result<String, WorkerError>)
    ensures
        match file_name_of(path@) {
            Some(name) => r matches Ok(target) && target@ == system_path(name),
            None => r matches Err(WorkerError::NoFileName { path: p }) && p@ == path@,
        },
{
    match file_name(path) {
        Some(name) => {
            proof {
                reveal_strlit("/usr/bin");
            }
            Ok(join("/usr/bin", name.as_str()))
        },
        None => Err(WorkerError::NoFileName { path: path.to_string() }),
    }
}

/// The system paths of the utilities that `files` stand for, or the first
/// of `files` that has no file name.
pub fn system_paths(files: &Vec<String>) -> (r: Result<Vec<String>, WorkerError>)
    ensures
        match unnamed(texts(files@)) {
            None => r matches Ok(targets) && texts(targets@) == targets_of(texts(files@)),
            Some(nameless) => r matches Err(WorkerError::NoFileName { path }) && path@
                == nameless,
        },
{
    let ghost paths = texts(files@);
    let mut targets: Vec<String> = Vec::new();
    let mut i: usize = 0;
    while i < files.len()
        invariant
            i <= files.len(),
            paths == texts(files@),
            all_named(paths.take(i as int)),
            targets@.len() == i,
            forall|j: int|
                0 <= j < i ==> (#[trigger] targets@[j])@ == system_path(final_segment(paths[j])),
        decreases files.len() - i,
    {
        match system_path_of(files[i].as_str()) {
            Ok(target) => {
                targets.push(target);
            },
            Err(e) => {
                proof {
                    lemma_first_unnamed(paths, i as int);
                }
                return Err(e);
            },
        }
        proof {
            assert forall|j: int| 0 <= j < i + 1 implies file_name_of(
                #[trigger] paths.take(i + 1)[j],
            ) is Some by {
                if j < i {
                    assert(paths.take(i as int)[j] == paths[j]);
                }
            }
        }
        i = i + 1;
    }
    proof {
        assert(paths.take(i as int) =~= paths);
        assert(texts(targets@) =~= targets_of(paths));
    }
    Ok(targets)
}

/// An experiment to install and configure a Rust-based replacement for a system utility.
#[derive(Debug, Clone)]
pub struct UutilsExperiment {
    name: String,
    package: String,
    first_supported_release: String,
    unified_binary: Option<String>,
    bin_directory: String,
}

/// What a `UutilsExperiment` holds, as text.
pub ghost struct UutilsView {
    pub name: Seq<char>,
    pub package: Seq<char>,
    pub first_supported_release: Seq<char>,
    pub unified_binary: Option<Seq<char>>,
    pub bin_directory: Seq<char>,
}

impl View for UutilsExperiment {
    type V = UutilsView;

    closed spec fn view(&self) -> UutilsView {
        UutilsView {
            name: self.name@,
            package: self.package@,
            first_supported_release: self.first_supported_release@,
            unified_binary: match self.unified_binary {
                Some(path) => Some(path@),
                None => None,
            },
            bin_directory: self.bin_directory@,
        }
    }
}

impl UutilsView {
    /// The experiment runs on a release that is not before its first
    /// supported release, in dictionary order.
    pub open spec fn compatible(self, release: Seq<char>) -> bool {
        lex_le(self.first_supported_release, release)
    }

    /// What the system path of a utility is linked to: the unified binary
    /// where the experiment has one, else the file of the package itself.
    pub open spec fn source_of(self, file: Seq<char>) -> Seq<char> {
        match self.unified_binary {
            Some(binary) => binary,
            None => file,
        }
    }

    /// The link sources for `files`, in order.
    pub open spec fn sources_of(self, files: Seq<Seq<char>>) -> Seq<Seq<char>> {
        Seq::new(files.len(), |i: int| self.source_of(files[i]))
    }

    /// `events` are the requests that install the package and link its
    /// files, and `r` is how that ended: the package is installed, its
    /// directory is listed, and each system path is replaced in the order of
    /// the listing. The first failure ends it; a listed path without a file
    /// name fails before anything is replaced.
    pub open spec fn applied(self, events: Seq<Event>, r: Result<(), WorkerError>) -> bool {
        &&& events.len() >= 1
        &&& events[0].request == Request::InstallPackage(self.package)
        &&& match events[0].reply {
            Reply::Done(Err(e)) => events.len() == 1 && r == Err::<(), WorkerError>(e),
            Reply::Done(Ok(_)) => {
                &&& events.len() >= 2
                &&& events[1].request == Request::ListFiles(self.bin_directory)
                &&& match events[1].reply {
                    Reply::Files(Err(e)) => events.len() == 2 && r == Err::<(), WorkerError>(e),
                    Reply::Files(Ok(files)) => {
                        let paths = texts(files@);
                        match unnamed(paths) {
                            None => done_in_order(
                                events.skip(2),
                                replace_requests(self.sources_of(paths), targets_of(paths)),
                                r,
                            ),
                            Some(nameless) => {
                                &&& events.len() == 2
                                &&& r matches Err(WorkerError::NoFileName { path }) && path@
                                    == nameless
                            },
                        }
                    },
                    _ => false,
                }
            },
            _ => false,
        }
    }

    /// `events` are the requests of `enable` on a host with `release`: none
    /// where the experiment does not support the release, else those of
    /// `applied`.
    pub open spec fn enabled(
        self,
        release: Seq<char>,
        events: Seq<Event>,
        r: Result<(), WorkerError>,
    ) -> bool {
        if self.compatible(release) {
            self.applied(events, r)
        } else {
            events.len() == 0 && r is Ok
        }
    }

    /// `events` are the requests that restore the system's own files and
    /// remove the package, and `r` is how that ended: the package's
    /// directory is listed, each system path is restored in the order of the
    /// listing, and only then is the package removed. The first failure ends
    /// it; a listed path without a file name fails before anything is
    /// restored.
    pub open spec fn reverted(self, events: Seq<Event>, r: Result<(), WorkerError>) -> bool {
        &&& events.len() >= 1
        &&& events[0].request == Request::ListFiles(self.bin_directory)
        &&& match events[0].reply {
            Reply::Files(Err(e)) => events.len() == 1 && r == Err::<(), WorkerError>(e),
            Reply::Files(Ok(files)) => {
                let paths = texts(files@);
                match unnamed(paths) {
                    None => done_in_order(
                        events.skip(1),
                        restore_requests(targets_of(paths)).push(
                            Request::RemovePackage(self.package),
                        ),
                        r,
                    ),
                    Some(nameless) => {
                        &&& events.len() == 1
                        &&& r matches Err(WorkerError::NoFileName { path }) && path@ == nameless
                    },
                }
            },
            _ => false,
        }
    }

    /// `events` are the requests of `disable`: the host is asked whether the
    /// package is installed; unless it is, nothing else is requested; if it
    /// is, the requests of `reverted` follow.
    pub open spec fn disabled(self, events: Seq<Event>, r: Result<(), WorkerError>) -> bool {
        &&& events.len() >= 1
        &&& events[0].request == Request::CheckInstalled(self.package)
        &&& match events[0].reply {
            Reply::Installed(reply) => if means_installed(reply) {
                self.reverted(events.skip(1), r)
            } else {
                events.len() == 1 && r is Ok
            },
            _ => false,
        }
    }
}

/// Has the host replace each of `targets` by a link to the source at the
/// same position, in order, up to the first failure.
fn replace_each<W: Worker>(
    system: &mut System<'_, W>,
    sources: &Vec<String>,
    targets: &Vec<String>,
) -> (r: Result<(), WorkerError>)
    requires
        sources.len() == targets.len(),
    ensures
        final(system).continues(old(system)),
        done_in_order(
            final(system).since(old(system)),
            replace_requests(texts(sources@), texts(targets@)),
            r,
        ),
{
    let ghost requests = replace_requests(texts(sources@), texts(targets@));
    let ghost before = system.history();
    let ghost mut done = Seq::<Event>::empty();
    let mut i: usize = 0;
    assert(system.history() =~= before + done);
    while i < targets.len()
        invariant
            i <= targets.len(),
            sources.len() == targets.len(),
            before == old(system).history(),
            system.host() == old(system).host(),
            system.worker() == old(system).worker(),
            requests == replace_requests(texts(sources@), texts(targets@)),
            system.history() == before + done,
            system.all_answered(done),
            done.len() == i,
            forall|j: int|
                0 <= j < i ==> #[trigger] done[j] == event(requests[j], Reply::Done(Ok(()))),
        decreases targets.len() - i,
    {
        let r = system.replace_file_with_symlink(sources[i].as_str(), targets[i].as_str());
        proof {
            done = done.push(event(requests[i as int], Reply::Done(r)));
            assert(system.history() =~= before + done);
            assert(system.history().skip(before.len() as int) =~= done);
        }
        if r.is_err() {
            return r;
        }
        proof {
            lemma_plain_success(r);
        }
        i = i + 1;
    }
    assert(system.history().skip(before.len() as int) =~= done);
    Ok(())
}

/// Has the host restore each of `targets`, in order, up to the first
/// failure.
fn restore_each<W: Worker>(system: &mut System<'_, W>, targets: &Vec<String>) -> (r: Result<
    (),
    WorkerError,
>)
    ensures
        final(system).continues(old(system)),
        done_in_order(
            final(system).since(old(system)),
            restore_requests(texts(targets@)),
            r,
        ),
{
    let ghost requests = restore_requests(texts(targets@));
    let ghost before = system.history();
    let ghost mut done = Seq::<Event>::empty();
    let mut i: usize = 0;
    assert(system.history() =~= before + done);
    while i < targets.len()
        invariant
            i <= targets.len(),
            before == old(system).history(),
            system.host() == old(system).host(),
            system.worker() == old(system).worker(),
            requests == restore_requests(texts(targets@)),
            system.history() == before + done,
            system.all_answered(done),
            done.len() == i,
            forall|j: int|
                0 <= j < i ==> #[trigger] done[j] == event(requests[j], Reply::Done(Ok(()))),
        decreases targets.len() - i,
    {
        let r = system.restore_file(targets[i].as_str());
        proof {
            done = done.push(event(requests[i as int], Reply::Done(r)));
            assert(system.history() =~= before + done);
            assert(system.history().skip(before.len() as int) =~= done);
        }
        if r.is_err() {
            return r;
        }
        proof {
            lemma_plain_success(r);
        }
        i = i + 1;
    }
    assert(system.history().skip(before.len() as int) =~= done);
    Ok(())
}

impl UutilsExperiment {
    /// Create a new UutilsExperiment.
    pub fn new(
        name: &str,
        package: &str,
        first_supported_release: &str,
        unified_binary: Option<String>,
        bin_directory: String,
    ) -> (r: Self)
        ensures
            r@ == (UutilsView {
                name: name@,
                package: package@,
                first_supported_release: first_supported_release@,
                unified_binary: match unified_binary {
                    Some(path) => Some(path@),
                    None => None,
                },
                bin_directory: bin_directory@,
            }),
    {
        Self {
            name: name.to_string(),
            package: package.to_string(),
            first_supported_release: first_supported_release.to_string(),
            unified_binary,
            bin_directory,
        }
    }

    /// Report the name of the experiment.
    pub fn name(&self) -> (r: String)
        ensures
            r@ == self@.name,
    {
        self.name.clone()
    }

    /// The directory into which the package installs its binaries.
    pub fn bin_directory(&self) -> (r: &str)
        ensures
            r@ == self@.bin_directory,
    {
        self.bin_directory.as_str()
    }

    /// The package that the experiment installs.
    pub fn package(&self) -> (r: &str)
        ensures
            r@ == self@.package,
    {
        self.package.as_str()
    }

    /// Reports the first supported release for the experiment.
    pub fn supported_releases(&self) -> (r: Vec<String>)
        ensures
            texts(r@) == seq![self@.first_supported_release],
    {
        let mut r: Vec<String> = Vec::new();
        r.push(self.first_supported_release.clone());
        assert(texts(r@) =~= seq![self@.first_supported_release]);
        r
    }

    /// Whether the experiment supports `distribution`: whether its release
    /// is not before the first supported release, in dictionary order.
    pub fn is_compatible(&self, distribution: &Distribution) -> (r: bool)
        ensures
            r == self@.compatible(distribution.release@),
    {
        le(self.first_supported_release.as_str(), distribution.release.as_str())
    }

    /// Check if the system is compatible with the experiment.
    pub fn check_compatible<W: Worker>(&self, system: &System<'_, W>) -> (r: bool)
        ensures
            r == self@.compatible(system.host().release@),
    {
        self.is_compatible(system.distribution())
    }

    /// Check if the package is installed.
    pub fn check_installed<W: Worker>(&self, system: &mut System<'_, W>) -> (r: bool)
        ensures
            final(system).continues(old(system)),
            asked_installed(final(system).since(old(system)), self@.package, r),
    {
        let ghost s0 = *system;
        let reply = system.check_installed(self.package.as_str());
        proof {
            system.lemma_follows(
                &s0,
                event(Request::CheckInstalled(self@.package), Reply::Installed(reply)),
            );
        }
        match reply {
            Ok(installed) => installed,
            Err(_) => false,
        }
    }

    /// The link sources for `files`, in order: the unified binary where the
    /// experiment has one, else each file itself.
    pub fn sources(&self, files: &Vec<String>) -> (r: Vec<String>)
        ensures
            texts(r@) == self@.sources_of(texts(files@)),
    {
        let mut sources: Vec<String> = Vec::new();
        let mut i: usize = 0;
        while i < files.len()
            invariant
                i <= files.len(),
                sources@.len() == i,
                forall|j: int|
                    0 <= j < i ==> (#[trigger] sources@[j])@ == self@.source_of(files@[j]@),
            decreases files.len() - i,
        {
            let source = match &self.unified_binary {
                Some(binary) => binary.clone(),
                None => files[i].clone(),
            };
            sources.push(source);
            i = i + 1;
        }
        assert(texts(sources@) =~= self@.sources_of(texts(files@)));
        sources
    }

    /// Installs the package and links its files, whatever the release of the
    /// host.
    pub fn apply<W: Worker>(&self, system: &mut System<'_, W>) -> (r: Result<(), WorkerError>)
        ensures
            final(system).continues(old(system)),
            self@.applied(final(system).since(old(system)), r),
    {
        let ghost s0 = *system;
        let installed = system.install_package(self.package.as_str());
        let ghost s1 = *system;
        proof {
            s1.lemma_follows(
                &s0,
                event(Request::InstallPackage(self@.package), Reply::Done(installed)),
            );
        }
        if installed.is_err() {
            return installed;
        }
        let listing = system.list_files(self.bin_directory.as_str());
        let ghost s2 = *system;
        proof {
            s2.lemma_follows(
                &s1,
                event(Request::ListFiles(self@.bin_directory), Reply::Files(listing)),
            );
            s2.lemma_continues(&s1, &s0);
        }
        let files = match listing {
            Ok(files) => files,
            Err(e) => {
                return Err(e);
            },
        };
        let targets = match system_paths(&files) {
            Ok(targets) => targets,
            Err(e) => {
                return Err(e);
            },
        };
        let sources = self.sources(&files);
        assert(sources.len() == targets.len()) by {
            assert(texts(sources@).len() == sources.len());
            assert(texts(targets@).len() == targets.len());
        }
        let r = replace_each(system, &sources, &targets);
        proof {
            system.lemma_continues(&s2, &s0);
            assert(system.since(&s0).skip(2) =~= system.since(&s2));
        }
        r
    }

    /// Restores the system's own files and removes the package, whether or
    /// not the package is installed.
    pub fn revert<W: Worker>(&self, system: &mut System<'_, W>) -> (r: Result<(), WorkerError>)
        ensures
            final(system).continues(old(system)),
            self@.reverted(final(system).since(old(system)), r),
    {
        let ghost s0 = *system;
        let listing = system.list_files(self.bin_directory.as_str());
        let ghost s1 = *system;
        proof {
            s1.lemma_follows(
                &s0,
                event(Request::ListFiles(self@.bin_directory), Reply::Files(listing)),
            );
        }
        let files = match listing {
            Ok(files) => files,
            Err(e) => {
                return Err(e);
            },
        };
        let targets = match system_paths(&files) {
            Ok(targets) => targets,
            Err(e) => {
                return Err(e);
            },
        };
        let ghost requests = restore_requests(texts(targets@)).push(
            Request::RemovePackage(self@.package),
        );
        let restored = restore_each(system, &targets);
        let ghost s2 = *system;
        proof {
            s2.lemma_continues(&s1, &s0);
            assert(s2.since(&s0).skip(1) =~= s2.since(&s1));
        }
        if restored.is_err() {
            proof {
                lemma_done_failed(
                    s2.since(&s1),
                    restore_requests(texts(targets@)),
                    seq![Request::RemovePackage(self@.package)],
                    restored,
                );
                assert(requests =~= restore_requests(texts(targets@)) + seq![
                    Request::RemovePackage(self@.package),
                ]);
            }
            return restored;
        }
        let r = system.remove_package(self.package.as_str());
        proof {
            let removal = event(Request::RemovePackage(self@.package), Reply::Done(r));
            system.lemma_follows(&s2, removal);
            system.lemma_continues(&s2, &s0);
            let tail = s2.since(&s1).push(removal);
            assert(system.since(&s0).skip(1) =~= tail);
            lemma_plain_success(restored);
            lemma_done_then(
                s2.since(&s1),
                restore_requests(texts(targets@)),
                Request::RemovePackage(self@.package),
                r,
            );
        }
        r
    }

    /// Enable the experiment by installing and configuring the package.
    pub fn enable<W: Worker>(&self, system: &mut System<'_, W>) -> (r: Result<(), WorkerError>)
        ensures
            final(system).continues(old(system)),
            self@.enabled(old(system).host().release@, final(system).since(old(system)), r),
    {
        if !self.check_compatible(system) {
            proof {
                system.lemma_unchanged();
            }
            return Ok(());
        }
        self.apply(system)
    }

    /// Disable the experiment by restoring the files of the system and removing the package.
    pub fn disable<W: Worker>(&self, system: &mut System<'_, W>) -> (r: Result<(), WorkerError>)
        ensures
            final(system).continues(old(system)),
            self@.disabled(final(system).since(old(system)), r),
    {
        let ghost s0 = *system;
        let installed = self.check_installed(system);
        let ghost s1 = *system;
        if !installed {
            return Ok(());
        }
        let r = self.revert(system);
        proof {
            system.lemma_continues(&s1, &s0);
            assert(system.since(&s0).skip(1) =~= system.since(&s1));
        }
        r
    }
}

} // verus!
