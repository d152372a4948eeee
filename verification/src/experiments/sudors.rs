//! The experiment that replaces `sudo`, `su` and `visudo` with those of
//! sudo-rs. Its files are a fixed list; each is linked where the host finds
//! the utility of that name.

use vstd::prelude::*;

use crate::experiments::uutils::{asked_installed, means_installed, system_path};
use crate::utils::path::join;
use crate::utils::text::texts;
use crate::utils::Distribution;
use crate::utils::worker::{
    event, lemma_plain_success, Event, Reply, Request, System, Worker, WorkerError,
};

verus! {

/// The package of the experiment, which is also its name.
pub open spec fn sudors_package() -> Seq<char> {
    "sudo-rs"@
}

/// The directory into which the package installs its binaries.
pub open spec fn sudors_directory() -> Seq<char> {
    "/usr/lib/cargo/bin"@
}

/// The utilities that the experiment replaces.
pub open spec fn sudors_names() -> Seq<Seq<char>> {
    seq!["su"@, "sudo"@, "visudo"@]
}

/// The file of the package for the utility called `name`.
pub open spec fn sudors_file(name: Seq<char>) -> Seq<char> {
    sudors_directory() + seq!['/'] + name
}

/// The files of the package that stand in for system utilities.
pub open spec fn sudors_paths() -> Seq<Seq<char>> {
    Seq::new(sudors_names().len(), |i: int| sudors_file(sudors_names()[i]))
}

/// The releases that the experiment supports.
pub open spec fn sudors_releases() -> Seq<Seq<char>> {
    seq!["24.04"@, "24.10"@, "25.04"@]
}

/// The files of the package, and the places of the utilities in the system
/// directory, written out.
pub proof fn lemma_sudors_paths()
    ensures
        sudors_paths() == seq![
            "/usr/lib/cargo/bin/su"@,
            "/usr/lib/cargo/bin/sudo"@,
            "/usr/lib/cargo/bin/visudo"@,
        ],
        system_path("su"@) == "/usr/bin/su"@,
        system_path("sudo"@) == "/usr/bin/sudo"@,
        system_path("visudo"@) == "/usr/bin/visudo"@,
{
    reveal_strlit("/usr/lib/cargo/bin");
    reveal_strlit("/usr/bin");
    reveal_strlit("su");
    reveal_strlit("sudo");
    reveal_strlit("visudo");
    reveal_strlit("/usr/lib/cargo/bin/su");
    reveal_strlit("/usr/lib/cargo/bin/sudo");
    reveal_strlit("/usr/lib/cargo/bin/visudo");
    reveal_strlit("/usr/bin/su");
    reveal_strlit("/usr/bin/sudo");
    reveal_strlit("/usr/bin/visudo");
    assert(sudors_file("su"@) =~= "/usr/lib/cargo/bin/su"@);
    assert(sudors_file("sudo"@) =~= "/usr/lib/cargo/bin/sudo"@);
    assert(sudors_file("visudo"@) =~= "/usr/lib/cargo/bin/visudo"@);
    assert(system_path("su"@) =~= "/usr/bin/su"@);
    assert(system_path("sudo"@) =~= "/usr/bin/sudo"@);
    assert(system_path("visudo"@) =~= "/usr/bin/visudo"@);
    assert(sudors_paths() =~= seq![
        "/usr/lib/cargo/bin/su"@,
        "/usr/lib/cargo/bin/sudo"@,
        "/usr/lib/cargo/bin/visudo"@,
    ]);
}

/// Where the utility called `name` is on the host: where the host found it
/// on its search path, else its place in the system directory.
pub open spec fn existing_path(name: Seq<char>, found: Result<String, WorkerError>) -> Seq<char> {
    match found {
        Ok(path) => path@,
        Err(_) => system_path(name),
    }
}

/// What is asked for the utility at `target`: with `link` its replacement
/// by a link to the package's file for `name`, else its restoration.
pub open spec fn utility_request(link: bool, name: Seq<char>, target: Seq<char>) -> Request {
    if link {
        Request::ReplaceFileWithSymlink(sudors_file(name), target)
    } else {
        Request::RestoreFile(target)
    }
}

/// The question where the `i`-th utility is, as `events` records it.
pub open spec fn question(events: Seq<Event>, i: int) -> Event {
    events[2 * i]
}

/// The request made for the `i`-th utility, as `events` records it.
pub open spec fn action(events: Seq<Event>, i: int) -> Event {
    events[2 * i + 1]
}

/// For each of `names` in order the host was asked where the utility is and
/// then to link or restore it there, up to the first such request that
/// failed, if any. `r` is that failure, or success if all were made.
pub open spec fn located_in_order(
    events: Seq<Event>,
    names: Seq<Seq<char>>,
    link: bool,
    r: Result<(), WorkerError>,
) -> bool {
    &&& events.len() <= 2 * names.len()
    &&& events.len() % 2 == 0
    &&& forall|i: int|
        0 <= i < events.len() / 2 ==> {
            &&& (#[trigger] question(events, i)).request == Request::Which(names[i])
            &&& question(events, i).reply matches Reply::Path(found) && action(events, i).request
                == utility_request(link, names[i], existing_path(names[i], found))
        }
    &&& forall|i: int|
        0 <= i < events.len() / 2 - 1 ==> (#[trigger] action(events, i)).reply == Reply::Done(
            Ok(()),
        )
    &&& match r {
        Ok(_) => events.len() == 2 * names.len() && (events.len() > 0 ==> events.last().reply
            == Reply::Done(Ok(()))),
        Err(e) => events.len() > 0 && events.last().reply == Reply::Done(Err(e)),
    }
}

/// `events` are the requests of `enable`, and `r` is how it ended: the
/// package is installed, then each of the three utilities is located and
/// replaced by a link to the package's file. The first failure ends it.
pub open spec fn sudors_enabled(events: Seq<Event>, r: Result<(), WorkerError>) -> bool {
    &&& events.len() >= 1
    &&& events[0].request == Request::InstallPackage(sudors_package())
    &&& match events[0].reply {
        Reply::Done(Err(e)) => events.len() == 1 && r == Err::<(), WorkerError>(e),
        Reply::Done(Ok(_)) => located_in_order(events.skip(1), sudors_names(), true, r),
        _ => false,
    }
}

/// `events` are the requests of `disable`, and `r` is how it ended: each of
/// the three utilities is located and restored, and only then is the
/// package removed. The first failure ends it.
pub open spec fn sudors_disabled(events: Seq<Event>, r: Result<(), WorkerError>) -> bool {
    ||| r is Err && located_in_order(events, sudors_names(), false, r)
    ||| {
        &&& events.len() == 2 * sudors_names().len() + 1
        &&& located_in_order(events.drop_last(), sudors_names(), false, Ok(()))
        &&& events.last() == event(Request::RemovePackage(sudors_package()), Reply::Done(r))
    }
}

/// An experiment to install and configure sudo-rs as a replacement for sudo.
#[derive(Debug, Clone)]
pub struct SudoRsExperiment {}

impl SudoRsExperiment {
    /// Create a new SudoRsExperiment.
    pub fn new() -> Self {
        Self {}
    }

    /// Reports the supported releases for the experiment.
    pub fn supported_releases(&self) -> (r: Vec<String>)
        ensures
            texts(r@) == sudors_releases(),
    {
        let mut r: Vec<String> = Vec::new();
        r.push("24.04".to_string());
        r.push("24.10".to_string());
        r.push("25.04".to_string());
        assert(texts(r@) =~= sudors_releases());
        r
    }

    /// Whether the experiment supports `distribution`: whether its release
    /// is one of the supported releases.
    pub fn is_compatible(&self, distribution: &Distribution) -> (r: bool)
        ensures
            r == sudors_releases().contains(distribution.release@),
    {
        let releases = self.supported_releases();
        let mut i: usize = 0;
        while i < releases.len()
            invariant
                i <= releases.len(),
                texts(releases@) == sudors_releases(),
                forall|j: int| 0 <= j < i ==> sudors_releases()[j] != distribution.release@,
            decreases releases.len() - i,
        {
            assert(texts(releases@)[i as int] == releases@[i as int]@);
            if releases[i] == distribution.release {
                return true;
            }
            i = i + 1;
        }
        false
    }

    /// Check if the system is compatible with the experiment.
    pub fn check_compatible<W: Worker>(&self, system: &System<'_, W>) -> (r: bool)
        ensures
            r == sudors_releases().contains(system.host().release@),
    {
        self.is_compatible(system.distribution())
    }

    /// Check if the package is installed.
    pub fn check_installed<W: Worker>(&self, system: &mut System<'_, W>) -> (r: bool)
        ensures
            final(system).continues(old(system)),
            asked_installed(final(system).since(old(system)), sudors_package(), r),
    {
        let ghost s0 = *system;
        let reply = system.check_installed("sudo-rs");
        proof {
            system.lemma_follows(
                &s0,
                event(Request::CheckInstalled(sudors_package()), Reply::Installed(reply)),
            );
        }
        match reply {
            Ok(installed) => installed,
            Err(_) => false,
        }
    }

    /// Report the name of the experiment.
    pub fn name(&self) -> (r: String)
        ensures
            r@ == sudors_package(),
    {
        "sudo-rs".to_string()
    }

    /// The names of the utilities that the experiment replaces.
    pub fn sudors_utilities() -> (r: Vec<String>)
        ensures
            texts(r@) == sudors_names(),
    {
        let mut r: Vec<String> = Vec::new();
        r.push("su".to_string());
        r.push("sudo".to_string());
        r.push("visudo".to_string());
        assert(texts(r@) =~= sudors_names());
        r
    }

    /// List of files from the package to replace system equivalents with.
    pub fn sudors_files() -> (r: Vec<String>)
        ensures
            texts(r@) == sudors_paths(),
    {
        let names = Self::sudors_utilities();
        let mut r: Vec<String> = Vec::new();
        let mut i: usize = 0;
        while i < names.len()
            invariant
                i <= names.len(),
                texts(names@) == sudors_names(),
                r@.len() == i,
                forall|j: int| 0 <= j < i ==> (#[trigger] r@[j])@ == sudors_file(sudors_names()[j]),
            decreases names.len() - i,
        {
            assert(texts(names@)[i as int] == names@[i as int]@);
            proof {
                reveal_strlit("/usr/lib/cargo/bin");
            }
            r.push(join("/usr/lib/cargo/bin", names[i].as_str()));
            i = i + 1;
        }
        assert(texts(names@).len() == names.len());
        assert(texts(r@) =~= sudors_paths());
        r
    }

    /// Where the utility called `name` is on the host, given what the host
    /// answered when asked to find it.
    pub fn existing(name: &str, found: Result<String, WorkerError>) -> (r: String)
        ensures
            r@ == existing_path(name@, found),
    {
        match found {
            Ok(path) => path,
            Err(_) => {
                proof {
                    reveal_strlit("/usr/bin");
                }
                join("/usr/bin", name)
            },
        }
    }

    /// Locates each utility and links or restores it, in order, up to the
    /// first failure.
    fn each_utility<W: Worker>(system: &mut System<'_, W>, link: bool) -> (r: Result<
        (),
        WorkerError,
    >)
        ensures
            final(system).continues(old(system)),
            located_in_order(final(system).since(old(system)), sudors_names(), link, r),
    {
        let names = Self::sudors_utilities();
        let ghost s0 = *system;
        let ghost mut done = Seq::<Event>::empty();
        let mut i: usize = 0;
        assert(system.history() =~= s0.history() + done);
        while i < names.len()
            invariant
                i <= names.len(),
                texts(names@) == sudors_names(),
                s0 == *old(system),
                system.host() == s0.host(),
                system.worker() == s0.worker(),
                system.history() == s0.history() + done,
                system.all_answered(done),
                done.len() == 2 * i,
                located_in_order(done, sudors_names().take(i as int), link, Ok(())),
            decreases names.len() - i,
        {
            assert(texts(names@)[i as int] == names@[i as int]@);
            let ghost name = sudors_names()[i as int];
            let name_ref = names[i].as_str();
            let found = system.which(name_ref);
            let ghost asked = event(Request::Which(name), Reply::Path(found));
            let target = Self::existing(name_ref, found);
            let r = if link {
                proof {
                    reveal_strlit("/usr/lib/cargo/bin");
                }
                let source = join("/usr/lib/cargo/bin", name_ref);
                system.replace_file_with_symlink(source.as_str(), target.as_str())
            } else {
                system.restore_file(target.as_str())
            };
            proof {
                let acted = event(utility_request(link, name, target@), Reply::Done(r));
                let earlier = done;
                done = done.push(asked).push(acted);
                assert(system.history() =~= s0.history() + done);
                assert(system.history().skip(s0.history().len() as int) =~= done);
                assert forall|j: int| 0 <= j < i implies question(done, j) == question(earlier, j)
                    && action(done, j) == action(earlier, j) by {}
                assert(question(done, i as int) == asked);
                assert(action(done, i as int) == acted);
                assert(done.last() == acted);
                let shorter = sudors_names().take(i as int);
                let longer = sudors_names().take(i as int + 1);
                assert forall|j: int| 0 <= j < i implies shorter[j] == longer[j] by {}
                assert forall|j: int| 0 <= j < done.len() / 2 implies {
                    &&& (#[trigger] question(done, j)).request == Request::Which(longer[j])
                    &&& question(done, j).reply matches Reply::Path(found) && action(
                        done,
                        j,
                    ).request == utility_request(
                        link,
                        longer[j],
                        existing_path(longer[j], found),
                    )
                } by {
                    if j < i {
                        assert(question(earlier, j).request == Request::Which(shorter[j]));
                    }
                }
                assert forall|j: int| 0 <= j < done.len() / 2 - 1 implies (#[trigger] action(
                    done,
                    j,
                )).reply == Reply::Done(Ok(())) by {
                    if j < i - 1 {
                        assert(action(earlier, j).reply == Reply::Done(Ok(())));
                    } else {
                        assert(earlier.last() == action(earlier, j));
                    }
                }
                if r is Ok {
                    lemma_plain_success(r);
                }
            }
            if r.is_err() {
                proof {
                    let longer = sudors_names().take(i as int + 1);
                    assert forall|j: int| 0 <= j < done.len() / 2 implies longer[j]
                        == sudors_names()[j] by {}
                }
                return r;
            }
            i = i + 1;
        }
        proof {
            assert(sudors_names().take(i as int) =~= sudors_names());
            assert(system.history().skip(s0.history().len() as int) =~= done);
        }
        Ok(())
    }

    /// Enable the experiment by installing and configuring the package.
    pub fn enable<W: Worker>(&self, system: &mut System<'_, W>) -> (r: Result<(), WorkerError>)
        ensures
            final(system).continues(old(system)),
            sudors_enabled(final(system).since(old(system)), r),
    {
        let ghost s0 = *system;
        let installed = system.install_package("sudo-rs");
        let ghost s1 = *system;
        proof {
            s1.lemma_follows(
                &s0,
                event(Request::InstallPackage(sudors_package()), Reply::Done(installed)),
            );
        }
        if installed.is_err() {
            return installed;
        }
        let r = Self::each_utility(system, true);
        proof {
            system.lemma_continues(&s1, &s0);
            assert(system.since(&s0).skip(1) =~= system.since(&s1));
        }
        r
    }

    /// Disable the experiment by restoring the files of the system and removing the package.
    pub fn disable<W: Worker>(&self, system: &mut System<'_, W>) -> (r: Result<(), WorkerError>)
        ensures
            final(system).continues(old(system)),
            sudors_disabled(final(system).since(old(system)), r),
    {
        let ghost s0 = *system;
        let restored = Self::each_utility(system, false);
        let ghost s1 = *system;
        if restored.is_err() {
            return restored;
        }
        let r = system.remove_package("sudo-rs");
        proof {
            let removal = event(Request::RemovePackage(sudors_package()), Reply::Done(r));
            system.lemma_follows(&s1, removal);
            system.lemma_continues(&s1, &s0);
            lemma_plain_success(restored);
            assert(system.since(&s0).drop_last() =~= s1.since(&s0));
        }
        r
    }
}

} // verus!
