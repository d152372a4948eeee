//! The host as the library reaches it: the operations that a worker carries
//! out on the host, and the system, which hands requests to a worker and
//! keeps their history.

use vstd::prelude::*;

use crate::utils::apt;
use crate::utils::command::{Command, CommandView, Output};
use crate::utils::text::{lossy_text, string_from_utf8_lossy};
use crate::utils::ubuntu::{id_command, id_line, release_command, release_line};
use crate::utils::Distribution;

verus! {

/// Why an operation failed.
#[derive(Debug, Clone, PartialEq, Eq)]
pub enum WorkerError {
    /// A command ran and did not succeed.
    CommandFailed { command: String, stderr: Vec<u8> },
    /// A command printed something that is not UTF-8.
    InvalidUtf8,
    /// A path that should be a directory is missing or is something else.
    NotADirectory { path: String },
    /// A path that should name a file has no file name.
    NoFileName { path: String },
    /// The host runs a distribution that the tool does not support.
    UnsupportedDistribution { id: String },
    /// Any other failure, as the host describes it.
    Other { message: String },
}

impl WorkerError {
    /// What the failure says of itself.
    pub open spec fn text(self) -> Seq<char> {
        match self {
            WorkerError::CommandFailed { command, stderr } => "Failed to run command '"@
                + command@ + "': "@ + lossy_text(stderr@),
            WorkerError::InvalidUtf8 => "invalid utf-8 sequence in command output"@,
            WorkerError::NotADirectory { path } => path@ + " is not a directory"@,
            WorkerError::NoFileName { path } => path@ + " has no file name"@,
            WorkerError::UnsupportedDistribution { id } => "This program only supports Ubuntu"@,
            WorkerError::Other { message } => message@,
        }
    }

    /// The failure in words, with the command or the path that it concerns.
    pub fn message(&self) -> (r: String)
        ensures
            r@ == self.text(),
    {
        match self {
            WorkerError::CommandFailed { command, stderr } => {
                let mut r = "Failed to run command '".to_string();
                r.append(command.as_str());
                r.append("': ");
                r.append(string_from_utf8_lossy(stderr).as_str());
                r
            },
            WorkerError::InvalidUtf8 => "invalid utf-8 sequence in command output".to_string(),
            WorkerError::NotADirectory { path } => {
                let mut r = path.clone();
                r.append(" is not a directory");
                r
            },
            WorkerError::NoFileName { path } => {
                let mut r = path.clone();
                r.append(" has no file name");
                r
            },
            WorkerError::UnsupportedDistribution { id } => {
                "This program only supports Ubuntu".to_string()
            },
            WorkerError::Other { message } => message.clone(),
        }
    }
}

/// The operations that a host provides. The library reaches the host through
/// these and nothing else, so a host that only records requests can stand in
/// for a real one.
pub trait Worker {
    /// Report the distribution information for the system. Unless a worker
    /// has its own way, it runs `lsb_release -is` and, if that succeeds,
    /// `lsb_release -rs`, and reads the distribution from what they printed.
    fn distribution(&self) -> (r: Result<Distribution, WorkerError>)
        default_ensures
            exists|id_cmd: Command, id: Result<Output, WorkerError>|
                {
                    &&& id_cmd@ == id_line()
                    &&& #[trigger] call_ensures(Self::run, (self, &id_cmd), id)
                    &&& match id {
                        Err(e) => r == Err::<Distribution, WorkerError>(e),
                        Ok(first) => exists|
                            release_cmd: Command,
                            release: Result<Output, WorkerError>,
                        |
                            {
                                &&& release_cmd@ == release_line()
                                &&& #[trigger] call_ensures(
                                    Self::run,
                                    (self, &release_cmd),
                                    release,
                                )
                                &&& match release {
                                    Err(e) => r == Err::<Distribution, WorkerError>(e),
                                    Ok(second) => Distribution::parsed(
                                        first.stdout@,
                                        second.stdout@,
                                        r,
                                    ),
                                }
                            },
                    }
                },
    {
        let id_cmd = id_command();
        let id = self.run(&id_cmd);
        let first = match id {
            Ok(first) => first,
            Err(e) => {
                return Err(e);
            },
        };
        let release_cmd = release_command();
        let release = self.run(&release_cmd);
        match release {
            Ok(second) => Distribution::parse(first.stdout, second.stdout),
            Err(e) => Err(e),
        }
    }

    /// Run a command and return the output. If the command fails, an error will be returned.
    fn run(&self, cmd: &Command) -> Result<Output, WorkerError>;

    /// List files in a directory, returning an error if the directory does not exist.
    fn list_files(&self, directory: &str) -> Result<Vec<String>, WorkerError>;

    /// Find the path to a binary in the system's PATH.
    fn which(&self, binary_name: &str) -> Result<String, WorkerError>;

    /// Install a package using the system package manager. Unless a worker
    /// has its own way, it runs `apt-get install -y <package>` and ends as
    /// that command does.
    fn install_package(&self, package: &str) -> (r: Result<(), WorkerError>)
        default_ensures
            exists|cmd: Command, result: Result<Output, WorkerError>|
                {
                    &&& cmd@ == apt::install_line(package@)
                    &&& #[trigger] call_ensures(Self::run, (self, &cmd), result)
                    &&& r == apt::ended(result)
                },
    {
        let cmd = apt::install_package(package);
        let result = self.run(&cmd);
        apt::finished(result)
    }

    /// Remove a package using the system package manager. Unless a worker
    /// has its own way, it runs `apt-get remove -y <package>` and ends as
    /// that command does.
    fn remove_package(&self, package: &str) -> (r: Result<(), WorkerError>)
        default_ensures
            exists|cmd: Command, result: Result<Output, WorkerError>|
                {
                    &&& cmd@ == apt::remove_line(package@)
                    &&& #[trigger] call_ensures(Self::run, (self, &cmd), result)
                    &&& r == apt::ended(result)
                },
    {
        let cmd = apt::remove_package(package);
        let result = self.run(&cmd);
        apt::finished(result)
    }

    /// Update the package lists using the system package manager. Unless a
    /// worker has its own way, it runs `apt-get update` and ends as that
    /// command does.
    fn update_package_lists(&self) -> (r: Result<(), WorkerError>)
        default_ensures
            exists|cmd: Command, result: Result<Output, WorkerError>|
                {
                    &&& cmd@ == apt::update_line()
                    &&& #[trigger] call_ensures(Self::run, (self, &cmd), result)
                    &&& r == apt::ended(result)
                },
    {
        let cmd = apt::update_package_lists();
        let result = self.run(&cmd);
        apt::finished(result)
    }

    /// Check if a package is installed using the system package manager.
    /// Unless a worker has its own way, it runs `dpkg-query -s <package>`;
    /// the package is installed exactly if that command succeeds, and the
    /// check itself never fails.
    fn check_installed(&self, package: &str) -> (r: Result<bool, WorkerError>)
        default_ensures
            exists|cmd: Command, result: Result<Output, WorkerError>|
                {
                    &&& cmd@ == apt::query_line(package@)
                    &&& #[trigger] call_ensures(Self::run, (self, &cmd), result)
                    &&& r == Ok::<bool, WorkerError>(result is Ok)
                },
    {
        let cmd = apt::check_installed(package);
        let result = self.run(&cmd);
        Ok(apt::found(result))
    }

    /// Replace a file with a symlink. If the target file already exists, it will be backed up.
    fn replace_file_with_symlink(&self, source: &str, target: &str) -> Result<(), WorkerError>;

    /// Backup a file by copying it to a new file with a `.oxidizr.bak` extension.
    fn backup_file(&self, file: &str) -> Result<(), WorkerError>;

    /// Restore a file from a backup if the backup file exists, warn otherwise.
    fn restore_file(&self, file: &str) -> Result<(), WorkerError>;

    /// Create a symlink from `source` to `target`. If `target` already exists, it will be removed.
    fn create_symlink(&self, source: &str, target: &str) -> Result<(), WorkerError>;
}

/// `reply` is what `worker` answered to `request`: the worker's operation
/// of that name, called with what the request names, gave it.
pub open spec fn answered<W: Worker + ?Sized>(worker: &W, request: Request, reply: Reply) -> bool {
    match (request, reply) {
        (Request::Run(line), Reply::Output(r)) => exists|cmd: Command|
            cmd@ == line && #[trigger] call_ensures(W::run, (worker, &cmd), r),
        (Request::ListFiles(directory), Reply::Files(r)) => exists|d: &str|
            d@ == directory && #[trigger] call_ensures(W::list_files, (worker, d), r),
        (Request::Which(name), Reply::Path(r)) => exists|n: &str|
            n@ == name && #[trigger] call_ensures(W::which, (worker, n), r),
        (Request::InstallPackage(package), Reply::Done(r)) => exists|p: &str|
            p@ == package && #[trigger] call_ensures(W::install_package, (worker, p), r),
        (Request::RemovePackage(package), Reply::Done(r)) => exists|p: &str|
            p@ == package && #[trigger] call_ensures(W::remove_package, (worker, p), r),
        (Request::UpdatePackageLists, Reply::Done(r)) => call_ensures(
            W::update_package_lists,
            (worker,),
            r,
        ),
        (Request::CheckInstalled(package), Reply::Installed(r)) => exists|p: &str|
            p@ == package && #[trigger] call_ensures(W::check_installed, (worker, p), r),
        (Request::ReplaceFileWithSymlink(source, target), Reply::Done(r)) => exists|
            s: &str,
            t: &str,
        |
            s@ == source && t@ == target && #[trigger] call_ensures(
                W::replace_file_with_symlink,
                (worker, s, t),
                r,
            ),
        (Request::BackupFile(file), Reply::Done(r)) => exists|f: &str|
            f@ == file && #[trigger] call_ensures(W::backup_file, (worker, f), r),
        (Request::RestoreFile(file), Reply::Done(r)) => exists|f: &str|
            f@ == file && #[trigger] call_ensures(W::restore_file, (worker, f), r),
        (Request::CreateSymlink(source, target), Reply::Done(r)) => exists|s: &str, t: &str|
            s@ == source && t@ == target && #[trigger] call_ensures(
                W::create_symlink,
                (worker, s, t),
                r,
            ),
        _ => false,
    }
}

/// `worker` was asked for the distribution of its host, and `answer` is
/// what it said.
pub open spec fn told<W: Worker + ?Sized>(
    worker: &W,
    answer: Result<Distribution, WorkerError>,
) -> bool {
    call_ensures(W::distribution, (worker,), answer)
}

/// A request to the host.
pub ghost enum Request {
    /// Run a command.
    Run(CommandView),
    /// List the files in a directory.
    ListFiles(Seq<char>),
    /// Find a binary on the search path.
    Which(Seq<char>),
    /// Install a package.
    InstallPackage(Seq<char>),
    /// Remove a package.
    RemovePackage(Seq<char>),
    /// Update the package lists.
    UpdatePackageLists,
    /// Say whether a package is installed.
    CheckInstalled(Seq<char>),
    /// Put a symlink to the first path in place of the second.
    ReplaceFileWithSymlink(Seq<char>, Seq<char>),
    /// Back a file up.
    BackupFile(Seq<char>),
    /// Restore a file from its backup.
    RestoreFile(Seq<char>),
    /// Create a symlink to the first path at the second.
    CreateSymlink(Seq<char>, Seq<char>),
}

/// What the host answered to a request.
pub ghost enum Reply {
    /// The answer to a request that gives nothing back.
    Done(Result<(), WorkerError>),
    /// What a command left behind.
    Output(Result<Output, WorkerError>),
    /// The files of a directory.
    Files(Result<Vec<String>, WorkerError>),
    /// Where a binary is.
    Path(Result<String, WorkerError>),
    /// Whether a package is installed.
    Installed(Result<bool, WorkerError>),
}

/// One request to the host, with what the host answered.
pub ghost struct Event {
    pub request: Request,
    pub reply: Reply,
}

/// The event of `request` answered with `reply`.
pub open spec fn event(request: Request, reply: Reply) -> Event {
    Event { request, reply }
}

/// A success that carries nothing is the one value `Ok(())`.
pub proof fn lemma_plain_success(r: Result<(), WorkerError>)
    requires
        r is Ok,
    ensures
        r == Ok::<(), WorkerError>(()),
{
    let unit = r->Ok_0;
    assert(unit == ());
}

/// The requests `requests` were made in this order and each was answered
/// with success, up to the first that failed, if any. `r` is that failure,
/// or success if all of them were made.
pub open spec fn done_in_order(
    events: Seq<Event>,
    requests: Seq<Request>,
    r: Result<(), WorkerError>,
) -> bool {
    &&& events.len() <= requests.len()
    &&& forall|i: int| 0 <= i < events.len() ==> (#[trigger] events[i]).request == requests[i]
    &&& forall|i: int|
        0 <= i < events.len() - 1 ==> (#[trigger] events[i]).reply == Reply::Done(Ok(()))
    &&& match r {
        Ok(_) => events.len() == requests.len() && (events.len() > 0 ==> events.last().reply
            == Reply::Done(Ok(()))),
        Err(e) => events.len() > 0 && events.last().reply == Reply::Done(Err(e)),
    }
}

/// Requests that failed stay failed however many more were to follow.
pub proof fn lemma_done_failed(
    events: Seq<Event>,
    requests: Seq<Request>,
    more: Seq<Request>,
    r: Result<(), WorkerError>,
)
    requires
        done_in_order(events, requests, r),
        r is Err,
    ensures
        done_in_order(events, requests + more, r),
{
    assert forall|i: int| 0 <= i < events.len() implies (#[trigger] events[i]).request == (requests
        + more)[i] by {
        assert((requests + more)[i] == requests[i]);
    }
}

/// After requests that all succeeded, one more request makes the longer
/// list, and its answer decides the result.
pub proof fn lemma_done_then(
    events: Seq<Event>,
    requests: Seq<Request>,
    request: Request,
    r: Result<(), WorkerError>,
)
    requires
        done_in_order(events, requests, Ok(())),
    ensures
        done_in_order(
            events.push(event(request, Reply::Done(r))),
            requests.push(request),
            r,
        ),
{
    let longer = events.push(event(request, Reply::Done(r)));
    assert forall|i: int| 0 <= i < longer.len() implies (#[trigger] longer[i]).request
        == requests.push(request)[i] by {
        if i < events.len() {
            assert(longer[i] == events[i]);
        }
    }
    assert forall|i: int| 0 <= i < longer.len() - 1 implies (#[trigger] longer[i]).reply
        == Reply::Done(Ok(())) by {
        assert(longer[i] == events[i]);
        if i == events.len() - 1 {
            assert(events.last() == events[i]);
        }
    }
    if r is Ok {
        lemma_plain_success(r);
    }
}

/// A struct representing the system with functions for running commands and
/// manipulating files on the filesystem: the worker that carries them out,
/// the distribution of the host, read once at the start, and the history of
/// the requests made since then.
pub struct System<'a, W: Worker> {
    worker: &'a W,
    distribution: Distribution,
    history: Ghost<Seq<Event>>,
}

impl<'a, W: Worker> System<'a, W> {
    /// The requests made so far, oldest first.
    pub closed spec fn history(&self) -> Seq<Event> {
        self.history@
    }

    /// The distribution of the host.
    pub closed spec fn host(&self) -> Distribution {
        self.distribution
    }

    /// The worker that carries out the requests.
    pub closed spec fn worker(&self) -> &'a W {
        self.worker
    }

    /// `self` is `before` after one more request, which the worker answered.
    pub open spec fn follows(&self, before: &Self, event: Event) -> bool {
        &&& self.history() == before.history().push(event)
        &&& self.host() == before.host()
        &&& self.worker() == before.worker()
        &&& answered(self.worker(), event.request, event.reply)
    }

    /// The requests made since `before`.
    pub open spec fn since(&self, before: &Self) -> Seq<Event> {
        self.history().skip(before.history().len() as int)
    }

    /// Each of `events` is a request with what the worker answered to it.
    pub open spec fn all_answered(&self, events: Seq<Event>) -> bool {
        forall|i: int|
            0 <= i < events.len() ==> answered(
                self.worker(),
                (#[trigger] events[i]).request,
                events[i].reply,
            )
    }

    /// `self` is `before` after any number of further requests, each of
    /// which the worker answered.
    pub open spec fn continues(&self, before: &Self) -> bool {
        &&& self.history() == before.history() + self.since(before)
        &&& self.host() == before.host()
        &&& self.worker() == before.worker()
        &&& self.all_answered(self.since(before))
    }

    /// Nothing requested is a continuation with no requests.
    pub proof fn lemma_unchanged(&self)
        ensures
            self.continues(self),
            self.since(self) == Seq::<Event>::empty(),
    {
        assert(self.since(self) =~= Seq::<Event>::empty());
        assert(self.history() =~= self.history() + self.since(self));
    }

    /// One request is a continuation with that request alone.
    pub proof fn lemma_follows(&self, before: &Self, event: Event)
        requires
            self.follows(before, event),
        ensures
            self.continues(before),
            self.since(before) == seq![event],
    {
        assert(self.since(before) =~= seq![event]);
        assert(self.history() =~= before.history() + self.since(before));
    }

    /// Continuations compose: the requests since `before` are those up to
    /// `middle` and then those since `middle`.
    pub proof fn lemma_continues(&self, middle: &Self, before: &Self)
        requires
            middle.continues(before),
            self.continues(middle),
        ensures
            self.continues(before),
            self.since(before) == middle.since(before) + self.since(middle),
    {
        assert(self.since(before) =~= middle.since(before) + self.since(middle));
        assert(self.history() =~= before.history() + self.since(before));
        assert forall|i: int| 0 <= i < self.since(before).len() implies answered(
            self.worker(),
            (#[trigger] self.since(before)[i]).request,
            self.since(before)[i].reply,
        ) by {
            let first = middle.since(before);
            if i < first.len() {
                assert(self.since(before)[i] == first[i]);
            } else {
                assert(self.since(before)[i] == self.since(middle)[i - first.len()]);
            }
        }
    }

    /// The system of a worker whose host has a known distribution, before
    /// any request is made.
    pub fn begin(worker: &'a W, distribution: Distribution) -> (r: Self)
        ensures
            r.worker() == worker,
            r.host() == distribution,
            r.history() == Seq::<Event>::empty(),
    {
        System { worker, distribution, history: Ghost(Seq::empty()) }
    }

    /// Create a new `System` instance: the worker is asked for the
    /// distribution of its host. What it says is the distribution of the
    /// system, and if it cannot tell, its failure is passed on and no system
    /// is made.
    pub fn new(worker: &'a W) -> (r: Result<Self, WorkerError>)
        ensures
            match r {
                Ok(system) => told(worker, Ok(system.host())) && system.worker() == worker
                    && system.history() == Seq::<Event>::empty(),
                Err(e) => told(worker, Err(e)),
            },
    {
        match worker.distribution() {
            Ok(distribution) => Ok(Self::begin(worker, distribution)),
            Err(e) => Err(e),
        }
    }

    /// The distribution of the host, as read at the start.
    pub fn distribution(&self) -> (r: &Distribution)
        ensures
            *r == self.host(),
    {
        &self.distribution
    }

    /// Runs a command on the host.
    pub fn run(&mut self, cmd: &Command) -> (r: Result<Output, WorkerError>)
        ensures
            final(self).follows(
                old(self),
                event(Request::Run(cmd@), Reply::Output(r)),
            ),
            call_ensures(W::run, (old(self).worker(), cmd), r),
    {
        let r = self.worker.run(cmd);
        proof {
            self.history@ = self.history@.push(
                event(Request::Run(cmd@), Reply::Output(r)),
            );
        }
        r
    }

    /// Lists the files in a directory of the host.
    pub fn list_files(&mut self, directory: &str) -> (r: Result<Vec<String>, WorkerError>)
        ensures
            final(self).follows(
                old(self),
                event(Request::ListFiles(directory@), Reply::Files(r)),
            ),
            call_ensures(W::list_files, (old(self).worker(), directory), r),
    {
        let r = self.worker.list_files(directory);
        proof {
            self.history@ = self.history@.push(
                event(Request::ListFiles(directory@), Reply::Files(r)),
            );
        }
        r
    }

    /// Looks a binary up on the host's search path.
    pub fn which(&mut self, binary_name: &str) -> (r: Result<String, WorkerError>)
        ensures
            final(self).follows(
                old(self),
                event(Request::Which(binary_name@), Reply::Path(r)),
            ),
            call_ensures(W::which, (old(self).worker(), binary_name), r),
    {
        let r = self.worker.which(binary_name);
        proof {
            self.history@ = self.history@.push(
                event(Request::Which(binary_name@), Reply::Path(r)),
            );
        }
        r
    }

    /// Installs a package on the host.
    pub fn install_package(&mut self, package: &str) -> (r: Result<(), WorkerError>)
        ensures
            final(self).follows(
                old(self),
                event(Request::InstallPackage(package@), Reply::Done(r)),
            ),
            call_ensures(W::install_package, (old(self).worker(), package), r),
    {
        let r = self.worker.install_package(package);
        proof {
            self.history@ = self.history@.push(
                event(Request::InstallPackage(package@), Reply::Done(r)),
            );
        }
        r
    }

    /// Removes a package from the host.
    pub fn remove_package(&mut self, package: &str) -> (r: Result<(), WorkerError>)
        ensures
            final(self).follows(
                old(self),
                event(Request::RemovePackage(package@), Reply::Done(r)),
            ),
            call_ensures(W::remove_package, (old(self).worker(), package), r),
    {
        let r = self.worker.remove_package(package);
        proof {
            self.history@ = self.history@.push(
                event(Request::RemovePackage(package@), Reply::Done(r)),
            );
        }
        r
    }

    /// Updates the package lists of the host.
    pub fn update_package_lists(&mut self) -> (r: Result<(), WorkerError>)
        ensures
            final(self).follows(
                old(self),
                event(Request::UpdatePackageLists, Reply::Done(r)),
            ),
            call_ensures(W::update_package_lists, (old(self).worker(),), r),
    {
        let r = self.worker.update_package_lists();
        proof {
            self.history@ = self.history@.push(
                event(Request::UpdatePackageLists, Reply::Done(r)),
            );
        }
        r
    }

    /// Asks the host whether a package is installed.
    pub fn check_installed(&mut self, package: &str) -> (r: Result<bool, WorkerError>)
        ensures
            final(self).follows(
                old(self),
                event(Request::CheckInstalled(package@), Reply::Installed(r)),
            ),
            call_ensures(W::check_installed, (old(self).worker(), package), r),
    {
        let r = self.worker.check_installed(package);
        proof {
            self.history@ = self.history@.push(
                event(Request::CheckInstalled(package@), Reply::Installed(r)),
            );
        }
        r
    }

    /// Has the host replace `target` with a symlink to `source`.
    pub fn replace_file_with_symlink(&mut self, source: &str, target: &str) -> (r: Result<
        (),
        WorkerError,
    >)
        ensures
            final(self).follows(
                old(self),
                event(Request::ReplaceFileWithSymlink(source@, target@), Reply::Done(r)),
            ),
            call_ensures(W::replace_file_with_symlink, (old(self).worker(), source, target), r),
    {
        let r = self.worker.replace_file_with_symlink(source, target);
        proof {
            self.history@ = self.history@.push(
                event(Request::ReplaceFileWithSymlink(source@, target@), Reply::Done(r)),
            );
        }
        r
    }

    /// Has the host back a file up.
    pub fn backup_file(&mut self, file: &str) -> (r: Result<(), WorkerError>)
        ensures
            final(self).follows(
                old(self),
                event(Request::BackupFile(file@), Reply::Done(r)),
            ),
            call_ensures(W::backup_file, (old(self).worker(), file), r),
    {
        let r = self.worker.backup_file(file);
        proof {
            self.history@ = self.history@.push(
                event(Request::BackupFile(file@), Reply::Done(r)),
            );
        }
        r
    }

    /// Has the host restore a file from its backup.
    pub fn restore_file(&mut self, file: &str) -> (r: Result<(), WorkerError>)
        ensures
            final(self).follows(
                old(self),
                event(Request::RestoreFile(file@), Reply::Done(r)),
            ),
            call_ensures(W::restore_file, (old(self).worker(), file), r),
    {
        let r = self.worker.restore_file(file);
        proof {
            self.history@ = self.history@.push(
                event(Request::RestoreFile(file@), Reply::Done(r)),
            );
        }
        r
    }

    /// Has the host create a symlink at `target` that points to `source`.
    pub fn create_symlink(&mut self, source: &str, target: &str) -> (r: Result<(), WorkerError>)
        ensures
            final(self).follows(
                old(self),
                event(Request::CreateSymlink(source@, target@), Reply::Done(r)),
            ),
            call_ensures(W::create_symlink, (old(self).worker(), source, target), r),
    {
        let r = self.worker.create_symlink(source, target);
        proof {
            self.history@ = self.history@.push(
                event(Request::CreateSymlink(source@, target@), Reply::Done(r)),
            );
        }
        r
    }
}

} // verus!
