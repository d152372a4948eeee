//! The package manager's command lines.

use vstd::prelude::*;

use crate::utils::command::{Command, CommandView, Output};
use crate::utils::worker::WorkerError;

verus! {

/// The program that installs and removes packages.
pub open spec fn apt_get() -> Seq<char> {
    "apt-get"@
}

/// The program that reports on installed packages.
pub open spec fn dpkg_query() -> Seq<char> {
    "dpkg-query"@
}

/// `apt-get install -y <package>`
pub open spec fn install_line(package: Seq<char>) -> CommandView {
    CommandView { command: apt_get(), args: seq!["install"@, "-y"@, package] }
}

/// `apt-get remove -y <package>`
pub open spec fn remove_line(package: Seq<char>) -> CommandView {
    CommandView { command: apt_get(), args: seq!["remove"@, "-y"@, package] }
}

/// `apt-get update`
pub open spec fn update_line() -> CommandView {
    CommandView { command: apt_get(), args: seq!["update"@] }
}

/// `dpkg-query -s <package>`
pub open spec fn query_line(package: Seq<char>) -> CommandView {
    CommandView { command: dpkg_query(), args: seq!["-s"@, package] }
}

/// The command that installs `package`.
pub fn install_package(package: &str) -> (r: Command)
    ensures
        r@ == install_line(package@),
{
    let r = Command::build("apt-get", &["install", "-y", package]);
    assert(r@.args =~= install_line(package@).args);
    r
}

/// The command that removes `package`.
pub fn remove_package(package: &str) -> (r: Command)
    ensures
        r@ == remove_line(package@),
{
    let r = Command::build("apt-get", &["remove", "-y", package]);
    assert(r@.args =~= remove_line(package@).args);
    r
}

/// The command that refreshes the package lists.
pub fn update_package_lists() -> (r: Command)
    ensures
        r@ == update_line(),
{
    let r = Command::build("apt-get", &["update"]);
    assert(r@.args =~= update_line().args);
    r
}

/// The command that succeeds exactly when `package` is installed.
pub fn check_installed(package: &str) -> (r: Command)
    ensures
        r@ == query_line(package@),
{
    let r = Command::build("dpkg-query", &["-s", package]);
    assert(r@.args =~= query_line(package@).args);
    r
}

/// How a package operation ends, given how its command ended: with
/// success if the command succeeded, else with the command's failure.
pub open spec fn ended(result: Result<Output, WorkerError>) -> Result<(), WorkerError> {
    match result {
        Ok(_) => Ok(()),
        Err(e) => Err(e),
    }
}

/// How a package operation ended, given how its command ended: with
/// success if the command succeeded, else with the command's failure.
pub fn finished(result: Result<Output, WorkerError>) -> (r: Result<(), WorkerError>)
    ensures
        r == ended(result),
{
    match result {
        Ok(_) => Ok(()),
        Err(e) => Err(e),
    }
}

/// Whether a package is installed, given how the query for it ended: it is
/// installed exactly if the query succeeded.
pub fn found(result: Result<Output, WorkerError>) -> (r: bool)
    ensures
        r == (result is Ok),
{
    result.is_ok()
}

} // verus!
