//! How the host's distribution is read: the commands that print it, and
//! what their output means.

use vstd::prelude::*;

use crate::utils::command::{Command, CommandView};
use crate::utils::text::{string_from_utf8, trim, trimmed};
use crate::utils::worker::WorkerError;
use vstd::utf8::{decode_utf8, valid_utf8};

verus! {

/// `lsb_release -is`
pub open spec fn id_line() -> CommandView {
    CommandView { command: "lsb_release"@, args: seq!["-is"@] }
}

/// `lsb_release -rs`
pub open spec fn release_line() -> CommandView {
    CommandView { command: "lsb_release"@, args: seq!["-rs"@] }
}

/// The command that prints the distribution's name.
pub fn id_command() -> (r: Command)
    ensures
        r@ == id_line(),
{
    let r = Command::build("lsb_release", &["-is"]);
    assert(r@.args =~= id_line().args);
    r
}

/// The command that prints the distribution's release.
pub fn release_command() -> (r: Command)
    ensures
        r@ == release_line(),
{
    let r = Command::build("lsb_release", &["-rs"]);
    assert(r@.args =~= release_line().args);
    r
}

/// What a command printed, as text: the UTF-8 decoding of `stdout` without
/// the white space around it.
pub open spec fn printed(stdout: Seq<u8>) -> Option<Seq<char>> {
    if valid_utf8(stdout) {
        Some(trimmed(decode_utf8(stdout)))
    } else {
        None
    }
}

/// Reads the release that `lsb_release -rs` printed.
pub fn release(stdout: Vec<u8>) -> (r: Result<String, WorkerError>)
    ensures
        match printed(stdout@) {
            Some(text) => r matches Ok(s) && s@ == text,
            None => r == Err::<String, WorkerError>(WorkerError::InvalidUtf8),
        },
{
    match string_from_utf8(stdout) {
        Some(s) => Ok(trim(s.as_str())),
        None => Err(WorkerError::InvalidUtf8),
    }
}

} // verus!
