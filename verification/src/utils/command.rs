//! Commands to run on the host, and what running one gives back.

use vstd::prelude::*;
use vstd::string::StringExecFns;

use crate::utils::text::texts;
use crate::utils::worker::WorkerError;

verus! {

/// A command with its arguments.
pub struct Command {
    pub command: String,
    pub args: Vec<String>,
}

/// A command as text: the program and each argument.
pub ghost struct CommandView {
    pub command: Seq<char>,
    pub args: Seq<Seq<char>>,
}

impl View for Command {
    type V = CommandView;

    open spec fn view(&self) -> CommandView {
        CommandView { command: self.command@, args: texts(self.args@) }
    }
}

/// `parts` with a single space between neighbours.
pub open spec fn spaced(parts: Seq<Seq<char>>) -> Seq<char>
    decreases parts.len(),
{
    if parts.len() == 0 {
        Seq::empty()
    } else if parts.len() == 1 {
        parts[0]
    } else {
        spaced(parts.drop_last()) + seq![' '] + parts.last()
    }
}

impl CommandView {
    /// The command line: the program, a space, and the arguments separated
    /// by spaces.
    pub open spec fn line(self) -> Seq<char> {
        self.command + seq![' '] + spaced(self.args)
    }
}

impl Command {
    /// Create a new `Command` instance from the command name and list of arguments.
    pub fn build(command: &str, args: &[&str]) -> (r: Self)
        ensures
            r@.command == command@,
            r@.args == Seq::new(args@.len(), |i: int| args@[i]@),
    {
        let mut owned: Vec<String> = Vec::new();
        let mut i: usize = 0;
        while i < args.len()
            invariant
                i <= args.len(),
                owned@.len() == i,
                forall|j: int| 0 <= j < i ==> owned@[j]@ == args@[j]@,
            decreases args.len() - i,
        {
            owned.push(args[i].to_string());
            i = i + 1;
        }
        let r = Command { command: command.to_string(), args: owned };
        assert(r@.args =~= Seq::new(args@.len(), |i: int| args@[i]@));
        r
    }

    /// Get the full command string.
    pub fn command(&self) -> (r: String)
        ensures
            r@ == self@.line(),
    {
        let mut r = self.command.clone();
        r.append(" ");
        proof {
            reveal_strlit(" ");
            assert(" "@ =~= seq![' ']);
        }
        let ghost parts = texts(self.args@);
        let mut i: usize = 0;
        assert(parts.take(0) =~= Seq::empty());
        while i < self.args.len()
            invariant
                i <= self.args.len(),
                parts == texts(self.args@),
                " "@ == seq![' '],
                r@ == self.command@ + seq![' '] + spaced(parts.take(i as int)),
            decreases self.args.len() - i,
        {
            if i > 0 {
                r.append(" ");
            }
            r.append(self.args[i].as_str());
            proof {
                let next = parts.take(i as int + 1);
                assert(next.drop_last() =~= parts.take(i as int));
                assert(next.last() == self.args@[i as int]@);
                if i == 0 {
                    assert(spaced(parts.take(0)) =~= Seq::<char>::empty());
                    assert(r@ =~= self.command@ + seq![' '] + spaced(next));
                } else {
                    assert(r@ =~= self.command@ + seq![' '] + spaced(next));
                }
            }
            i = i + 1;
        }
        assert(parts.take(i as int) =~= parts);
        r
    }
}

impl Command {
    /// What running the command comes to, given what it left behind: the
    /// output where it succeeded, else a failure that names the command line
    /// and carries what the command wrote to its standard error.
    pub fn checked(&self, output: Output) -> (r: Result<Output, WorkerError>)
        ensures
            output.succeeded() ==> r == Ok::<Output, WorkerError>(output),
            !output.succeeded() ==> (r matches Err(WorkerError::CommandFailed { command, stderr })
                && command@ == self@.line() && stderr@ == output.stderr@),
    {
        if output.success() {
            Ok(output)
        } else {
            Err(WorkerError::CommandFailed { command: self.command(), stderr: output.stderr })
        }
    }
}

/// What a finished command leaves behind.
pub struct Output {
    /// The exit code, or `None` if the command was ended by a signal.
    pub status: Option<i32>,
    pub stdout: Vec<u8>,
    pub stderr: Vec<u8>,
}

impl Output {
    /// A command succeeds when it exits with code 0.
    pub open spec fn succeeded(&self) -> bool {
        self.status == Some(0i32)
    }

    /// Whether the command succeeded.
    pub fn success(&self) -> (r: bool)
        ensures
            r == self.succeeded(),
    {
        match self.status {
            Some(code) => code == 0,
            None => false,
        }
    }
}

} // verus!
