//! What the supervisor was asked to do on its command line.

use crate::errors::Error;
use vstd::prelude::*;
use vstd::string::*;

verus! {

/// The three settings of a run.
#[derive(Debug, PartialEq)]
pub struct Options {
    /// The directory to watch.
    pub dir: String,
    /// The command line to run on each change.
    pub cmd: String,
    /// The command line of the supervised process.
    pub proc: String,
}

impl Options {
    /// Settles the options from the values given on the command line,
    /// `None` standing for an option that was not given. The directory
    /// defaults to the current one, `.`; the on-change command and the
    /// supervised command are required, and where both are absent the
    /// on-change command is the one reported.
    pub fn resolve(dir: Option<String>, cmd: Option<String>, proc: Option<String>) -> (options:
        Result<Options, Error>)
        ensures
            cmd is None ==> (options matches Err(Error::MissingArg(name)) && name@ == "cmd"@),
            cmd is Some && proc is None ==> (options matches Err(Error::MissingArg(name)) && name@
                == "proc"@),
            cmd is Some && proc is Some ==> (options matches Ok(settled) && settled.cmd
                == cmd->Some_0 && settled.proc == proc->Some_0 && settled.dir@ == (match dir {
                Some(given) => given@,
                None => "."@,
            })),
    {
        let cmd = match cmd {
            Some(cmd) => cmd,
            None => { return Err(Error::MissingArg(String::from_str("cmd"))); },
        };
        let proc = match proc {
            Some(proc) => proc,
            None => { return Err(Error::MissingArg(String::from_str("proc"))); },
        };
        let dir = match dir {
            Some(dir) => dir,
            None => String::from_str("."),
        };
        Ok(Options { dir, cmd, proc })
    }
}

} // verus!
