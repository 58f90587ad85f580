use vstd::prelude::*;

use crate::builtins::ShouldExit;

verus! {

/// `exit`: leaves the shell.
pub struct ExitBuiltin;

impl ExitBuiltin {
    /// The name the command is called by.
    pub fn name(&self) -> (n: &'static str)
        ensures
            n@ == "exit"@,
    {
        "exit"
    }

    /// Asks the shell to stop, whatever the arguments.
    pub fn execute(&self, args: &[String]) -> (r: ShouldExit)
        ensures
            r == ShouldExit::Exit,
    {
        ShouldExit::Exit
    }
}

} // verus!
