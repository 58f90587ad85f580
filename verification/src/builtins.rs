use vstd::prelude::*;

pub mod cd;
pub mod complete;
pub mod echo;
pub mod exit;
pub mod history;
pub mod jobs;
pub mod pwd;
pub mod type_cmd;

pub use cd::CdBuiltin;
pub use complete::CompleteBuiltin;
pub use echo::EchoBuiltin;
pub use exit::ExitBuiltin;
pub use history::HistoryBuiltin;
pub use jobs::JobsBuiltin;
pub use pwd::PwdBuiltin;
pub use type_cmd::TypeBuiltin;

verus! {

/// What the shell does after a builtin command ran.
#[derive(Clone, Copy, PartialEq, Eq, Structural, Debug)]
pub enum ShouldExit {
    /// Read the next command.
    Continue,
    /// Leave the shell.
    Exit,
}

} // verus!
