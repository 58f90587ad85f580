use vstd::prelude::*;

use crate::text::{concatenated, owned};

verus! {

/// `std::io::Error`, carried through the library without being looked into.
#[verifier::external_type_specification]
#[verifier::external_body]
pub struct ExIoError(std::io::Error);

/// The errors of the shell.
#[derive(Debug)]
pub enum ShellError {
    Io(std::io::Error),
    ParseError(String),
    CommandNotFound(String),
    BuiltinError(String),
}

/// `e` is a parse error whose message is `msg`.
pub open spec fn is_parse_error(e: ShellError, msg: Seq<char>) -> bool {
    e matches ShellError::ParseError(m) && m@ == msg
}

/// `e` is a builtin error whose message is `msg`.
pub open spec fn is_builtin_error(e: ShellError, msg: Seq<char>) -> bool {
    e matches ShellError::BuiltinError(m) && m@ == msg
}

/// The text of an I/O error, as its `Display` impl writes it
/// (`format!("{}", e)`). It comes from the operating system, so nothing
/// is stated of it.
#[verifier::external_body]
fn io_error_text(e: &std::io::Error) -> String {
    format!("{}", e)
}

/// `text` is what the shell shows for `e`: for an I/O error, `I/O error: `
/// and the system's text for it; for the others, their message with the
/// words that go with their kind.
pub open spec fn message_fits(e: ShellError, text: Seq<char>) -> bool {
    match e {
        ShellError::Io(_) => text.len() >= "I/O error: "@.len() && text.take(
            "I/O error: "@.len() as int,
        ) == "I/O error: "@,
        ShellError::ParseError(m) => text == "Parse error: "@ + m@,
        ShellError::CommandNotFound(c) => text == c@ + ": command not found"@,
        ShellError::BuiltinError(m) => text == m@,
    }
}

impl ShellError {
    /// A parse error with the message `msg`.
    pub fn parse_error(msg: &str) -> (e: ShellError)
        ensures
            is_parse_error(e, msg@),
    {
        ShellError::ParseError(owned(msg))
    }

    /// A builtin error with the message `msg`.
    pub fn builtin_error(msg: &str) -> (e: ShellError)
        ensures
            is_builtin_error(e, msg@),
    {
        ShellError::BuiltinError(owned(msg))
    }

    /// The text the shell shows for this error.
    pub fn message(&self) -> (res: String)
        ensures
            message_fits(*self, res@),
    {
        match self {
            ShellError::Io(e) => {
                let t = io_error_text(e);
                let r = concatenated("I/O error: ", t.as_str());
                assert(r@.take("I/O error: "@.len() as int) =~= "I/O error: "@);
                r
            },
            ShellError::ParseError(m) => concatenated("Parse error: ", m.as_str()),
            ShellError::CommandNotFound(c) => concatenated(c.as_str(), ": command not found"),
            ShellError::BuiltinError(m) => m.clone(),
        }
    }
}

impl From<std::io::Error> for ShellError {
    fn from(err: std::io::Error) -> (r: Self) {
        ShellError::Io(err)
    }
}

impl vstd::std_specs::convert::FromSpecImpl<std::io::Error> for ShellError {
    open spec fn obeys_from_spec() -> bool {
        true
    }

    open spec fn from_spec(err: std::io::Error) -> Self {
        ShellError::Io(err)
    }
}

} // verus!
