use vstd::prelude::*;

use crate::builtins::ShouldExit;
use crate::error::{is_builtin_error, ShellError};
use crate::text::{concatenated, push_str};

verus! {

/// `pwd`: prints the working directory.
pub struct PwdBuiltin;

/// What `pwd` does when the working directory is `dir` (`Ok`) or could not
/// be read for the reason `Err`: the text it prints, or its error message.
pub open spec fn pwd_outcome(args: Seq<Seq<char>>, dir: Result<Seq<char>, Seq<char>>) -> Result<
    Seq<char>,
    Seq<char>,
> {
    if args.len() > 0 {
        Err("pwd: too many arguments"@)
    } else {
        match dir {
            Ok(d) => Ok(d + "\n"@),
            Err(e) => Err("pwd: failed to get current directory: "@ + e),
        }
    }
}

/// The view of a result of two strings.
pub open spec fn result_view(r: Result<String, String>) -> Result<Seq<char>, Seq<char>> {
    match r {
        Ok(s) => Ok(s@),
        Err(e) => Err(e@),
    }
}

impl PwdBuiltin {
    /// The name the command is called by.
    pub fn name(&self) -> (n: &'static str)
        ensures
            n@ == "pwd"@,
    {
        "pwd"
    }

    /// Rejects any argument; otherwise asks `current_dir` (called at most once) for the working
    /// directory (`Err` holding the text of the error) and prints it.
    pub fn execute<F: FnOnce() -> Result<String, String>>(
        &self,
        args: &[String],
        current_dir: F,
        out: &mut String,
    ) -> (r: Result<ShouldExit, ShellError>)
        requires
            call_requires(current_dir, ()),
        ensures
            args@.len() > 0 ==> final(out)@ == old(out)@ && (r matches Err(e) && is_builtin_error(
                e,
                "pwd: too many arguments"@,
            )),
            args@.len() == 0 ==> exists|d: Result<String, String>|
                call_ensures(current_dir, (), d) && match pwd_outcome(seq![], result_view(d)) {
                    Ok(text) => final(out)@ == old(out)@ + text && r == Ok::<
                        ShouldExit,
                        ShellError,
                    >(ShouldExit::Continue),
                    Err(m) => final(out)@ == old(out)@ && (r matches Err(e) && is_builtin_error(
                        e,
                        m,
                    )),
                },
    {
        if args.len() > 0 {
            return Err(ShellError::builtin_error("pwd: too many arguments"));
        }
        let d = current_dir();
        match &d {
            Ok(dir) => {
                push_str(out, dir.as_str());
                push_str(out, "\n");
                assert(call_ensures(current_dir, (), d));
                Ok(ShouldExit::Continue)
            },
            Err(e) => {
                let m = concatenated("pwd: failed to get current directory: ", e.as_str());
                assert(call_ensures(current_dir, (), d));
                Err(ShellError::BuiltinError(m))
            },
        }
    }
}

/// `pwd` with any argument is refused whatever the working directory; with
/// none it prints the working directory and a newline, or reports why it
/// could not be read.
pub proof fn law_pwd_outcome(args: Seq<Seq<char>>, d: Seq<char>, e: Seq<char>)
    ensures
        args.len() > 0 ==> pwd_outcome(args, Ok(d)) == Err::<Seq<char>, Seq<char>>(
            "pwd: too many arguments"@,
        ) && pwd_outcome(args, Err(e)) == Err::<Seq<char>, Seq<char>>(
            "pwd: too many arguments"@,
        ),
        pwd_outcome(seq![], Ok(d)) == Ok::<Seq<char>, Seq<char>>(d + "\n"@),
        pwd_outcome(seq![], Err(e)) == Err::<Seq<char>, Seq<char>>(
            "pwd: failed to get current directory: "@ + e,
        ),
{
}

} // verus!
