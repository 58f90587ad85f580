use vstd::prelude::*;

use crate::builtins::ShouldExit;
use crate::text::{join_strs, push_str, spec_join, strs};

verus! {

/// `echo`: prints its arguments separated by spaces.
pub struct EchoBuiltin;

impl EchoBuiltin {
    /// The name the command is called by.
    pub fn name(&self) -> (n: &'static str)
        ensures
            n@ == "echo"@,
    {
        "echo"
    }

    /// Appends to `out` the arguments separated by single spaces, and a newline.
    pub fn execute(&self, args: &[String], out: &mut String) -> (r: ShouldExit)
        ensures
            r == ShouldExit::Continue,
            final(out)@ == old(out)@ + spec_join(strs(args@), " "@) + "\n"@,
    {
        let line = join_strs(args, " ");
        push_str(out, line.as_str());
        push_str(out, "\n");
        ShouldExit::Continue
    }
}

/// `echo` prints its arguments as they are, with exactly one space between
/// two of them and none elsewhere: nothing for no argument, the argument for
/// one, and each further argument after a single space.
pub proof fn law_echo_spacing(ws: Seq<Seq<char>>, w: Seq<char>)
    ensures
        spec_join(seq![], " "@) == Seq::<char>::empty(),
        spec_join(seq![w], " "@) == w,
        ws.len() > 0 ==> spec_join(ws.push(w), " "@) == spec_join(ws, " "@) + " "@ + w,
{
    assert(ws.push(w).drop_last() =~= ws);
}

} // verus!
