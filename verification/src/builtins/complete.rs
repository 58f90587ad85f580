use vstd::prelude::*;

use crate::builtins::ShouldExit;
use crate::error::{is_builtin_error, ShellError};
use crate::context::ShellContext;
use crate::text::{concatenated, push_str, str_eq, strs};

verus! {

/// `complete`: registers (`-C script name`) and shows (`-p name`) the
/// completion script of a command, in the shell's context, where the
/// completer finds it.
pub struct CompleteBuiltin;

/// What one run of `complete` with `args` does to the registry `m`: the new
/// registry, and either the text it prints (`Ok`) or its error message (`Err`).
pub open spec fn complete_step(m: Map<Seq<char>, Seq<char>>, args: Seq<Seq<char>>) -> (
    Map<Seq<char>, Seq<char>>,
    Result<Seq<char>, Seq<char>>,
) {
    if args.len() >= 2 && args[0] == "-p"@ {
        let name = args[1];
        if m.dom().contains(name) {
            (m, Ok("complete -C '"@ + m[name] + "' "@ + name + "\n"@))
        } else {
            (m, Err("complete: "@ + name + ": no completion specification"@))
        }
    } else if args.len() >= 3 && args[0] == "-C"@ {
        if args[1].len() > 0 && args[2].len() > 0 {
            (m.insert(args[2], args[1]), Ok(seq![]))
        } else {
            (m, Ok(seq![]))
        }
    } else {
        (m, Ok(seq![]))
    }
}

impl CompleteBuiltin {
    /// The `complete` command.
    pub fn new() -> (c: CompleteBuiltin) {
        CompleteBuiltin
    }

    /// The name the command is called by.
    pub fn name(&self) -> (n: &'static str)
        ensures
            n@ == "complete"@,
    {
        "complete"
    }

    /// Runs `complete` with `args` on the registry of `context`, appending
    /// what it prints to `out`.
    pub fn execute(&self, args: &[String], context: &mut ShellContext, out: &mut String) -> (r: Result<
        ShouldExit,
        ShellError,
    >)
        requires
            old(context).wf(),
        ensures
            final(context).wf(),
            ({
                let (m, res) = complete_step(old(context).complete_command@, strs(args@));
                &&& final(context).complete_command@ == m
                &&& match res {
                    Ok(text) => final(out)@ == old(out)@ + text && r == Ok::<
                        ShouldExit,
                        ShellError,
                    >(ShouldExit::Continue),
                    Err(msg) => final(out)@ == old(out)@ && (r matches Err(e) && is_builtin_error(
                        e,
                        msg,
                    )),
                }
            }),
            final(context).env_vars == old(context).env_vars,
            final(context).cmd_cache == old(context).cmd_cache,
            final(context).builtin_names == old(context).builtin_names,
            final(context).background_jobs == old(context).background_jobs,
            final(context).history_entries == old(context).history_entries,
            final(context).request_clear_history == old(context).request_clear_history,
            final(context).request_load_history == old(context).request_load_history,
            final(context).request_write_history == old(context).request_write_history,
    {
        let ghost a = strs(args@);
        if args.len() >= 2 && str_eq(args[0].as_str(), "-p") {
            assert(a[0] == args@[0]@ && a[1] == args@[1]@);
            let name = args[1].as_str();
            match context.get_complete_command_path(name) {
                Some(path) => {
                    let t = concatenated("complete -C '", path.as_str());
                    let t = concatenated(t.as_str(), "' ");
                    let t = concatenated(t.as_str(), name);
                    let t = concatenated(t.as_str(), "\n");
                    push_str(out, t.as_str());
                    return Ok(ShouldExit::Continue);
                },
                None => {
                    let m = concatenated("complete: ", name);
                    let m = concatenated(m.as_str(), ": no completion specification");
                    return Err(ShellError::BuiltinError(m));
                },
            }
        }
        if args.len() >= 3 && str_eq(args[0].as_str(), "-C") {
            assert(a[0] == args@[0]@ && a[1] == args@[1]@ && a[2] == args@[2]@);
            if !args[1].as_str().is_empty() && !args[2].as_str().is_empty() {
                context.register_complete_command(args[2].as_str(), args[1].as_str());
            }
        }
        assert(old(out)@ + Seq::<char>::empty() =~= old(out)@);
        Ok(ShouldExit::Continue)
    }
}

/// Once `complete -C script name` has registered a script for `name` (both
/// not empty), `complete -p name` prints that registration back.
pub proof fn law_complete_registration_read_back(
    m: Map<Seq<char>, Seq<char>>,
    script: Seq<char>,
    name: Seq<char>,
)
    requires
        script.len() > 0,
        name.len() > 0,
    ensures
        ({
            let (m1, r1) = complete_step(m, seq!["-C"@, script, name]);
            let (m2, r2) = complete_step(m1, seq!["-p"@, name]);
            &&& r1 == Ok::<Seq<char>, Seq<char>>(seq![])
            &&& m2 == m1
            &&& r2 == Ok::<Seq<char>, Seq<char>>(
                "complete -C '"@ + script + "' "@ + name + "\n"@,
            )
        }),
{
    lemma_flags_differ();
    let args = seq!["-C"@, script, name];
    assert(args[0] == "-C"@);
}

proof fn lemma_flags_differ()
    ensures
        "-C"@ != "-p"@,
{
    reveal_strlit("-C");
    reveal_strlit("-p");
    assert(("-C"@)[1] == 'C');
    assert(("-p"@)[1] == 'p');
}

/// Asking for the script of a command that has none is an error that names
/// the command, and changes nothing; registering with an empty script or an
/// empty name changes nothing either; a later registration for a name
/// replaces an earlier one.
pub proof fn law_complete_registry_edges(
    m: Map<Seq<char>, Seq<char>>,
    s1: Seq<char>,
    s2: Seq<char>,
    name: Seq<char>,
)
    ensures
        !m.dom().contains(name) ==> complete_step(m, seq!["-p"@, name]) == (
            m,
            Err::<Seq<char>, Seq<char>>("complete: "@ + name + ": no completion specification"@),
        ),
        s1.len() == 0 || name.len() == 0 ==> complete_step(m, seq!["-C"@, s1, name]).0 == m,
        s1.len() > 0 && s2.len() > 0 && name.len() > 0 ==> complete_step(
            complete_step(m, seq!["-C"@, s1, name]).0,
            seq!["-C"@, s2, name],
        ).0[name] == s2,
{
    lemma_flags_differ();
    let a1 = seq!["-C"@, s1, name];
    let a2 = seq!["-C"@, s2, name];
    let p = seq!["-p"@, name];
    assert(a1[0] == "-C"@ && a1[1] == s1 && a1[2] == name);
    assert(a2[0] == "-C"@ && a2[1] == s2 && a2[2] == name);
    assert(p[0] == "-p"@ && p[1] == name);
}

} // verus!
