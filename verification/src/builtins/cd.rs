use vstd::prelude::*;

use crate::builtins::ShouldExit;
use crate::context::ShellContext;
use crate::error::{is_builtin_error, ShellError};
use crate::resolver::{path_join, spec_path_join};
use crate::text::{chars_of, concatenated, owned, string_of, strs};

verus! {

/// `cd`: changes the working directory.
pub struct CdBuiltin;

/// What happened when the shell tried to enter a directory.
pub enum DirChange {
    /// The working directory is now that directory.
    Changed,
    /// The path does not name a directory.
    NotADirectory,
    /// Changing the directory failed, for the reason given.
    Failed(String),
}

/// `s` without its leading slashes (`trim_start_matches('/')`).
pub open spec fn trim_leading_slashes(s: Seq<char>) -> Seq<char>
    decreases s.len(),
{
    if s.len() > 0 && s[0] == '/' {
        trim_leading_slashes(s.skip(1))
    } else {
        s
    }
}

/// The home directory: `HOME` if it is set, else `/`.
pub open spec fn home_dir(env: Map<Seq<char>, Seq<char>>) -> Seq<char> {
    if env.dom().contains("HOME"@) {
        env["HOME"@]
    } else {
        "/"@
    }
}

/// The directory `cd` goes to: the home directory with no argument; for a
/// first argument that starts with `~`, what follows the `~` (without its
/// leading slashes) taken inside the home directory; else the first argument.
pub open spec fn cd_target(args: Seq<Seq<char>>, env: Map<Seq<char>, Seq<char>>) -> Seq<char> {
    if args.len() == 0 {
        home_dir(env)
    } else if args[0].len() > 0 && args[0][0] == '~' {
        spec_path_join(home_dir(env), trim_leading_slashes(args[0].skip(1)))
    } else {
        args[0]
    }
}

/// What `cd` reports for the target `t` after trying to enter it with outcome `d`.
pub open spec fn cd_outcome(t: Seq<char>, d: DirChange) -> Option<Seq<char>> {
    match d {
        DirChange::Changed => None,
        DirChange::NotADirectory => Some("cd: "@ + t + ": No such file or directory"@),
        DirChange::Failed(e) => Some("cd: "@ + t + ": "@ + e@),
    }
}

fn trim_slashes(s: &[char]) -> (r: String)
    ensures
        r@ == trim_leading_slashes(s@),
{
    let mut i: usize = 0;
    assert(s@.skip(0) =~= s@);
    while i < s.len() && s[i] == '/'
        invariant
            i <= s@.len(),
            trim_leading_slashes(s@) == trim_leading_slashes(s@.skip(i as int)),
        decreases s@.len() - i,
    {
        assert(s@.skip(i as int).skip(1) =~= s@.skip(i + 1));
        i = i + 1;
    }
    string_of(&s[i..s.len()])
}

impl CdBuiltin {
    /// The name the command is called by.
    pub fn name(&self) -> (n: &'static str)
        ensures
            n@ == "cd"@,
    {
        "cd"
    }

    /// The directory `cd` with these arguments goes to.
    pub fn target(&self, args: &[String], context: &ShellContext) -> (t: String)
        requires
            context.wf(),
        ensures
            t@ == cd_target(strs(args@), context.env_vars@),
            args@.len() == 0 ==> t@ == home_dir(context.env_vars@),
            args@.len() > 0 && !(args@[0]@.len() > 0 && args@[0]@[0] == '~') ==> t@ == args@[0]@,
    {
        let home = match context.env_vars.get("HOME") {
            Some(h) => h.clone(),
            None => owned("/"),
        };
        if args.len() == 0 {
            return home;
        }
        assert(strs(args@)[0] == args@[0]@);
        let first = chars_of(args[0].as_str());
        if first.len() > 0 && first[0] == '~' {
            let rest = trim_slashes(&first.as_slice()[1..first.len()]);
            assert(first@.subrange(1, first@.len() as int) =~= first@.skip(1));
            path_join(home.as_str(), rest.as_str())
        } else {
            args[0].clone()
        }
    }

    /// What `cd` answers once entering `target` had the outcome `d`: nothing
    /// for a change, else the error for that outcome.
    pub fn finish(&self, target: &str, d: DirChange) -> (r: Result<ShouldExit, ShellError>)
        ensures
            match cd_outcome(target@, d) {
                None => r == Ok::<ShouldExit, ShellError>(ShouldExit::Continue),
                Some(m) => r matches Err(e) && is_builtin_error(e, m),
            },
    {
        match &d {
            DirChange::Changed => Ok(ShouldExit::Continue),
            DirChange::NotADirectory => {
                let m = concatenated("cd: ", target);
                let m = concatenated(m.as_str(), ": No such file or directory");
                Err(ShellError::BuiltinError(m))
            },
            DirChange::Failed(e) => {
                let m = concatenated("cd: ", target);
                let m = concatenated(m.as_str(), ": ");
                let m = concatenated(m.as_str(), e.as_str());
                Err(ShellError::BuiltinError(m))
            },
        }
    }

    /// Goes to the directory `target` names: `enter`, called once with the
    /// target, checks that it is a directory and makes it the working
    /// directory; `cd` answers from its outcome (see `finish`).
    pub fn execute<F: FnOnce(&str) -> DirChange>(
        &self,
        args: &[String],
        context: &ShellContext,
        enter: F,
    ) -> (r: Result<ShouldExit, ShellError>)
        requires
            context.wf(),
            forall|s: &str| call_requires(enter, (s,)),
        ensures
            args@.len() > 0 && !(args@[0]@.len() > 0 && args@[0]@[0] == '~') ==> cd_target(
                strs(args@),
                context.env_vars@,
            ) == args@[0]@,
            exists|s: &str, d: DirChange|
                s@ == cd_target(strs(args@), context.env_vars@) && call_ensures(enter, (s,), d)
                    && match cd_outcome(s@, d) {
                    None => r == Ok::<ShouldExit, ShellError>(ShouldExit::Continue),
                    Some(m) => r matches Err(e) && is_builtin_error(e, m),
                },
    {
        let target = self.target(args, context);
        if args.len() > 0 {
            assert(strs(args@)[0] == args@[0]@);
        }
        let t = target.as_str();
        let d = enter(t);
        assert(call_ensures(enter, (t,), d));
        self.finish(t, d)
    }
}

/// A first argument that does not start with `~` is the directory `cd` goes
/// to, unchanged, whatever the environment: a relative path stays relative
/// to the working directory, it is not taken inside the home directory.
pub proof fn law_cd_plain_argument_is_target(args: Seq<Seq<char>>, env: Map<Seq<char>, Seq<char>>)
    requires
        args.len() > 0,
        !(args[0].len() > 0 && args[0][0] == '~'),
    ensures
        cd_target(args, env) == args[0],
{
}

/// Where `cd` goes with a first argument that does not start with `~` does
/// not depend on the environment (`HOME` among it).
pub proof fn law_cd_plain_target_ignores_home(
    args: Seq<Seq<char>>,
    e1: Map<Seq<char>, Seq<char>>,
    e2: Map<Seq<char>, Seq<char>>,
)
    requires
        args.len() > 0,
        !(args[0].len() > 0 && args[0][0] == '~'),
    ensures
        cd_target(args, e1) == cd_target(args, e2),
{
    law_cd_plain_argument_is_target(args, e1);
    law_cd_plain_argument_is_target(args, e2);
}

} // verus!
