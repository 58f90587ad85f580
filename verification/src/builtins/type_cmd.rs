use vstd::prelude::*;

use crate::builtins::ShouldExit;
use crate::context::{env_path, ShellContext};
use crate::error::{is_builtin_error, ShellError};
use crate::resolver::{opt_string_view, resolution, spec_candidates};
use crate::text::{concatenated, contains_str, push_str, strs};

verus! {

/// `type`: tells for each argument whether it is a builtin, where its
/// executable is, or that it is not found.
pub struct TypeBuiltin;

/// The line `type` prints for `cmd`: a builtin, found at the path `found`,
/// or not found.
pub open spec fn type_line(cmd: Seq<char>, is_builtin: bool, found: Option<Seq<char>>) -> Seq<char> {
    if is_builtin {
        cmd + " is a shell builtin\n"@
    } else {
        match found {
            Some(p) => cmd + " is "@ + p + "\n"@,
            None => cmd + ": not found\n"@,
        }
    }
}

/// The text `type` prints for the first `n` arguments, `found[i]` being
/// where argument `i` was found.
pub open spec fn type_text(
    args: Seq<Seq<char>>,
    names: Seq<Seq<char>>,
    found: Seq<Option<Seq<char>>>,
    n: int,
) -> Seq<char>
    decreases n,
{
    if n <= 0 {
        seq![]
    } else {
        type_text(args, names, found, n - 1) + type_line(
            args[n - 1],
            names.contains(args[n - 1]),
            found[n - 1],
        )
    }
}

/// `found` is a possible account of the lookups of the arguments of `type`
/// with `probe`, starting from the cache `cache` and the search path `path`:
/// a builtin is not looked up; a command in the cache is found at its cached
/// path; another one is found by trying its candidate paths, or at the path
/// found for the same command earlier in the arguments.
pub open spec fn type_lookups<F: Fn(&str) -> bool>(
    probe: F,
    args: Seq<Seq<char>>,
    names: Seq<Seq<char>>,
    cache: Map<Seq<char>, Seq<char>>,
    path: Option<Seq<char>>,
    found: Seq<Option<Seq<char>>>,
    n: int,
) -> bool {
    &&& forall|i: int| 0 <= i < n && names.contains(#[trigger] args[i]) ==> found[i] is None
    &&& forall|i: int|
        0 <= i < n && !names.contains(#[trigger] args[i]) ==> {
            &&& cache.dom().contains(args[i]) ==> found[i] == Some(cache[args[i]])
            &&& !cache.dom().contains(args[i]) ==> (resolution(
                probe,
                spec_candidates(args[i], path),
                found[i],
            ) || exists|j: int| 0 <= j < i && args[j] == args[i] && found[j] is Some && found[i] == found[j])
        }
}

impl TypeBuiltin {
    /// The name the command is called by.
    pub fn name(&self) -> (n: &'static str)
        ensures
            n@ == "type"@,
    {
        "type"
    }

    /// Runs `type` on `args`, looking commands up with `resolve_cmd` and
    /// `probe`, and appending what it prints to `out`.
    pub fn execute<F: Fn(&str) -> bool>(
        &self,
        args: &[String],
        context: &mut ShellContext,
        probe: F,
        out: &mut String,
    ) -> (r: Result<ShouldExit, ShellError>)
        requires
            old(context).wf(),
            forall|s: &str| call_requires(probe, (s,)),
        ensures
            final(context).wf(),
            ShellContext::same_but_cache(final(context), old(context)),
            args@.len() == 0 ==> (r matches Err(e) && is_builtin_error(e, "type: missing operand"@))
                && final(out)@ == old(out)@,
            args@.len() > 0 ==> r == Ok::<ShouldExit, ShellError>(ShouldExit::Continue)
                && exists|found: Seq<Option<Seq<char>>>|
                found.len() == args@.len() && type_lookups(
                    probe,
                    strs(args@),
                    strs(old(context).builtin_names@),
                    old(context).cache(),
                    env_path(old(context).env_vars@),
                    found,
                    args@.len() as int,
                ) && final(out)@ == old(out)@ + type_text(
                    strs(args@),
                    strs(old(context).builtin_names@),
                    found,
                    args@.len() as int,
                ),
            args@.len() == 1 && strs(old(context).builtin_names@).contains(args@[0]@) ==> final(out)@
                == old(out)@ + args@[0]@ + " is a shell builtin\n"@,
    {
        if args.len() == 0 {
            return Err(ShellError::builtin_error("type: missing operand"));
        }
        let ghost a = strs(args@);
        let ghost names = strs(context.builtin_names@);
        let ghost cache0 = context.cache();
        let ghost path = env_path(context.env_vars@);
        let ghost base = out@;
        let ghost mut found: Seq<Option<Seq<char>>> = seq![];
        let mut i: usize = 0;
        while i < args.len()
            invariant
                i <= args@.len(),
                a == strs(args@),
                context.wf(),
                ShellContext::same_but_cache(context, old(context)),
                names == strs(old(context).builtin_names@),
                cache0 == old(context).cache(),
                path == env_path(old(context).env_vars@),
                forall|s: &str| call_requires(probe, (s,)),
                found.len() == i,
                forall|k: Seq<char>| #[trigger]
                    cache0.dom().contains(k) ==> context.cache().dom().contains(k)
                        && context.cache()[k] == cache0[k],
                forall|k: Seq<char>| #[trigger]
                    context.cache().dom().contains(k) && !cache0.dom().contains(k) ==> exists|j: int|
                        0 <= j < i && a[j] == k && found[j] == Some(context.cache()[k]),
                type_lookups(probe, a, names, cache0, path, found, i as int),
                out@ == base + type_text(a, names, found, i as int),
            decreases args@.len() - i,
        {
            let cmd = args[i].as_str();
            assert(a[i as int] == cmd@);
            let ghost before = context.cache();
            let ghost f0 = found;
            let ghost out0 = out@;
            if contains_str(context.builtin_names.as_slice(), cmd) {
                let l = concatenated(cmd, " is a shell builtin\n");
                push_str(out, l.as_str());
                proof {
                    found = found.push(None);
                    assert(names.contains(a[i as int]));
                    assert(l@ == type_line(a[i as int], names.contains(a[i as int]), found[i as int]));
                }
            } else {
                let r = context.resolve_cmd(cmd, &probe);
                assert(!names.contains(a[i as int]));
                match &r {
                    Some(p) => {
                        let l = concatenated(cmd, " is ");
                        let l = concatenated(l.as_str(), p.as_str());
                        let l = concatenated(l.as_str(), "\n");
                        push_str(out, l.as_str());
                        assert(out@ == out0 + type_line(a[i as int], false, opt_string_view(r)));
                    },
                    None => {
                        let l = concatenated(cmd, ": not found\n");
                        push_str(out, l.as_str());
                        assert(out@ == out0 + type_line(a[i as int], false, opt_string_view(r)));
                    },
                }
                proof {
                    let ghost old_found = found;
                    found = found.push(opt_string_view(r));
                    if before.dom().contains(cmd@) && !cache0.dom().contains(cmd@) {
                        let j = choose|j: int|
                            0 <= j < i && a[j] == cmd@ && old_found[j] == Some(before[cmd@]);
                        assert(found[j] == old_found[j]);
                    }
                    assert forall|k: Seq<char>| #[trigger]
                        context.cache().dom().contains(k) && !cache0.dom().contains(k) implies exists|j: int|
                        0 <= j < i + 1 && a[j] == k && found[j] == Some(context.cache()[k]) by {
                        if k != cmd@ || before.dom().contains(cmd@) {
                            let j = choose|j: int|
                                0 <= j < i && a[j] == k && old_found[j] == Some(before[k]);
                            assert(found[j] == old_found[j]);
                        } else {
                            assert(found[i as int] == Some(context.cache()[k]));
                        }
                    }
                }
            }
            proof {
                assert(found.drop_last() =~= f0);
                lemma_type_text_prefix(a, names, found, f0, i as int);
                assert(out@ =~= base + type_text(a, names, found, i + 1));
            }
            i = i + 1;
        }
        proof {
            if a.len() == 1 && names.contains(a[0]) {
                assert(type_text(a, names, found, 0) =~= Seq::<char>::empty());
                assert(type_text(a, names, found, 1) =~= a[0] + " is a shell builtin\n"@);
                assert(out@ =~= base + a[0] + " is a shell builtin\n"@);
            }
        }
        Ok(ShouldExit::Continue)
    }
}

proof fn lemma_type_text_prefix(
    a: Seq<Seq<char>>,
    names: Seq<Seq<char>>,
    f1: Seq<Option<Seq<char>>>,
    f2: Seq<Option<Seq<char>>>,
    n: int,
)
    requires
        forall|j: int| 0 <= j < n ==> f1[j] == f2[j],
    ensures
        type_text(a, names, f1, n) == type_text(a, names, f2, n),
    decreases n,
{
    if n > 0 {
        lemma_type_text_prefix(a, names, f1, f2, n - 1);
    }
}

/// A builtin is reported as such whatever a lookup along the search path
/// would find for its name: the line is `<name> is a shell builtin`.
pub proof fn law_builtin_line_ignores_lookup(cmd: Seq<char>, found: Option<Seq<char>>)
    ensures
        type_line(cmd, true, found) == cmd + " is a shell builtin\n"@,
{
}

/// What `type` prints does not depend on what a lookup would find for the
/// arguments that are builtins: two accounts of the lookups that agree on
/// the other arguments give the same text.
pub proof fn law_type_text_ignores_builtin_lookups(
    args: Seq<Seq<char>>,
    names: Seq<Seq<char>>,
    f1: Seq<Option<Seq<char>>>,
    f2: Seq<Option<Seq<char>>>,
    n: int,
)
    requires
        forall|j: int| 0 <= j < n && !names.contains(#[trigger] args[j]) ==> f1[j] == f2[j],
    ensures
        type_text(args, names, f1, n) == type_text(args, names, f2, n),
    decreases n,
{
    if n > 0 {
        law_type_text_ignores_builtin_lookups(args, names, f1, f2, n - 1);
        if names.contains(args[n - 1]) {
            law_builtin_line_ignores_lookup(args[n - 1], f1[n - 1]);
            law_builtin_line_ignores_lookup(args[n - 1], f2[n - 1]);
        }
    }
}

} // verus!
