use vstd::prelude::*;

use crate::builtins::ShouldExit;
use crate::context::{job_views, ShellContext};
use crate::error::ShellError;
use crate::resolver::opt_string_view;
use crate::text::{
    concatenated, decimal, decimal_string, pad_left, parse_usize, push_str, spec_pad_left,
    spec_parse_usize, str_eq, strs,
};

verus! {

/// `history`: shows the command history, or asks the shell to clear it
/// (`-c`), to load it from a file (`-r file`) or to write it to a file
/// (`-w file`).
pub struct HistoryBuiltin;

/// The index of the first entry `history` shows out of `total`: all of them
/// with no number, none for `0`, the last `n` for `n`.
pub open spec fn history_start(total: nat, count: Option<usize>) -> nat {
    match count {
        Some(n) => if n == 0 {
            total
        } else if n >= total {
            0
        } else {
            (total - n) as nat
        },
        None => 0,
    }
}

/// The line shown for entry `k` (numbered from 1, right-aligned in 5 columns).
pub open spec fn history_line(k: nat, entry: Seq<char>) -> Seq<char> {
    spec_pad_left(decimal(k + 1), 5) + "  "@ + entry + "\n"@
}

/// The lines for entries `start` up to (not including) `end`.
pub open spec fn history_lines(entries: Seq<Seq<char>>, start: nat, end: int) -> Seq<char>
    decreases end - start,
{
    if end <= start {
        seq![]
    } else {
        history_lines(entries, start, end - 1) + history_line((end - 1) as nat, entries[end - 1])
    }
}

/// The text `history` prints for `args` over `entries`, when its first
/// argument is none of `-c`, `-r`, `-w`.
pub open spec fn history_listing(entries: Seq<Seq<char>>, args: Seq<Seq<char>>) -> Seq<char> {
    let count = if args.len() > 0 {
        spec_parse_usize(args[0])
    } else {
        None
    };
    history_lines(entries, history_start(entries.len(), count), entries.len() as int)
}

impl HistoryBuiltin {
    /// The name the command is called by.
    pub fn name(&self) -> (n: &'static str)
        ensures
            n@ == "history"@,
    {
        "history"
    }

    /// Runs `history` with `args`, appending what it prints to `out`.
    pub fn execute(&self, args: &[String], context: &mut ShellContext, out: &mut String) -> (r: Result<
        ShouldExit,
        ShellError,
    >)
        ensures
            r == Ok::<ShouldExit, ShellError>(ShouldExit::Continue),
            final(context).env_vars == old(context).env_vars,
            final(context).cmd_cache == old(context).cmd_cache,
            final(context).complete_command == old(context).complete_command,
            final(context).builtin_names == old(context).builtin_names,
            final(context).background_jobs == old(context).background_jobs,
            final(context).history_entries == old(context).history_entries,
            ({
                let a = strs(args@);
                let first = if a.len() > 0 {
                    Some(a[0])
                } else {
                    None
                };
                if first == Some("-c"@) {
                    &&& final(context).request_clear_history
                    &&& final(context).request_load_history == old(context).request_load_history
                    &&& final(context).request_write_history == old(
                        context,
                    ).request_write_history
                    &&& final(out)@ == old(out)@
                } else if first == Some("-r"@) {
                    &&& final(context).request_clear_history == old(
                        context,
                    ).request_clear_history
                    &&& final(context).request_write_history == old(
                        context,
                    ).request_write_history
                    &&& if a.len() > 1 {
                        &&& opt_string_view(final(context).request_load_history) == Some(a[1])
                        &&& final(out)@ == old(out)@
                    } else {
                        &&& final(context).request_load_history == old(
                            context,
                        ).request_load_history
                        &&& final(out)@ == old(out)@
                            + "history: -r requires a file path argument\n"@
                    }
                } else if first == Some("-w"@) {
                    &&& final(context).request_clear_history == old(
                        context,
                    ).request_clear_history
                    &&& final(context).request_load_history == old(context).request_load_history
                    &&& if a.len() > 1 {
                        &&& opt_string_view(final(context).request_write_history) == Some(a[1])
                        &&& final(out)@ == old(out)@
                    } else {
                        &&& final(context).request_write_history == old(
                            context,
                        ).request_write_history
                        &&& final(out)@ == old(out)@
                            + "history: -w requires a file path argument\n"@
                    }
                } else {
                    &&& final(context).request_clear_history == old(
                        context,
                    ).request_clear_history
                    &&& final(context).request_load_history == old(context).request_load_history
                    &&& final(context).request_write_history == old(
                        context,
                    ).request_write_history
                    &&& final(out)@ == old(out)@ + history_listing(
                        strs(old(context).history_entries@),
                        a,
                    )
                }
            }),
    {
        let ghost a = strs(args@);
        if args.len() > 0 {
            assert(a[0] == args@[0]@);
            if str_eq(args[0].as_str(), "-c") {
                context.request_clear_history = true;
                return Ok(ShouldExit::Continue);
            }
            if str_eq(args[0].as_str(), "-r") {
                if args.len() > 1 {
                    assert(a[1] == args@[1]@);
                    context.request_load_history = Some(args[1].clone());
                } else {
                    push_str(out, "history: -r requires a file path argument\n");
                }
                return Ok(ShouldExit::Continue);
            }
            if str_eq(args[0].as_str(), "-w") {
                if args.len() > 1 {
                    assert(a[1] == args@[1]@);
                    context.request_write_history = Some(args[1].clone());
                } else {
                    push_str(out, "history: -w requires a file path argument\n");
                }
                return Ok(ShouldExit::Continue);
            }
        }
        let entries = &context.history_entries;
        let ghost e = strs(entries@);
        let total = entries.len();
        let count = if args.len() > 0 {
            parse_usize(args[0].as_str())
        } else {
            None
        };
        let start: usize = match count {
            Some(n) => if n == 0 {
                total
            } else if n >= total {
                0
            } else {
                total - n
            },
            None => 0,
        };
        assert(start == history_start(total as nat, count));
        let mut k = start;
        let ghost base = out@;
        while k < total
            invariant
                start <= k <= total,
                total == entries@.len(),
                e == strs(entries@),
                out@ == base + history_lines(e, start as nat, k as int),
            decreases total - k,
        {
            let num = decimal_string(k + 1);
            let num = pad_left(num.as_str(), 5);
            let line = concatenated(num.as_str(), "  ");
            let line = concatenated(line.as_str(), entries[k].as_str());
            let line = concatenated(line.as_str(), "\n");
            assert(e[k as int] == entries@[k as int]@);
            assert(line@ == history_line(k as nat, e[k as int]));
            push_str(out, line.as_str());
            assert(out@ =~= base + history_lines(e, start as nat, k + 1));
            k = k + 1;
        }
        Ok(ShouldExit::Continue)
    }
}

/// With no count every entry is shown; with `0` none; with `n` the last `n`,
/// or all of them when there are fewer.
pub proof fn law_history_count(total: nat, n: usize)
    ensures
        history_start(total, None) == 0,
        n == 0 ==> history_start(total, Some(n)) == total,
        n > 0 ==> history_start(total, Some(n)) <= total && total - history_start(total, Some(n))
            == (if n < total {
            n as nat
        } else {
            total
        }),
{
}

/// The lines of a listing are numbered one after another: the listing from
/// entry `start` is the line of entry `start`, numbered `start + 1`, then the
/// listing from `start + 1`.
pub proof fn law_history_lines_in_order(entries: Seq<Seq<char>>, start: nat, end: int)
    requires
        start < end,
    ensures
        history_lines(entries, start, end) == history_line(start, entries[start as int])
            + history_lines(entries, start + 1, end),
    decreases end - start,
{
    if end - 1 > start {
        law_history_lines_in_order(entries, start, end - 1);
        assert(history_lines(entries, start, end) =~= history_line(start, entries[start as int])
            + history_lines(entries, start + 1, end));
    } else {
        assert(history_lines(entries, start, end - 1) =~= Seq::<char>::empty());
        assert(history_lines(entries, start + 1, end) =~= Seq::<char>::empty());
        assert(history_lines(entries, start, end) =~= history_line(start, entries[start as int]));
    }
}

} // verus!
