use vstd::prelude::*;

use crate::builtins::ShouldExit;
use crate::context::{finished_ids, job_views, kept_jobs, report_lines, JobStatus, ShellContext};
use crate::text::{lines_text, push_lines};

verus! {

/// `jobs`: lists the background jobs and forgets those that ended.
pub struct JobsBuiltin;

impl JobsBuiltin {
    /// The name the command is called by.
    pub fn name(&self) -> (n: &'static str)
        ensures
            n@ == "jobs"@,
    {
        "jobs"
    }

    /// Lists the background jobs into `out` (see `print_background_jobs`),
    /// `statuses` holding what checking each job's process found, then drops
    /// the jobs that ended.
    pub fn execute(&self, context: &mut ShellContext, statuses: &[JobStatus], out: &mut String) -> (r:
        ShouldExit)
        requires
            statuses@.len() == old(context).background_jobs@.len(),
        ensures
            r == ShouldExit::Continue,
            final(out)@ == old(out)@ + lines_text(
                report_lines(
                    job_views(old(context).background_jobs@),
                    statuses@,
                    true,
                    statuses@.len() as int,
                ),
            ),
            job_views(final(context).background_jobs@) == kept_jobs(
                job_views(old(context).background_jobs@),
                finished_ids(
                    job_views(old(context).background_jobs@),
                    statuses@,
                    statuses@.len() as int,
                ),
            ),
            final(context).env_vars == old(context).env_vars,
            final(context).cmd_cache == old(context).cmd_cache,
            final(context).complete_command == old(context).complete_command,
            final(context).builtin_names == old(context).builtin_names,
            final(context).history_entries == old(context).history_entries,
            final(context).request_clear_history == old(context).request_clear_history,
            final(context).request_load_history == old(context).request_load_history,
            final(context).request_write_history == old(context).request_write_history,
    {
        let report = context.print_background_jobs(statuses);
        push_lines(out, report.lines.as_slice());
        ShouldExit::Continue
    }
}

} // verus!
