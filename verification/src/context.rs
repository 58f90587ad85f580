use vstd::prelude::*;

use crate::resolver::{opt_string_view, resolution, resolve_path, spec_candidates};
use crate::strmap::StrMap;
use crate::text::{
    concatenated, decimal, decimal_string, join_strs, owned, pad_right, spec_join, spec_pad_right, strs,
};

verus! {

/// A command started in the background.
pub struct Job {
    /// The job number shown to the user.
    pub id: usize,
    /// The command line of the job, rebuilt from its words.
    pub command: String,
}

impl View for Job {
    type V = (usize, Seq<char>);

    open spec fn view(&self) -> (usize, Seq<char>) {
        (self.id, self.command@)
    }
}

/// The views of a sequence of jobs.
pub open spec fn job_views(v: Seq<Job>) -> Seq<(usize, Seq<char>)> {
    v.map_values(|j: Job| j@)
}

/// What checking a job's process for termination found.
#[derive(Clone, Copy, PartialEq, Eq, Structural, Debug)]
pub enum JobStatus {
    /// The process has exited.
    Exited,
    /// The process is still running.
    Running,
    /// Checking the process failed; the job counts as done.
    CheckFailed,
}

/// The text of a job listing: the lines to print and the ids of the jobs
/// found done, which leave the list.
pub struct JobReport {
    pub lines: Vec<String>,
    pub finished: Vec<usize>,
}

/// The marker of the job at index `i` of `len` jobs: `+` for the last one,
/// `-` for the one before it, a space for the others.
pub open spec fn job_marker(i: int, len: int) -> Seq<char> {
    if i == len - 1 {
        "+"@
    } else if i == len - 2 {
        "-"@
    } else {
        " "@
    }
}

/// A line of a job listing (`"[{id}]{marker}  {state:<24}{command}{tail}"`).
pub open spec fn job_line(
    id: usize,
    marker: Seq<char>,
    state: Seq<char>,
    command: Seq<char>,
    tail: Seq<char>,
) -> Seq<char> {
    "["@ + decimal(id as nat) + "]"@ + marker + "  "@ + spec_pad_right(state, 24) + command + tail
}

/// The line shown for job `i`, if any: `Done` for a job that ended,
/// `Running ... &` for one still running when running jobs are shown.
pub open spec fn report_entry(
    jobs: Seq<(usize, Seq<char>)>,
    statuses: Seq<JobStatus>,
    show_running: bool,
    i: int,
) -> Option<Seq<char>> {
    let m = job_marker(i, jobs.len() as int);
    match statuses[i] {
        JobStatus::Running => if show_running {
            Some(job_line(jobs[i].0, m, "Running"@, jobs[i].1, " &"@))
        } else {
            None
        },
        _ => Some(job_line(jobs[i].0, m, "Done"@, jobs[i].1, Seq::<char>::empty())),
    }
}

/// The lines shown for the first `n` jobs, in order.
pub open spec fn report_lines(
    jobs: Seq<(usize, Seq<char>)>,
    statuses: Seq<JobStatus>,
    show_running: bool,
    n: int,
) -> Seq<Seq<char>>
    decreases n,
{
    if n <= 0 {
        seq![]
    } else {
        report_lines(jobs, statuses, show_running, n - 1) + match report_entry(
            jobs,
            statuses,
            show_running,
            n - 1,
        ) {
            Some(l) => seq![l],
            None => seq![],
        }
    }
}

/// The ids of the jobs among the first `n` that are done, in order.
pub open spec fn finished_ids(jobs: Seq<(usize, Seq<char>)>, statuses: Seq<JobStatus>, n: int) -> Seq<
    usize,
>
    decreases n,
{
    if n <= 0 {
        seq![]
    } else {
        finished_ids(jobs, statuses, n - 1) + if statuses[n - 1] == JobStatus::Running {
            Seq::<usize>::empty()
        } else {
            seq![jobs[n - 1].0]
        }
    }
}

/// The jobs of `jobs` whose id is not in `ids`, in order.
pub open spec fn kept_jobs(jobs: Seq<(usize, Seq<char>)>, ids: Seq<usize>) -> Seq<(usize, Seq<char>)>
    decreases jobs.len(),
{
    if jobs.len() == 0 {
        seq![]
    } else {
        kept_jobs(jobs.drop_last(), ids) + if ids.contains(jobs.last().0) {
            Seq::<(usize, Seq<char>)>::empty()
        } else {
            seq![jobs.last()]
        }
    }
}

/// The map that setting each pair of `ps` in turn makes; a later pair wins.
pub open spec fn env_map(ps: Seq<(Seq<char>, Seq<char>)>) -> Map<Seq<char>, Seq<char>>
    decreases ps.len(),
{
    if ps.len() == 0 {
        Map::empty()
    } else {
        env_map(ps.drop_last()).insert(ps.last().0, ps.last().1)
    }
}

/// The value of `PATH` in the environment `env`, if set.
pub open spec fn env_path(env: Map<Seq<char>, Seq<char>>) -> Option<Seq<char>> {
    if env.dom().contains("PATH"@) {
        Some(env["PATH"@])
    } else {
        None
    }
}

/// The text recorded for a background job: its name, a space, and its
/// arguments separated by spaces.
pub open spec fn spec_job_command_text(name: Seq<char>, args: Seq<Seq<char>>) -> Seq<char> {
    name + " "@ + spec_join(args, " "@)
}

/// The text recorded for a background job (`format!("{} {}", name, args.join(" "))`).
pub fn job_command_text(name: &str, args: &[String]) -> (res: String)
    ensures
        res@ == spec_job_command_text(name@, strs(args@)),
{
    let joined = join_strs(args, " ");
    let head = concatenated(name, " ");
    concatenated(head.as_str(), joined.as_str())
}

/// The state of the shell that builtins read and change.
pub struct ShellContext {
    /// The environment variables.
    pub env_vars: StrMap,
    /// Commands already looked up, with the path they were found at.
    pub cmd_cache: StrMap,
    /// The names of the builtin commands, for `type`.
    pub builtin_names: Vec<String>,
    /// Completion scripts registered per command.
    pub complete_command: StrMap,
    /// The jobs started in the background.
    pub background_jobs: Vec<Job>,
    /// The history, as last synchronized from the line editor.
    pub history_entries: Vec<String>,
    /// `history -c` asked for the history to be cleared.
    pub request_clear_history: bool,
    /// `history -r` asked for the history to be loaded from this file.
    pub request_load_history: Option<String>,
    /// `history -w` asked for the history to be written to this file.
    pub request_write_history: Option<String>,
}

impl ShellContext {
    /// The maps of the context are well formed.
    pub open spec fn wf(&self) -> bool {
        &&& self.env_vars.wf()
        &&& self.cmd_cache.wf()
        &&& self.complete_command.wf()
    }

    /// The cache of resolved commands.
    pub open spec fn cache(&self) -> Map<Seq<char>, Seq<char>> {
        self.cmd_cache@
    }

    /// `a` and `b` agree on everything but the command cache.
    pub open spec fn same_but_cache(a: &ShellContext, b: &ShellContext) -> bool {
        &&& a.env_vars@ == b.env_vars@
        &&& strs(a.builtin_names@) == strs(b.builtin_names@)
        &&& a.complete_command@ == b.complete_command@
        &&& job_views(a.background_jobs@) == job_views(b.background_jobs@)
        &&& strs(a.history_entries@) == strs(b.history_entries@)
        &&& a.request_clear_history == b.request_clear_history
        &&& opt_string_view(a.request_load_history) == opt_string_view(b.request_load_history)
        &&& opt_string_view(a.request_write_history) == opt_string_view(b.request_write_history)
    }

    /// A context over the environment `env` (each pair a variable and its
    /// value; a later pair wins), with nothing else recorded yet.
    pub fn new(env: Vec<(String, String)>) -> (c: ShellContext)
        ensures
            c.wf(),
            c.env_vars@ == env_map(env@.map_values(|p: (String, String)| (p.0@, p.1@))),
            c.cache() == Map::<Seq<char>, Seq<char>>::empty(),
            c.builtin_names@.len() == 0,
            c.complete_command@ == Map::<Seq<char>, Seq<char>>::empty(),
            c.background_jobs@.len() == 0,
            c.history_entries@.len() == 0,
            !c.request_clear_history,
            c.request_load_history is None,
            c.request_write_history is None,
    {
        let ghost ps = env@.map_values(|p: (String, String)| (p.0@, p.1@));
        let mut vars = StrMap::new();
        let mut i: usize = 0;
        assert(ps.take(0) =~= Seq::<(Seq<char>, Seq<char>)>::empty());
        while i < env.len()
            invariant
                i <= env@.len(),
                ps == env@.map_values(|p: (String, String)| (p.0@, p.1@)),
                vars.wf(),
                vars@ == env_map(ps.take(i as int)),
            decreases env@.len() - i,
        {
            let k = env[i].0.clone();
            let v = env[i].1.clone();
            assert(ps.take(i + 1).drop_last() =~= ps.take(i as int));
            assert(ps[i as int] == (k@, v@));
            vars.insert(k, v);
            i = i + 1;
        }
        assert(ps.take(env@.len() as int) =~= ps);
        ShellContext {
            env_vars: vars,
            cmd_cache: StrMap::new(),
            builtin_names: Vec::new(),
            complete_command: StrMap::new(),
            background_jobs: Vec::new(),
            history_entries: Vec::new(),
            request_clear_history: false,
            request_load_history: None,
            request_write_history: None,
        }
    }

    /// Finds the executable for `cmd`: from the cache when it was found
    /// before, else by trying its candidate paths under `PATH` with `probe`
    /// (see `resolve_path`), recording what was found in the cache.
    pub fn resolve_cmd<F: Fn(&str) -> bool>(&mut self, cmd: &str, probe: F) -> (res: Option<String>)
        requires
            old(self).wf(),
            forall|s: &str| call_requires(probe, (s,)),
        ensures
            final(self).wf(),
            ShellContext::same_but_cache(final(self), old(self)),
            old(self).cache().dom().contains(cmd@) ==> (res matches Some(p) && p@ == old(
                self,
            ).cache()[cmd@] && final(self).cache() == old(self).cache()),
            !old(self).cache().dom().contains(cmd@) ==> resolution(
                probe,
                spec_candidates(cmd@, env_path(old(self).env_vars@)),
                opt_string_view(res),
            ) && final(self).cache() == match res {
                Some(p) => old(self).cache().insert(cmd@, p@),
                None => old(self).cache(),
            },
    {
        match self.cmd_cache.get(cmd) {
            Some(p) => {
                return Some(p.clone());
            },
            None => {},
        }
        let r = match self.env_vars.get("PATH") {
            Some(p) => resolve_path(cmd, Some(p.as_str()), probe),
            None => resolve_path(cmd, None, probe),
        };
        match &r {
            Some(p) => {
                self.cmd_cache.insert(owned(cmd), p.clone());
            },
            None => {},
        }
        r
    }

    /// Records `name` as the name of a builtin command.
    pub fn register_builtin_name(&mut self, name: &str)
        ensures
            strs(final(self).builtin_names@) == strs(old(self).builtin_names@).push(name@),
            final(self).env_vars == old(self).env_vars,
            final(self).cmd_cache == old(self).cmd_cache,
            final(self).complete_command == old(self).complete_command,
            final(self).background_jobs == old(self).background_jobs,
            final(self).history_entries == old(self).history_entries,
            final(self).request_clear_history == old(self).request_clear_history,
            final(self).request_load_history == old(self).request_load_history,
            final(self).request_write_history == old(self).request_write_history,
    {
        let s = owned(name);
        assert(strs(self.builtin_names@.push(s)) =~= strs(self.builtin_names@).push(name@));
        self.builtin_names.push(s);
    }

    /// Records `path` as the completion script of `command`.
    pub fn register_complete_command(&mut self, command: &str, path: &str)
        requires
            old(self).wf(),
        ensures
            final(self).wf(),
            final(self).complete_command@ == old(self).complete_command@.insert(command@, path@),
            final(self).env_vars == old(self).env_vars,
            final(self).cmd_cache == old(self).cmd_cache,
            final(self).builtin_names == old(self).builtin_names,
            final(self).background_jobs == old(self).background_jobs,
            final(self).history_entries == old(self).history_entries,
            final(self).request_clear_history == old(self).request_clear_history,
            final(self).request_load_history == old(self).request_load_history,
            final(self).request_write_history == old(self).request_write_history,
    {
        self.complete_command.insert(owned(command), owned(path));
    }

    /// The completion script registered for `command`, if any.
    pub fn get_complete_command_path(&self, command: &str) -> (res: Option<String>)
        requires
            self.wf(),
        ensures
            match res {
                Some(p) => self.complete_command@.dom().contains(command@)
                    && self.complete_command@[command@] == p@,
                None => !self.complete_command@.dom().contains(command@),
            },
    {
        match self.complete_command.get(command) {
            Some(p) => Some(p.clone()),
            None => None,
        }
    }

    /// Forgets the completion script of `command`.
    pub fn remove_complete_command(&mut self, command: &str)
        requires
            old(self).wf(),
        ensures
            final(self).wf(),
            final(self).complete_command@ == old(self).complete_command@.remove(command@),
            final(self).env_vars == old(self).env_vars,
            final(self).cmd_cache == old(self).cmd_cache,
            final(self).builtin_names == old(self).builtin_names,
            final(self).background_jobs == old(self).background_jobs,
            final(self).history_entries == old(self).history_entries,
            final(self).request_clear_history == old(self).request_clear_history,
            final(self).request_load_history == old(self).request_load_history,
            final(self).request_write_history == old(self).request_write_history,
    {
        self.complete_command.remove(command);
    }

    /// The number the next background job gets.
    pub fn next_job_id(&self) -> (id: usize)
        requires
            self.background_jobs@.len() < usize::MAX,
        ensures
            id == self.background_jobs@.len() + 1,
    {
        self.background_jobs.len() + 1
    }

    /// Adds a job to the background jobs.
    pub fn add_background_job(&mut self, job: Job)
        ensures
            job_views(final(self).background_jobs@) == job_views(old(self).background_jobs@).push(
                job@,
            ),
            final(self).env_vars == old(self).env_vars,
            final(self).cmd_cache == old(self).cmd_cache,
            final(self).complete_command == old(self).complete_command,
            final(self).builtin_names == old(self).builtin_names,
            final(self).history_entries == old(self).history_entries,
            final(self).request_clear_history == old(self).request_clear_history,
            final(self).request_load_history == old(self).request_load_history,
            final(self).request_write_history == old(self).request_write_history,
    {
        let ghost v = job@;
        assert(job_views(self.background_jobs@.push(job)) =~= job_views(self.background_jobs@).push(
            v,
        ));
        self.background_jobs.push(job);
    }

    fn job_report(&self, statuses: &[JobStatus], show_running: bool) -> (r: JobReport)
        requires
            statuses@.len() == self.background_jobs@.len(),
        ensures
            strs(r.lines@) == report_lines(
                job_views(self.background_jobs@),
                statuses@,
                show_running,
                statuses@.len() as int,
            ),
            r.finished@ == finished_ids(
                job_views(self.background_jobs@),
                statuses@,
                statuses@.len() as int,
            ),
    {
        let jobs = &self.background_jobs;
        let ghost jv = job_views(jobs@);
        let len = jobs.len();
        let mut lines: Vec<String> = Vec::new();
        let mut finished: Vec<usize> = Vec::new();
        let mut i: usize = 0;
        assert(strs(lines@) =~= Seq::<Seq<char>>::empty());
        while i < len
            invariant
                len == jobs@.len(),
                len == statuses@.len(),
                jv == job_views(jobs@),
                i <= len,
                strs(lines@) == report_lines(jv, statuses@, show_running, i as int),
                finished@ == finished_ids(jv, statuses@, i as int),
            decreases len - i,
        {
            let marker = if i == len - 1 {
                "+"
            } else if i == len - 2 {
                "-"
            } else {
                " "
            };
            let job = &jobs[i];
            assert(jv[i as int] == (job.id, job.command@));
            let head = concatenated("[", decimal_string(job.id).as_str());
            let head = concatenated(head.as_str(), "]");
            let head = concatenated(head.as_str(), marker);
            let head = concatenated(head.as_str(), "  ");
            match statuses[i] {
                JobStatus::Running => {
                    if show_running {
                        let state = pad_right("Running", 24);
                        let l = concatenated(head.as_str(), state.as_str());
                        let l = concatenated(l.as_str(), job.command.as_str());
                        let l = concatenated(l.as_str(), " &");
                        assert(l@ == job_line(job.id, job_marker(i as int, len as int), "Running"@, job.command@, " &"@));
                        assert(strs(lines@.push(l)) =~= strs(lines@) + seq![l@]);
                        lines.push(l);
                    } else {
                        assert(strs(lines@) =~= strs(lines@) + Seq::<Seq<char>>::empty());
                    }
                    assert(finished@ =~= finished@ + Seq::<usize>::empty());
                },
                _ => {
                    let state = pad_right("Done", 24);
                    let l = concatenated(head.as_str(), state.as_str());
                    let l = concatenated(l.as_str(), job.command.as_str());
                    assert(l@ =~= job_line(job.id, job_marker(i as int, len as int), "Done"@, job.command@, Seq::<char>::empty()));
                    assert(strs(lines@.push(l)) =~= strs(lines@) + seq![l@]);
                    lines.push(l);
                    assert(finished@.push(job.id) =~= finished@ + seq![job.id]);
                    finished.push(job.id);
                },
            }
            i = i + 1;
        }
        JobReport { lines, finished }
    }

    /// Lists all background jobs (`jobs`) and forgets those that ended: a
    /// `Done` line for each job that ended and a `Running ... &` line for each
    /// job still running, then every job whose id is among the finished ones
    /// leaves the list. `statuses` holds what checking each job's process
    /// found, in order.
    pub fn print_background_jobs(&mut self, statuses: &[JobStatus]) -> (r: JobReport)
        requires
            statuses@.len() == old(self).background_jobs@.len(),
        ensures
            strs(r.lines@) == report_lines(
                job_views(old(self).background_jobs@),
                statuses@,
                true,
                statuses@.len() as int,
            ),
            r.finished@ == finished_ids(
                job_views(old(self).background_jobs@),
                statuses@,
                statuses@.len() as int,
            ),
            job_views(final(self).background_jobs@) == kept_jobs(
                job_views(old(self).background_jobs@),
                r.finished@,
            ),
            final(self).env_vars == old(self).env_vars,
            final(self).cmd_cache == old(self).cmd_cache,
            final(self).complete_command == old(self).complete_command,
            final(self).builtin_names == old(self).builtin_names,
            final(self).history_entries == old(self).history_entries,
            final(self).request_clear_history == old(self).request_clear_history,
            final(self).request_load_history == old(self).request_load_history,
            final(self).request_write_history == old(self).request_write_history,
    {
        let report = self.job_report(statuses, true);
        self.retire_jobs(report.finished.as_slice());
        report
    }

    /// Lists the background jobs that ended (before each prompt) and forgets
    /// them: a `Done` line for each, nothing for the running ones, then every
    /// job whose id is among the finished ones leaves the list.
    pub fn print_background_jobs_is_done(&mut self, statuses: &[JobStatus]) -> (r: JobReport)
        requires
            statuses@.len() == old(self).background_jobs@.len(),
        ensures
            strs(r.lines@) == report_lines(
                job_views(old(self).background_jobs@),
                statuses@,
                false,
                statuses@.len() as int,
            ),
            r.finished@ == finished_ids(
                job_views(old(self).background_jobs@),
                statuses@,
                statuses@.len() as int,
            ),
            job_views(final(self).background_jobs@) == kept_jobs(
                job_views(old(self).background_jobs@),
                r.finished@,
            ),
            final(self).env_vars == old(self).env_vars,
            final(self).cmd_cache == old(self).cmd_cache,
            final(self).complete_command == old(self).complete_command,
            final(self).builtin_names == old(self).builtin_names,
            final(self).history_entries == old(self).history_entries,
            final(self).request_clear_history == old(self).request_clear_history,
            final(self).request_load_history == old(self).request_load_history,
            final(self).request_write_history == old(self).request_write_history,
    {
        let report = self.job_report(statuses, false);
        self.retire_jobs(report.finished.as_slice());
        report
    }

    /// Drops every background job whose id is in `finished`.
    pub fn retire_jobs(&mut self, finished: &[usize])
        ensures
            job_views(final(self).background_jobs@) == kept_jobs(
                job_views(old(self).background_jobs@),
                finished@,
            ),
            final(self).env_vars == old(self).env_vars,
            final(self).cmd_cache == old(self).cmd_cache,
            final(self).complete_command == old(self).complete_command,
            final(self).builtin_names == old(self).builtin_names,
            final(self).history_entries == old(self).history_entries,
            final(self).request_clear_history == old(self).request_clear_history,
            final(self).request_load_history == old(self).request_load_history,
            final(self).request_write_history == old(self).request_write_history,
    {
        let ghost jv = job_views(self.background_jobs@);
        let mut kept: Vec<Job> = Vec::new();
        let mut old_jobs: Vec<Job> = Vec::new();
        std::mem::swap(&mut old_jobs, &mut self.background_jobs);
        let n = old_jobs.len();
        let mut i: usize = 0;
        assert(job_views(kept@) =~= Seq::<(usize, Seq<char>)>::empty());
        assert(jv.take(0) =~= Seq::<(usize, Seq<char>)>::empty());
        while i < n
            invariant
                n == old_jobs@.len(),
                jv == job_views(old_jobs@),
                i <= n,
                job_views(kept@) == kept_jobs(jv.take(i as int), finished@),
            decreases n - i,
        {
            let job = &old_jobs[i];
            assert(jv.take(i + 1).drop_last() =~= jv.take(i as int));
            assert(jv.take(i + 1).last() == (job.id, job.command@));
            if !contains_id(finished, job.id) {
                let j = Job { id: job.id, command: job.command.clone() };
                assert(job_views(kept@.push(j)) =~= job_views(kept@) + seq![j@]);
                kept.push(j);
            } else {
                assert(job_views(kept@) =~= job_views(kept@) + Seq::<(usize, Seq<char>)>::empty());
            }
            i = i + 1;
        }
        assert(jv.take(n as int) =~= jv);
        self.background_jobs = kept;
    }
}

/// Whether `id` is in `ids`.
fn contains_id(ids: &[usize], id: usize) -> (b: bool)
    ensures
        b == ids@.contains(id),
{
    let mut i: usize = 0;
    while i < ids.len()
        invariant
            i <= ids@.len(),
            forall|j: int| 0 <= j < i ==> ids@[j] != id,
        decreases ids@.len() - i,
    {
        if ids[i] == id {
            return true;
        }
        i = i + 1;
    }
    false
}

} // verus!

verus! {

/// A command that `resolve_cmd` found is, from then on, answered from the
/// cache with the same path: after a first lookup of `cmd` that was not in
/// the cache `cache` and found `p`, the cache holds `p` for `cmd`.
pub proof fn law_resolved_command_is_cached(
    cache: Map<Seq<char>, Seq<char>>,
    cmd: Seq<char>,
    p: Seq<char>,
)
    ensures
        cache.insert(cmd, p).dom().contains(cmd),
        cache.insert(cmd, p)[cmd] == p,
{
}

/// A completion script registered for a command is the one looked up for it,
/// and after it is removed none is.
pub proof fn law_complete_command_registry(
    m: Map<Seq<char>, Seq<char>>,
    command: Seq<char>,
    path: Seq<char>,
)
    ensures
        m.insert(command, path).dom().contains(command),
        m.insert(command, path)[command] == path,
        !m.insert(command, path).remove(command).dom().contains(command),
{
}

proof fn lemma_finished_ids_has_done(jobs: Seq<(usize, Seq<char>)>, statuses: Seq<JobStatus>, n: int, i: int)
    requires
        0 <= i < n,
        statuses[i] != JobStatus::Running,
    ensures
        finished_ids(jobs, statuses, n).contains(jobs[i].0),
    decreases n,
{
    if i < n - 1 {
        lemma_finished_ids_has_done(jobs, statuses, n - 1, i);
        let f = finished_ids(jobs, statuses, n - 1);
        let k = choose|k: int| 0 <= k < f.len() && f[k] == jobs[i].0;
        assert(finished_ids(jobs, statuses, n)[k] == jobs[i].0);
    } else {
        let f = finished_ids(jobs, statuses, n);
        assert(f[f.len() - 1] == jobs[i].0);
    }
}

proof fn lemma_kept_jobs_avoid(jobs: Seq<(usize, Seq<char>)>, ids: Seq<usize>)
    ensures
        forall|k: int| 0 <= k < kept_jobs(jobs, ids).len() ==> !ids.contains(
            (#[trigger] kept_jobs(jobs, ids)[k]).0,
        ),
    decreases jobs.len(),
{
    if jobs.len() > 0 {
        lemma_kept_jobs_avoid(jobs.drop_last(), ids);
        let prev = kept_jobs(jobs.drop_last(), ids);
        assert forall|k: int| 0 <= k < kept_jobs(jobs, ids).len() implies !ids.contains(
            (#[trigger] kept_jobs(jobs, ids)[k]).0,
        ) by {
            if k < prev.len() {
                assert(kept_jobs(jobs, ids)[k] == prev[k]);
            }
        }
    }
}

/// Once listed, a job found done leaves the list of background jobs: no job
/// that stays has its id.
pub proof fn law_done_jobs_leave(jobs: Seq<(usize, Seq<char>)>, statuses: Seq<JobStatus>, i: int)
    requires
        statuses.len() == jobs.len(),
        0 <= i < jobs.len(),
        statuses[i] != JobStatus::Running,
    ensures
        ({
            let kept = kept_jobs(jobs, finished_ids(jobs, statuses, jobs.len() as int));
            forall|k: int| 0 <= k < kept.len() ==> (#[trigger] kept[k]).0 != jobs[i].0
        }),
{
    let f = finished_ids(jobs, statuses, jobs.len() as int);
    lemma_finished_ids_has_done(jobs, statuses, jobs.len() as int, i);
    lemma_kept_jobs_avoid(jobs, f);
}

proof fn lemma_finished_ids_only_done(jobs: Seq<(usize, Seq<char>)>, statuses: Seq<JobStatus>, n: int, id: usize)
    requires
        0 <= n <= jobs.len(),
        forall|j: int| 0 <= j < n && (#[trigger] jobs[j]).0 == id ==> statuses[j] == JobStatus::Running,
    ensures
        !finished_ids(jobs, statuses, n).contains(id),
    decreases n,
{
    if n > 0 {
        lemma_finished_ids_only_done(jobs, statuses, n - 1, id);
        let f = finished_ids(jobs, statuses, n);
        let f0 = finished_ids(jobs, statuses, n - 1);
        if f.contains(id) {
            let k = choose|k: int| 0 <= k < f.len() && f[k] == id;
            if k < f0.len() {
                assert(f0[k] == id);
            } else {
                assert(jobs[n - 1].0 == id);
            }
        }
    }
}

proof fn lemma_kept_jobs_keeps(jobs: Seq<(usize, Seq<char>)>, ids: Seq<usize>, i: int)
    requires
        0 <= i < jobs.len(),
        !ids.contains(jobs[i].0),
    ensures
        kept_jobs(jobs, ids).contains(jobs[i]),
    decreases jobs.len(),
{
    if i < jobs.len() - 1 {
        lemma_kept_jobs_keeps(jobs.drop_last(), ids, i);
        let prev = kept_jobs(jobs.drop_last(), ids);
        let k = choose|k: int| 0 <= k < prev.len() && prev[k] == jobs.drop_last()[i];
        assert(kept_jobs(jobs, ids)[k] == jobs[i]);
    } else {
        let kept = kept_jobs(jobs, ids);
        assert(kept[kept.len() - 1] == jobs[i]);
    }
}

/// A job still running stays in the list of background jobs, unless a job
/// found done has the same id.
pub proof fn law_running_jobs_stay(jobs: Seq<(usize, Seq<char>)>, statuses: Seq<JobStatus>, i: int)
    requires
        statuses.len() == jobs.len(),
        0 <= i < jobs.len(),
        forall|j: int| 0 <= j < jobs.len() && (#[trigger] jobs[j]).0 == jobs[i].0 ==> statuses[j]
            == JobStatus::Running,
    ensures
        kept_jobs(jobs, finished_ids(jobs, statuses, jobs.len() as int)).contains(jobs[i]),
{
    lemma_finished_ids_only_done(jobs, statuses, jobs.len() as int, jobs[i].0);
    lemma_kept_jobs_keeps(jobs, finished_ids(jobs, statuses, jobs.len() as int), i);
}

/// In a listing of `len` jobs the last job is marked `+`, the one before it
/// `-`, and every other one with a space.
pub proof fn law_job_markers(i: int, len: int)
    requires
        0 <= i < len,
    ensures
        i == len - 1 ==> job_marker(i, len) == "+"@,
        i == len - 2 ==> job_marker(i, len) == "-"@,
        i < len - 2 ==> job_marker(i, len) == " "@,
{
}

/// `jobs` shows one line per background job; the check before a prompt shows
/// one line per job that is done, and those are the jobs that leave.
pub proof fn law_listing_counts(jobs: Seq<(usize, Seq<char>)>, statuses: Seq<JobStatus>, n: int)
    requires
        0 <= n <= jobs.len(),
        statuses.len() == jobs.len(),
    ensures
        report_lines(jobs, statuses, true, n).len() == n,
        report_lines(jobs, statuses, false, n).len() == finished_ids(jobs, statuses, n).len(),
    decreases n,
{
    if n > 0 {
        law_listing_counts(jobs, statuses, n - 1);
    }
}

} // verus!
