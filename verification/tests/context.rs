use std::cell::Cell;

use minishell::context::{job_command_text, Job, JobStatus, ShellContext};

fn env(pairs: &[(&str, &str)]) -> Vec<(String, String)> {
    pairs.iter().map(|(k, v)| (k.to_string(), v.to_string())).collect()
}

#[test]
fn new_context_reads_environment() {
    let c = ShellContext::new(env(&[("PATH", "/a"), ("HOME", "/h"), ("PATH", "/b")]));
    assert_eq!(c.env_vars.get("PATH").map(|s| s.as_str()), Some("/b"));
    assert_eq!(c.env_vars.get("HOME").map(|s| s.as_str()), Some("/h"));
    assert!(c.builtin_names.is_empty());
    assert!(c.background_jobs.is_empty());
    assert!(!c.request_clear_history);
}

#[test]
fn resolve_cmd_uses_cache() {
    let mut c = ShellContext::new(env(&[("PATH", "/x:/y")]));
    let calls = Cell::new(0);
    let probe = |p: &str| {
        calls.set(calls.get() + 1);
        p == "/y/tool"
    };
    assert_eq!(c.resolve_cmd("tool", &probe).as_deref(), Some("/y/tool"));
    assert_eq!(calls.get(), 2);
    assert_eq!(c.resolve_cmd("tool", &probe).as_deref(), Some("/y/tool"));
    assert_eq!(calls.get(), 2);
    assert_eq!(c.resolve_cmd("none", &probe), None);
    assert_eq!(calls.get(), 4);
    assert_eq!(c.resolve_cmd("none", &probe), None);
    assert_eq!(calls.get(), 6);
}

#[test]
fn resolve_cmd_default_path() {
    let mut c = ShellContext::new(Vec::new());
    let r = c.resolve_cmd("sh", |p: &str| p == "/bin/sh");
    assert_eq!(r.as_deref(), Some("/bin/sh"));
}

#[test]
fn complete_command_registry() {
    let mut c = ShellContext::new(Vec::new());
    c.register_complete_command("git", "/comp/git");
    assert_eq!(c.get_complete_command_path("git").as_deref(), Some("/comp/git"));
    c.remove_complete_command("git");
    assert_eq!(c.get_complete_command_path("git"), None);
    c.register_builtin_name("echo");
    assert_eq!(c.builtin_names, vec!["echo"]);
}

fn job(id: usize, cmd: &str) -> Job {
    Job { id, command: cmd.to_string() }
}

#[test]
fn job_listing_lines_and_markers() {
    let mut c = ShellContext::new(Vec::new());
    assert_eq!(c.next_job_id(), 1);
    c.add_background_job(job(1, "sleep 5"));
    c.add_background_job(job(2, "sleep 1"));
    c.add_background_job(job(3, "cat "));
    let r = c.print_background_jobs(&[JobStatus::Running, JobStatus::Exited, JobStatus::CheckFailed]);
    assert_eq!(
        r.lines,
        vec![
            format!("[1]   {:<24}{} &", "Running", "sleep 5"),
            format!("[2]-  {:<24}{}", "Done", "sleep 1"),
            format!("[3]+  {:<24}{}", "Done", "cat "),
        ]
    );
    assert_eq!(r.finished, vec![2, 3]);
    assert_eq!(c.background_jobs.len(), 1);
    assert_eq!(c.background_jobs[0].id, 1);
}

#[test]
fn done_listing_before_the_prompt() {
    let mut c = ShellContext::new(Vec::new());
    c.add_background_job(job(1, "sleep 5"));
    c.add_background_job(job(2, "sleep 1"));
    c.add_background_job(job(3, "sleep 9"));
    let quiet = c.print_background_jobs_is_done(&[JobStatus::Running, JobStatus::Exited, JobStatus::Running]);
    assert_eq!(quiet.lines, vec![format!("[2]-  {:<24}{}", "Done", "sleep 1")]);
    assert_eq!(quiet.finished, vec![2]);
    let ids: Vec<usize> = c.background_jobs.iter().map(|j| j.id).collect();
    assert_eq!(ids, vec![1, 3]);
    let none = c.print_background_jobs_is_done(&[JobStatus::Running, JobStatus::Running]);
    assert!(none.lines.is_empty());
    assert_eq!(c.background_jobs.len(), 2);
}

#[test]
fn retire_removes_every_job_with_a_finished_id() {
    let mut c = ShellContext::new(Vec::new());
    c.add_background_job(job(2, "a"));
    c.add_background_job(job(2, "b"));
    c.add_background_job(job(3, "c"));
    c.retire_jobs(&[2]);
    assert_eq!(c.background_jobs.len(), 1);
    assert_eq!(c.background_jobs[0].command, "c");
}

#[test]
fn job_command_text_like_format() {
    let args = vec!["10".to_string(), "x".to_string()];
    assert_eq!(job_command_text("sleep", &args), "sleep 10 x");
    assert_eq!(job_command_text("ls", &[]), "ls ");
}
