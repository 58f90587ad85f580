use minishell::builtins::cd::DirChange;
use minishell::builtins::{
    CdBuiltin, CompleteBuiltin, EchoBuiltin, ExitBuiltin, HistoryBuiltin, JobsBuiltin, PwdBuiltin,
    ShouldExit, TypeBuiltin,
};
use minishell::context::{Job, JobStatus, ShellContext};
use minishell::error::ShellError;

fn strings(v: &[&str]) -> Vec<String> {
    v.iter().map(|s| s.to_string()).collect()
}

fn builtin_message(r: Result<ShouldExit, ShellError>) -> String {
    match r {
        Err(ShellError::BuiltinError(m)) => m,
        other => panic!("expected a builtin error, got {:?}", other),
    }
}

fn ctx(pairs: &[(&str, &str)]) -> ShellContext {
    ShellContext::new(pairs.iter().map(|(k, v)| (k.to_string(), v.to_string())).collect())
}

#[test]
fn echo_joins_arguments() {
    let mut out = String::new();
    assert_eq!(EchoBuiltin.execute(&strings(&["a", "b c"]), &mut out), ShouldExit::Continue);
    assert_eq!(out, "a b c\n");
    let mut empty = String::new();
    EchoBuiltin.execute(&[], &mut empty);
    assert_eq!(empty, "\n");
    assert_eq!(EchoBuiltin.name(), "echo");
}

#[test]
fn exit_asks_to_stop() {
    assert_eq!(ExitBuiltin.execute(&strings(&["1"])), ShouldExit::Exit);
    assert_eq!(ExitBuiltin.name(), "exit");
}

#[test]
fn pwd_prints_or_fails() {
    let mut out = String::new();
    let r = PwdBuiltin.execute(&[], || Ok("/home/u".to_string()), &mut out);
    assert_eq!(r.unwrap(), ShouldExit::Continue);
    assert_eq!(out, "/home/u\n");
    let mut out2 = String::new();
    assert_eq!(
        builtin_message(PwdBuiltin.execute(&strings(&["x"]), || Ok("/".to_string()), &mut out2)),
        "pwd: too many arguments"
    );
    assert_eq!(
        builtin_message(PwdBuiltin.execute(&[], || Err("gone".to_string()), &mut out2)),
        "pwd: failed to get current directory: gone"
    );
    assert!(out2.is_empty());
}

#[test]
fn cd_targets() {
    let c = ctx(&[("HOME", "/home/u")]);
    assert_eq!(CdBuiltin.target(&[], &c), "/home/u");
    assert_eq!(CdBuiltin.target(&strings(&["~"]), &c), "/home/u/");
    assert_eq!(CdBuiltin.target(&strings(&["~/docs"]), &c), "/home/u/docs");
    assert_eq!(CdBuiltin.target(&strings(&["~//docs"]), &c), "/home/u/docs");
    assert_eq!(CdBuiltin.target(&strings(&["/tmp", "x"]), &c), "/tmp");
    let no_home = ctx(&[]);
    assert_eq!(CdBuiltin.target(&[], &no_home), "/");
    assert_eq!(CdBuiltin.target(&strings(&["~x"]), &no_home), "/x");
}

#[test]
fn cd_outcomes() {
    let c = ctx(&[("HOME", "/h")]);
    let r = CdBuiltin.execute(&strings(&["/d"]), &c, |p: &str| {
        assert_eq!(p, "/d");
        DirChange::Changed
    });
    assert_eq!(r.unwrap(), ShouldExit::Continue);
    assert_eq!(
        builtin_message(CdBuiltin.execute(&strings(&["/nope"]), &c, |_p: &str| DirChange::NotADirectory)),
        "cd: /nope: No such file or directory"
    );
    assert_eq!(
        builtin_message(CdBuiltin.execute(&[], &c, |_p: &str| DirChange::Failed("denied".to_string()))),
        "cd: /h: denied"
    );
}

#[test]
fn complete_registers_and_prints() {
    let c = CompleteBuiltin::new();
    let mut context = ctx(&[]);
    let mut out = String::new();
    assert_eq!(CompleteBuiltin.name(), "complete");
    assert_eq!(
        builtin_message(c.execute(&strings(&["-p", "git"]), &mut context, &mut out)),
        "complete: git: no completion specification"
    );
    c.execute(&strings(&["-C", "/comp/git.sh", "git"]), &mut context, &mut out).unwrap();
    assert!(out.is_empty());
    assert_eq!(context.get_complete_command_path("git").as_deref(), Some("/comp/git.sh"));
    c.execute(&strings(&["-p", "git", "extra"]), &mut context, &mut out).unwrap();
    assert_eq!(out, "complete -C '/comp/git.sh' git\n");
    let mut out2 = String::new();
    c.execute(&strings(&["-C", "", "ls"]), &mut context, &mut out2).unwrap();
    assert!(c.execute(&strings(&["-p", "ls"]), &mut context, &mut out2).is_err());
    c.execute(&strings(&["-x"]), &mut context, &mut out2).unwrap();
    c.execute(&strings(&["-C", "x"]), &mut context, &mut out2).unwrap();
    assert!(out2.is_empty());
}

#[test]
fn history_requests() {
    let mut c = ctx(&[]);
    let mut out = String::new();
    HistoryBuiltin.execute(&strings(&["-c"]), &mut c, &mut out).unwrap();
    assert!(c.request_clear_history);
    HistoryBuiltin.execute(&strings(&["-r", "h.txt"]), &mut c, &mut out).unwrap();
    assert_eq!(c.request_load_history.as_deref(), Some("h.txt"));
    HistoryBuiltin.execute(&strings(&["-w", "w.txt"]), &mut c, &mut out).unwrap();
    assert_eq!(c.request_write_history.as_deref(), Some("w.txt"));
    assert!(out.is_empty());
    HistoryBuiltin.execute(&strings(&["-r"]), &mut c, &mut out).unwrap();
    HistoryBuiltin.execute(&strings(&["-w"]), &mut c, &mut out).unwrap();
    assert_eq!(
        out,
        "history: -r requires a file path argument\nhistory: -w requires a file path argument\n"
    );
}

#[test]
fn history_listing() {
    let mut c = ctx(&[]);
    c.history_entries = strings(&["ls", "pwd", "echo hi"]);
    let mut out = String::new();
    HistoryBuiltin.execute(&[], &mut c, &mut out).unwrap();
    assert_eq!(out, "    1  ls\n    2  pwd\n    3  echo hi\n");
    let mut two = String::new();
    HistoryBuiltin.execute(&strings(&["2"]), &mut c, &mut two).unwrap();
    assert_eq!(two, "    2  pwd\n    3  echo hi\n");
    let mut many = String::new();
    HistoryBuiltin.execute(&strings(&["+10"]), &mut c, &mut many).unwrap();
    assert_eq!(many, out);
    let mut none = String::new();
    HistoryBuiltin.execute(&strings(&["0"]), &mut c, &mut none).unwrap();
    assert!(none.is_empty());
    let mut word = String::new();
    HistoryBuiltin.execute(&strings(&["x"]), &mut c, &mut word).unwrap();
    assert_eq!(word, out);
}

#[test]
fn type_reports_each_command() {
    let mut c = ctx(&[("PATH", "/bin")]);
    c.register_builtin_name("echo");
    let mut out = String::new();
    let r = TypeBuiltin.execute(&strings(&["echo", "ls", "nope", "ls"]), &mut c, |p: &str| p == "/bin/ls", &mut out);
    assert_eq!(r.unwrap(), ShouldExit::Continue);
    assert_eq!(out, "echo is a shell builtin\nls is /bin/ls\nnope: not found\nls is /bin/ls\n");
    let mut out2 = String::new();
    assert_eq!(
        builtin_message(TypeBuiltin.execute(&[], &mut c, |_p: &str| false, &mut out2)),
        "type: missing operand"
    );
}

#[test]
fn jobs_lists_and_forgets_done_jobs() {
    let mut c = ctx(&[]);
    c.add_background_job(Job { id: 1, command: "sleep 9".to_string() });
    c.add_background_job(Job { id: 2, command: "true ".to_string() });
    let mut out = String::new();
    let r = JobsBuiltin.execute(&mut c, &[JobStatus::Running, JobStatus::Exited], &mut out);
    assert_eq!(r, ShouldExit::Continue);
    assert_eq!(
        out,
        format!("[1]-  {:<24}sleep 9 &\n[2]+  {:<24}true \n", "Running", "Done")
    );
    assert_eq!(c.background_jobs.len(), 1);
}

#[test]
fn cd_finish_answers_from_the_outcome() {
    assert_eq!(CdBuiltin.finish("/d", DirChange::Changed).unwrap(), ShouldExit::Continue);
    assert_eq!(
        builtin_message(CdBuiltin.finish("/d", DirChange::NotADirectory)),
        "cd: /d: No such file or directory"
    );
    assert_eq!(
        builtin_message(CdBuiltin.finish("/d", DirChange::Failed("denied".to_string()))),
        "cd: /d: denied"
    );
}
