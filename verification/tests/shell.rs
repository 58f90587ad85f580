use minishell::builtins::ShouldExit;
use minishell::error::ShellError;
use minishell::parser::Redirection;
use minishell::shell::{
    after_builtin_stage, builtin_command_names, builtin_command_outcome, builtin_sink, command_path,
    plan_stage, AfterBuiltin, PipeCarry, StagePlan, last_stdout_target, parse_line, prepare_line,
    stage_input, stage_output, stream_redirect_targets, BuiltinSink, StageInput, StageOutput,
};

#[test]
fn builtin_names_in_order() {
    assert_eq!(
        builtin_command_names(),
        vec!["exit", "echo", "type", "pwd", "cd", "complete", "jobs", "history"]
    );
}

#[test]
fn lines_are_trimmed() {
    assert_eq!(prepare_line("  ls -l \n").as_deref(), Some("ls -l"));
    assert_eq!(prepare_line(" \t "), None);
}

#[test]
fn lines_with_a_bar_are_pipelines() {
    let p = parse_line("a | b").unwrap();
    assert_eq!(p.commands.len(), 2);
    let q = parse_line("sleep 1 &").unwrap();
    assert_eq!(q.commands.len(), 1);
    assert!(q.commands[0].is_background);
    let r = parse_line("echo 'a|b' &").unwrap();
    assert_eq!(r.commands.len(), 1);
    assert!(!r.commands[0].is_background);
    assert_eq!(r.commands[0].args, vec!["a|b", "&"]);
}

#[test]
fn redirect_targets() {
    let rs = vec![
        Redirection::Overwrite("a".to_string()),
        Redirection::StderrAppend("e".to_string()),
        Redirection::Append("b".to_string()),
        Redirection::StderrOverwrite("f".to_string()),
    ];
    assert_eq!(
        stream_redirect_targets(&rs, true),
        vec![("a".to_string(), false), ("b".to_string(), true)]
    );
    assert_eq!(
        stream_redirect_targets(&rs, false),
        vec![("e".to_string(), true), ("f".to_string(), false)]
    );
    assert_eq!(last_stdout_target(&rs), Some(("b".to_string(), true)));
    assert_eq!(last_stdout_target(&rs[1..2]), None);
}

#[test]
fn stage_decisions() {
    assert_eq!(builtin_sink(true, true), BuiltinSink::RedirectFile);
    assert_eq!(builtin_sink(false, true), BuiltinSink::Terminal);
    assert_eq!(builtin_sink(false, false), BuiltinSink::NextStage);
    assert_eq!(stage_input(0, true, true), StageInput::Inherit);
    assert_eq!(stage_input(1, true, true), StageInput::BuiltinData);
    assert_eq!(stage_input(2, false, true), StageInput::PreviousStdout);
    assert_eq!(stage_input(2, false, false), StageInput::Inherit);
    assert_eq!(stage_output(true, false), StageOutput::RedirectFile);
    assert_eq!(stage_output(false, true), StageOutput::Inherit);
    assert_eq!(stage_output(false, false), StageOutput::Pipe);
}

#[test]
fn pipeline_stop_decisions() {
    assert_eq!(after_builtin_stage(&Ok(ShouldExit::Continue)), AfterBuiltin::Proceed);
    assert_eq!(after_builtin_stage(&Ok(ShouldExit::Exit)), AfterBuiltin::StopAndExit);
    assert_eq!(
        after_builtin_stage(&Err(ShellError::BuiltinError("x".to_string()))),
        AfterBuiltin::ReportAndProceed
    );
    assert_eq!(command_path("ls", Some("/bin/ls".to_string())).unwrap(), "/bin/ls");
    match command_path("nope", None) {
        Err(ShellError::CommandNotFound(n)) => assert_eq!(n, "nope"),
        other => panic!("unexpected {:?}", other),
    }
}

#[test]
fn builtin_command_outcomes() {
    assert_eq!(builtin_command_outcome(Ok(ShouldExit::Exit)), (ShouldExit::Exit, None));
    assert_eq!(
        builtin_command_outcome(Err(ShellError::BuiltinError("cd: x".to_string()))),
        (ShouldExit::Continue, Some("cd: x".to_string()))
    );
}

#[test]
fn pipeline_stage_plans() {
    let start = PipeCarry { builtin_data: false, previous_stdout: false };
    // echo hi | cat | wc
    let (p0, c0) = plan_stage(0, true, false, false, start);
    assert_eq!(p0, StagePlan::Builtin(BuiltinSink::NextStage));
    assert_eq!(c0, PipeCarry { builtin_data: true, previous_stdout: false });
    let (p1, c1) = plan_stage(1, false, false, false, c0);
    assert_eq!(p1, StagePlan::External(StageInput::BuiltinData, StageOutput::Pipe));
    assert_eq!(c1, PipeCarry { builtin_data: false, previous_stdout: true });
    let (p2, c2) = plan_stage(2, false, false, true, c1);
    assert_eq!(p2, StagePlan::External(StageInput::PreviousStdout, StageOutput::Inherit));
    assert_eq!(c2, PipeCarry { builtin_data: false, previous_stdout: false });
    // a builtin writing to a file keeps what was carried before it
    let (p3, c3) = plan_stage(1, true, true, false, c1);
    assert_eq!(p3, StagePlan::Builtin(BuiltinSink::RedirectFile));
    assert_eq!(c3, c1);
}
