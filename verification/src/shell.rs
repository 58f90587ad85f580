use vstd::prelude::*;

use crate::builtins::ShouldExit;
use crate::error::{message_fits, ShellError};
use crate::parser::{
    parse, parse_pipeline, pipeline_result_matches, redirs, spec_parse, spec_parse_pipeline,
    CommandView, Pipeline, RedirKind, Redirection,
};
use crate::text::{contains_char, owned, spec_trim, strs, trim};

verus! {

/// The names of the builtin commands, in the order the shell registers them.
pub open spec fn spec_builtin_names() -> Seq<Seq<char>> {
    seq!["exit"@, "echo"@, "type"@, "pwd"@, "cd"@, "complete"@, "jobs"@, "history"@]
}

/// The names of the builtin commands, in the order the shell registers them.
pub fn builtin_command_names() -> (v: Vec<String>)
    ensures
        strs(v@) == spec_builtin_names(),
{
    let mut v: Vec<String> = Vec::new();
    v.push(owned("exit"));
    v.push(owned("echo"));
    v.push(owned("type"));
    v.push(owned("pwd"));
    v.push(owned("cd"));
    v.push(owned("complete"));
    v.push(owned("jobs"));
    v.push(owned("history"));
    assert(strs(v@) =~= spec_builtin_names());
    v
}

/// The line the shell works on: `line` without surrounding white space, or
/// nothing when that leaves it empty.
pub fn prepare_line(line: &str) -> (r: Option<String>)
    ensures
        match r {
            Some(t) => t@ == spec_trim(line@) && t@.len() > 0,
            None => spec_trim(line@).len() == 0,
        },
{
    let t = trim(line);
    if t.as_str().is_empty() {
        None
    } else {
        Some(t)
    }
}

/// What a (trimmed) command line parses to: a pipeline when it holds a `|`
/// anywhere, else a single command.
pub open spec fn spec_parse_line(s: Seq<char>) -> Result<Seq<CommandView>, Seq<char>> {
    if s.contains('|') {
        spec_parse_pipeline(s)
    } else {
        match spec_parse(s) {
            Ok(c) => Ok(seq![c]),
            Err(e) => Err(e),
        }
    }
}

/// Parses a command line: with `parse_pipeline` when it holds a `|`, else
/// with `parse` as a pipeline of one command.
pub fn parse_line(line: &str) -> (r: Result<Pipeline, ShellError>)
    ensures
        pipeline_result_matches(r, spec_parse_line(line@)),
{
    if contains_char(line, '|') {
        parse_pipeline(line)
    } else {
        match parse(line) {
            Ok(c) => {
                let mut commands = Vec::new();
                commands.push(c);
                let p = Pipeline { commands };
                assert(p@ =~= seq![c@]);
                Ok(p)
            },
            Err(e) => Err(e),
        }
    }
}

/// A redirection of standard output (`>`, `>>`).
pub open spec fn is_stdout_kind(k: RedirKind) -> bool {
    k == RedirKind::Overwrite || k == RedirKind::Append
}

/// Where a redirection writes: the file, and whether it appends to it.
pub open spec fn target_of(r: (RedirKind, Seq<char>)) -> (Seq<char>, bool) {
    (r.1, r.0 == RedirKind::Append || r.0 == RedirKind::StderrAppend)
}

/// The targets of the redirections of `rs` for standard output (`stdout`)
/// or for standard error (`!stdout`), in order.
pub open spec fn stream_targets(rs: Seq<(RedirKind, Seq<char>)>, stdout: bool) -> Seq<(Seq<char>, bool)>
    decreases rs.len(),
{
    if rs.len() == 0 {
        seq![]
    } else {
        stream_targets(rs.drop_last(), stdout) + if is_stdout_kind(rs.last().0) == stdout {
            seq![target_of(rs.last())]
        } else {
            Seq::<(Seq<char>, bool)>::empty()
        }
    }
}

/// The view of a list of targets.
pub open spec fn target_views(v: Seq<(String, bool)>) -> Seq<(Seq<char>, bool)> {
    v.map_values(|t: (String, bool)| (t.0@, t.1))
}

/// Where `r` writes: its file, and whether it appends.
pub fn redirect_target(r: &Redirection) -> (t: (String, bool))
    ensures
        (t.0@, t.1) == target_of(r@),
{
    match r {
        Redirection::Overwrite(f) => (f.clone(), false),
        Redirection::Append(f) => (f.clone(), true),
        Redirection::StderrOverwrite(f) => (f.clone(), false),
        Redirection::StderrAppend(f) => (f.clone(), true),
    }
}

/// Whether `r` redirects standard output.
pub fn is_stdout_redirect(r: &Redirection) -> (b: bool)
    ensures
        b == is_stdout_kind(r@.0),
{
    match r {
        Redirection::Overwrite(_) | Redirection::Append(_) => true,
        _ => false,
    }
}

/// The targets of the redirections of `rs` for one stream, in the order they
/// are opened (each file is created or truncated in turn; the last one gets
/// the output).
pub fn stream_redirect_targets(rs: &[Redirection], stdout: bool) -> (v: Vec<(String, bool)>)
    ensures
        target_views(v@) == stream_targets(redirs(rs@), stdout),
{
    let ghost rv = redirs(rs@);
    let mut v: Vec<(String, bool)> = Vec::new();
    let mut i: usize = 0;
    assert(rv.take(0) =~= Seq::<(RedirKind, Seq<char>)>::empty());
    assert(target_views(v@) =~= Seq::<(Seq<char>, bool)>::empty());
    while i < rs.len()
        invariant
            i <= rs@.len(),
            rv == redirs(rs@),
            target_views(v@) == stream_targets(rv.take(i as int), stdout),
        decreases rs@.len() - i,
    {
        assert(rv[i as int] == rs@[i as int]@);
        assert(rv.take(i + 1).drop_last() =~= rv.take(i as int));
        if is_stdout_redirect(&rs[i]) == stdout {
            let t = redirect_target(&rs[i]);
            assert(target_views(v@.push(t)) =~= target_views(v@) + seq![(t.0@, t.1)]);
            v.push(t);
        } else {
            assert(target_views(v@) =~= target_views(v@) + Seq::<(Seq<char>, bool)>::empty());
        }
        i = i + 1;
    }
    assert(rv.take(rs@.len() as int) =~= rv);
    v
}

/// Where the standard output of a command in a pipeline goes, when it is
/// redirected: the last `>` or `>>` target.
pub fn last_stdout_target(rs: &[Redirection]) -> (t: Option<(String, bool)>)
    ensures
        ({
            let ts = stream_targets(redirs(rs@), true);
            match t {
                Some(x) => ts.len() > 0 && (x.0@, x.1) == ts.last(),
                None => ts.len() == 0,
            }
        }),
{
    let mut v = stream_redirect_targets(rs, true);
    let ghost tv = target_views(v@);
    match v.pop() {
        Some(x) => {
            assert(tv.last() == (x.0@, x.1));
            Some(x)
        },
        None => None,
    }
}

/// Where a builtin in a pipeline sends its output.
#[derive(Clone, Copy, PartialEq, Eq, Structural, Debug)]
pub enum BuiltinSink {
    /// To the file of its last standard output redirection.
    RedirectFile,
    /// To the terminal.
    Terminal,
    /// To the standard input of the next command.
    NextStage,
}

/// Where the standard input of an external command in a pipeline comes from.
#[derive(Clone, Copy, PartialEq, Eq, Structural, Debug)]
pub enum StageInput {
    /// The shell's own standard input.
    Inherit,
    /// The output that the builtin before it produced.
    BuiltinData,
    /// The output pipe of the external command before it.
    PreviousStdout,
}

/// Where the standard output of an external command in a pipeline goes.
#[derive(Clone, Copy, PartialEq, Eq, Structural, Debug)]
pub enum StageOutput {
    /// To the file of its standard output redirection.
    RedirectFile,
    /// To the shell's own standard output.
    Inherit,
    /// Into a pipe for the next command.
    Pipe,
}

/// Where a builtin at a stage of a pipeline sends its output: to its
/// redirection if it has one, else to the terminal when it is the last
/// command, else to the next command.
pub fn builtin_sink(stdout_redirected: bool, is_last: bool) -> (s: BuiltinSink)
    ensures
        s == (if stdout_redirected {
            BuiltinSink::RedirectFile
        } else if is_last {
            BuiltinSink::Terminal
        } else {
            BuiltinSink::NextStage
        }),
{
    if stdout_redirected {
        BuiltinSink::RedirectFile
    } else if is_last {
        BuiltinSink::Terminal
    } else {
        BuiltinSink::NextStage
    }
}

/// Where the standard input of the external command at stage `index` comes
/// from: the shell's for the first stage; else the data a builtin left, if
/// any; else the pipe of the command before, if any; else the shell's.
pub fn stage_input(index: usize, has_builtin_data: bool, has_previous_stdout: bool) -> (s:
    StageInput)
    ensures
        s == (if index == 0 {
            StageInput::Inherit
        } else if has_builtin_data {
            StageInput::BuiltinData
        } else if has_previous_stdout {
            StageInput::PreviousStdout
        } else {
            StageInput::Inherit
        }),
{
    if index == 0 {
        StageInput::Inherit
    } else if has_builtin_data {
        StageInput::BuiltinData
    } else if has_previous_stdout {
        StageInput::PreviousStdout
    } else {
        StageInput::Inherit
    }
}

/// Where the standard output of an external command in a pipeline goes: to
/// its redirection if it has one, else to the shell's when it is the last
/// command, else into a pipe.
pub fn stage_output(stdout_redirected: bool, is_last: bool) -> (s: StageOutput)
    ensures
        s == (if stdout_redirected {
            StageOutput::RedirectFile
        } else if is_last {
            StageOutput::Inherit
        } else {
            StageOutput::Pipe
        }),
{
    if stdout_redirected {
        StageOutput::RedirectFile
    } else if is_last {
        StageOutput::Inherit
    } else {
        StageOutput::Pipe
    }
}

/// How a pipeline goes on after one of its builtins ran.
#[derive(Clone, Copy, PartialEq, Eq, Structural, Debug)]
pub enum AfterBuiltin {
    /// Send its output on and run the next command.
    Proceed,
    /// Show its error on the terminal, then send its output on and go on.
    ReportAndProceed,
    /// Stop the pipeline and leave the shell.
    StopAndExit,
}

/// How a pipeline goes on after a builtin returned `r`: it stops when the
/// builtin asks the shell to exit; an error is shown and the pipeline goes on.
pub fn after_builtin_stage(r: &Result<ShouldExit, ShellError>) -> (a: AfterBuiltin)
    ensures
        a == match r {
            Ok(ShouldExit::Continue) => AfterBuiltin::Proceed,
            Ok(ShouldExit::Exit) => AfterBuiltin::StopAndExit,
            Err(_) => AfterBuiltin::ReportAndProceed,
        },
{
    match r {
        Ok(ShouldExit::Continue) => AfterBuiltin::Proceed,
        Ok(ShouldExit::Exit) => AfterBuiltin::StopAndExit,
        Err(_) => AfterBuiltin::ReportAndProceed,
    }
}

/// The program to run for the external command `name`, given what looking
/// it up found: its path, or the command-not-found error that stops the line.
pub fn command_path(name: &str, found: Option<String>) -> (r: Result<String, ShellError>)
    ensures
        match found {
            Some(p) => r matches Ok(q) && q@ == p@,
            None => r matches Err(ShellError::CommandNotFound(n)) && n@ == name@,
        },
{
    match found {
        Some(p) => Ok(p),
        None => Err(ShellError::CommandNotFound(owned(name))),
    }
}

/// What a single command that is a builtin amounts to, given what the
/// builtin returned: its control signal, and the text to write on its error
/// stream when it failed (the shell then goes on).
pub fn builtin_command_outcome(r: Result<ShouldExit, ShellError>) -> (o: (ShouldExit, Option<String>))
    ensures
        match r {
            Ok(c) => o.0 == c && o.1 is None,
            Err(e) => o.0 == ShouldExit::Continue && (o.1 matches Some(m) && message_fits(e, m@)),
        },
{
    match r {
        Ok(c) => (c, None),
        Err(e) => (ShouldExit::Continue, Some(e.message())),
    }
}

/// What is carried from one stage of a pipeline to the next: whether a
/// builtin left output for the next command, and whether an external
/// command left its output pipe.
#[derive(Clone, Copy, PartialEq, Eq, Structural, Debug)]
pub struct PipeCarry {
    pub builtin_data: bool,
    pub previous_stdout: bool,
}

/// How one stage of a pipeline runs.
#[derive(Clone, Copy, PartialEq, Eq, Structural, Debug)]
pub enum StagePlan {
    /// A builtin, whose output goes to the sink.
    Builtin(BuiltinSink),
    /// An external command, with its input and output.
    External(StageInput, StageOutput),
}

/// The plan of stage `index` and what it carries to the next stage: a
/// builtin sends its output on (see `builtin_sink`) and leaves it for the
/// next command when it goes to the next stage; an external command takes
/// its input (see `stage_input`), uses up the builtin output and, when it
/// took it, the pipe before it, and leaves its own pipe when its output goes
/// into one (see `stage_output`).
pub open spec fn spec_plan_stage(
    index: usize,
    is_builtin: bool,
    stdout_redirected: bool,
    is_last: bool,
    carry: PipeCarry,
) -> (StagePlan, PipeCarry) {
    if is_builtin {
        let sink = if stdout_redirected {
            BuiltinSink::RedirectFile
        } else if is_last {
            BuiltinSink::Terminal
        } else {
            BuiltinSink::NextStage
        };
        (
            StagePlan::Builtin(sink),
            PipeCarry {
                builtin_data: sink == BuiltinSink::NextStage || carry.builtin_data,
                previous_stdout: carry.previous_stdout,
            },
        )
    } else {
        let input = if index == 0 {
            StageInput::Inherit
        } else if carry.builtin_data {
            StageInput::BuiltinData
        } else if carry.previous_stdout {
            StageInput::PreviousStdout
        } else {
            StageInput::Inherit
        };
        let output = if stdout_redirected {
            StageOutput::RedirectFile
        } else if is_last {
            StageOutput::Inherit
        } else {
            StageOutput::Pipe
        };
        (
            StagePlan::External(input, output),
            PipeCarry {
                builtin_data: false,
                previous_stdout: if output == StageOutput::Pipe {
                    true
                } else if input == StageInput::PreviousStdout {
                    false
                } else {
                    carry.previous_stdout
                },
            },
        )
    }
}

/// Plans stage `index` of a pipeline from what the stages before it carried.
pub fn plan_stage(
    index: usize,
    is_builtin: bool,
    stdout_redirected: bool,
    is_last: bool,
    carry: PipeCarry,
) -> (r: (StagePlan, PipeCarry))
    ensures
        r == spec_plan_stage(index, is_builtin, stdout_redirected, is_last, carry),
{
    if is_builtin {
        let sink = builtin_sink(stdout_redirected, is_last);
        let next = PipeCarry {
            builtin_data: sink == BuiltinSink::NextStage || carry.builtin_data,
            previous_stdout: carry.previous_stdout,
        };
        (StagePlan::Builtin(sink), next)
    } else {
        let input = stage_input(index, carry.builtin_data, carry.previous_stdout);
        let output = stage_output(stdout_redirected, is_last);
        let previous_stdout = if output == StageOutput::Pipe {
            true
        } else if input == StageInput::PreviousStdout {
            false
        } else {
            carry.previous_stdout
        };
        (StagePlan::External(input, output), PipeCarry { builtin_data: false, previous_stdout })
    }
}

/// Where the output of a stage goes, whatever it is: a builtin's sink, or an
/// external command's standard output.
pub open spec fn output_is_file(p: StagePlan) -> bool {
    match p {
        StagePlan::Builtin(s) => s == BuiltinSink::RedirectFile,
        StagePlan::External(_, o) => o == StageOutput::RedirectFile,
    }
}

/// The output of the stage goes to the terminal.
pub open spec fn output_is_terminal(p: StagePlan) -> bool {
    match p {
        StagePlan::Builtin(s) => s == BuiltinSink::Terminal,
        StagePlan::External(_, o) => o == StageOutput::Inherit,
    }
}

/// The output of the stage goes on to the next command.
pub open spec fn output_is_passed_on(p: StagePlan) -> bool {
    match p {
        StagePlan::Builtin(s) => s == BuiltinSink::NextStage,
        StagePlan::External(_, o) => o == StageOutput::Pipe,
    }
}

/// A stage whose standard output is redirected writes into its redirect file,
/// whatever its position in the pipeline, the last stage included, and
/// whether it is a builtin or an external command.
pub proof fn law_redirected_stage_writes_to_file(
    index: usize,
    is_builtin: bool,
    is_last: bool,
    carry: PipeCarry,
)
    ensures
        output_is_file(spec_plan_stage(index, is_builtin, true, is_last, carry).0),
        !output_is_terminal(spec_plan_stage(index, is_builtin, true, is_last, carry).0),
        !output_is_passed_on(spec_plan_stage(index, is_builtin, true, is_last, carry).0),
{
}

/// A stage without a redirection of its standard output writes to the
/// terminal when it is the last command, and passes its output on to the
/// next command otherwise.
pub proof fn law_unredirected_stage_output(
    index: usize,
    is_builtin: bool,
    is_last: bool,
    carry: PipeCarry,
)
    ensures
        is_last ==> output_is_terminal(spec_plan_stage(index, is_builtin, false, is_last, carry).0),
        !is_last ==> output_is_passed_on(
            spec_plan_stage(index, is_builtin, false, is_last, carry).0,
        ),
        !output_is_file(spec_plan_stage(index, is_builtin, false, is_last, carry).0),
{
}

/// Two stages joined by `|`: when an external command that is not the last
/// and not redirected is followed by an external command, the second reads
/// the pipe of the first; when it is a builtin, the second reads the output
/// the builtin left.
pub proof fn law_pipe_connects_stages(
    index: usize,
    first_is_builtin: bool,
    next_redirected: bool,
    next_is_last: bool,
    carry: PipeCarry,
)
    requires
        index + 1 <= usize::MAX,
    ensures
        ({
            let (first, mid) = spec_plan_stage(index, first_is_builtin, false, false, carry);
            let (second, _) = spec_plan_stage(
                (index + 1) as usize,
                false,
                next_redirected,
                next_is_last,
                mid,
            );
            &&& second matches StagePlan::External(input, _)
            &&& first_is_builtin ==> input == StageInput::BuiltinData
            &&& !first_is_builtin ==> input == StageInput::PreviousStdout
        }),
{
}

/// The first command of a pipeline reads the shell's own input; an external
/// command uses up what a builtin before it left, so that no later command
/// reads it again.
pub proof fn law_stage_input_sources(redirected: bool, is_last: bool, carry: PipeCarry, index: usize)
    ensures
        spec_plan_stage(0, false, redirected, is_last, carry).0 matches StagePlan::External(
            StageInput::Inherit,
            _,
        ),
        !spec_plan_stage(index, false, redirected, is_last, carry).1.builtin_data,
        index > 0 && carry.builtin_data ==> spec_plan_stage(
            index,
            false,
            redirected,
            is_last,
            carry,
        ).0 matches StagePlan::External(StageInput::BuiltinData, _),
{
}

/// `>` and `2>` truncate their file, `>>` and `2>>` append to it; `>` and
/// `>>` redirect standard output, `2>` and `2>>` standard error.
pub proof fn law_redirection_targets(f: Seq<char>)
    ensures
        target_of((RedirKind::Overwrite, f)) == (f, false),
        target_of((RedirKind::Append, f)) == (f, true),
        target_of((RedirKind::StderrOverwrite, f)) == (f, false),
        target_of((RedirKind::StderrAppend, f)) == (f, true),
        is_stdout_kind(RedirKind::Overwrite),
        is_stdout_kind(RedirKind::Append),
        !is_stdout_kind(RedirKind::StderrOverwrite),
        !is_stdout_kind(RedirKind::StderrAppend),
{
}

/// Every redirection goes to exactly one of the two streams.
pub proof fn law_stream_targets_partition(rs: Seq<(RedirKind, Seq<char>)>)
    ensures
        stream_targets(rs, true).len() + stream_targets(rs, false).len() == rs.len(),
    decreases rs.len(),
{
    if rs.len() > 0 {
        law_stream_targets_partition(rs.drop_last());
    }
}

/// When all the redirections of `rs` are for one stream, the targets of that
/// stream are theirs, in the order they were written.
pub proof fn law_stream_targets_keep_order(rs: Seq<(RedirKind, Seq<char>)>, stdout: bool)
    requires
        forall|k: int| 0 <= k < rs.len() ==> is_stdout_kind(#[trigger] rs[k].0) == stdout,
    ensures
        stream_targets(rs, stdout) == rs.map_values(|r: (RedirKind, Seq<char>)| target_of(r)),
    decreases rs.len(),
{
    if rs.len() > 0 {
        let d = rs.drop_last();
        assert forall|k: int| 0 <= k < d.len() implies is_stdout_kind(#[trigger] d[k].0) == stdout by {
            assert(d[k] == rs[k]);
        }
        law_stream_targets_keep_order(d, stdout);
        assert(is_stdout_kind(rs[rs.len() - 1].0) == stdout);
        assert(rs.map_values(|r: (RedirKind, Seq<char>)| target_of(r)) =~= d.map_values(
            |r: (RedirKind, Seq<char>)| target_of(r),
        ) + seq![target_of(rs.last())]);
    }
}

/// The last redirection written decides: when it is for standard output, the
/// output goes to its file (the target `last_stdout_target` gives).
pub proof fn law_last_stdout_redirection_wins(rs: Seq<(RedirKind, Seq<char>)>)
    requires
        rs.len() > 0,
        is_stdout_kind(rs.last().0),
    ensures
        stream_targets(rs, true).len() > 0,
        stream_targets(rs, true).last() == target_of(rs.last()),
{
}

} // verus!
