//! How the stages of a pipeline are wired together.

use vstd::prelude::*;
use crate::command::{CommandPlan, CommandSpec};

verus! {

/// Where an output stream of a stage goes.
#[derive(PartialEq, Eq, Structural, Debug, Clone, Copy)]
pub enum Sink {
    /// Into the pipe read by the next stage.
    NextStage,
    /// To the shell's own stream.
    Terminal,
    /// To the file the command redirects it to.
    Redirected,
}

/// The streams of one stage.
#[derive(PartialEq, Eq, Structural, Debug, Clone, Copy)]
pub struct StageIo {
    /// Standard input comes from the previous stage (else from the shell's
    /// own input).
    pub stdin_from_previous: bool,
    /// A pipe is made for the next stage to read from.
    pub pipe_to_next: bool,
    pub stdout: Sink,
    pub stderr: Sink,
}

/// The streams of stage `i` of `total`, by one rule for builtins and
/// external commands alike: every stage but the first reads from a pipe
/// made by the one before it. A stream that the command redirects goes to
/// its file; otherwise standard output goes into the pipe to the next
/// stage, or for the last stage to the shell's own standard output, and
/// standard error to the shell's own standard error. (A stage that
/// redirects its standard output leaves the next stage an empty pipe.)
pub open spec fn spec_stage_io(i: int, total: int, c: CommandPlan) -> StageIo {
    StageIo {
        stdin_from_previous: i > 0,
        pipe_to_next: i + 1 < total,
        stdout: if c.redirections.out_target is Some {
            Sink::Redirected
        } else if i + 1 < total {
            Sink::NextStage
        } else {
            Sink::Terminal
        },
        stderr: if c.redirections.err_target is Some {
            Sink::Redirected
        } else {
            Sink::Terminal
        },
    }
}

/// The streams of stage `i` of a pipeline of `total` stages; a lone
/// command is stage 0 of 1.
pub fn stage_io(i: usize, total: usize, spec: &CommandSpec) -> (io: StageIo)
    ensures
        io == spec_stage_io(i as int, total as int, spec@),
{
    let pipe_to_next = i < total && i + 1 < total;
    let stdout = if spec.stdout_target.is_some() {
        Sink::Redirected
    } else if pipe_to_next {
        Sink::NextStage
    } else {
        Sink::Terminal
    };
    let stderr = if spec.stderr_target.is_some() {
        Sink::Redirected
    } else {
        Sink::Terminal
    };
    StageIo { stdin_from_previous: i > 0, pipe_to_next, stdout, stderr }
}

/// The streams of every stage of a pipeline. Consecutive stages are joined:
/// each stage but the last makes a pipe that the next one reads, and writes
/// into it unless it redirects its standard output.
pub fn pipeline_plan(commands: &Vec<CommandSpec>) -> (plan: Vec<StageIo>)
    ensures
        plan.len() == commands.len(),
        forall|i: int|
            0 <= i < commands.len() ==> #[trigger] plan@[i] == spec_stage_io(
                i,
                commands.len() as int,
                commands@[i]@,
            ),
        forall|i: int|
            0 <= i < commands.len() - 1 ==> #[trigger] plan@[i].pipe_to_next
                && plan@[i + 1].stdin_from_previous && (plan@[i].stdout == Sink::NextStage
                || commands@[i]@.redirections.out_target is Some),
{
    let mut plan: Vec<StageIo> = Vec::new();
    for i in 0..commands.len()
        invariant
            plan.len() == i,
            forall|k: int|
                0 <= k < i ==> #[trigger] plan@[k] == spec_stage_io(
                    k,
                    commands.len() as int,
                    commands@[k]@,
                ),
    {
        plan.push(stage_io(i, commands.len(), &commands[i]));
    }
    plan
}

} // verus!
