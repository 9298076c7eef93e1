//! Compiles shell commands to the flat list of processes to start.

use crate::model::{exe_view, Error};
use crate::parser::{
    command_views, no_redirs, pipeline_views, words, Command, CommandView, CompleteCommand,
    CompleteCommandView, Pipeline, PipelineView, RedirectList, SimpleCommand, SimpleCommandView,
    Subshell,
};
use crate::serializer::{err_empty_pipeline, serialize, text_of_complete, writable};
use std::collections::VecDeque;
use vstd::prelude::*;
use vstd::string::StringExecFns;

verus! {

/// A command executed by the shell: the words of one process and where
/// its standard input and output go.
#[derive(Debug, PartialEq, Eq)]
pub struct OpCommand {
    pub arguments: VecDeque<String>,
    pub stdin: StdinPolicy,
    pub stdout: StdoutPolicy,
}

/// Policy for the standard input.
#[derive(Debug, PartialEq, Eq)]
pub enum StdinPolicy {
    /// The shell's own standard input.
    Inherit,
    /// The read end of the pipe that the command before writes to.
    Pipe,
    /// The named file, which must exist.
    ReadFrom(String),
}

/// Policy for the standard output.
#[derive(Debug, PartialEq, Eq)]
pub enum StdoutPolicy {
    /// The shell's own standard output.
    Inherit,
    /// The write end of a new pipe, which the next command reads.
    Pipe,
    /// The named file, created if absent and emptied.
    OverwriteTo(String),
    /// The named file, created if absent and added to.
    AppendTo(String),
}

/// A policy for the standard input, with the file name as a sequence of
/// characters.
#[verifier::ext_equal]
pub enum StdinPolicyView {
    Inherit,
    Pipe,
    ReadFrom(Seq<char>),
}

/// A policy for the standard output, with the file name as a sequence of
/// characters.
#[verifier::ext_equal]
pub enum StdoutPolicyView {
    Inherit,
    Pipe,
    OverwriteTo(Seq<char>),
    AppendTo(Seq<char>),
}

/// A command to execute, with its words as sequences of characters.
#[verifier::ext_equal]
pub struct OpCommandView {
    pub arguments: Seq<Seq<char>>,
    pub stdin: StdinPolicyView,
    pub stdout: StdoutPolicyView,
}

impl View for StdinPolicy {
    type V = StdinPolicyView;

    open spec fn view(&self) -> StdinPolicyView {
        match self {
            StdinPolicy::Inherit => StdinPolicyView::Inherit,
            StdinPolicy::Pipe => StdinPolicyView::Pipe,
            StdinPolicy::ReadFrom(filename) => StdinPolicyView::ReadFrom(filename@),
        }
    }
}

impl View for StdoutPolicy {
    type V = StdoutPolicyView;

    open spec fn view(&self) -> StdoutPolicyView {
        match self {
            StdoutPolicy::Inherit => StdoutPolicyView::Inherit,
            StdoutPolicy::Pipe => StdoutPolicyView::Pipe,
            StdoutPolicy::OverwriteTo(filename) => StdoutPolicyView::OverwriteTo(filename@),
            StdoutPolicy::AppendTo(filename) => StdoutPolicyView::AppendTo(filename@),
        }
    }
}

impl View for OpCommand {
    type V = OpCommandView;

    open spec fn view(&self) -> OpCommandView {
        OpCommandView { arguments: words(self.arguments@), stdin: self.stdin@, stdout: self.stdout@ }
    }
}

/// The views of commands to execute, in order.
pub open spec fn op_views(commands: Seq<OpCommand>) -> Seq<OpCommandView> {
    commands.map_values(|c: OpCommand| c@)
}

/// Reason given when a pipeline has no command.
pub open spec fn err_no_command() -> Seq<char> {
    "sh: empty pipeline"@
}

/// Reason given when a command that reads from a pipe redirects its input.
pub open spec fn err_piped_input() -> Seq<char> {
    "sh: input redirection used inside pipeline"@
}

/// Reason given when a command that writes to a pipe redirects its output.
pub open spec fn err_piped_output() -> Seq<char> {
    "sh: output redirection used inside pipeline"@
}

/// Where the standard input of a command comes from: its first input
/// redirection, else the pipe if it reads from one; both at once is an
/// error.
pub open spec fn stdin_of(sc: SimpleCommandView, piped_in: bool) -> Result<
    StdinPolicyView,
    Seq<char>,
> {
    if sc.redirs.input.len() > 0 && piped_in {
        Err(err_piped_input())
    } else if sc.redirs.input.len() > 0 {
        Ok(StdinPolicyView::ReadFrom(sc.redirs.input[0].filename))
    } else if piped_in {
        Ok(StdinPolicyView::Pipe)
    } else {
        Ok(StdinPolicyView::Inherit)
    }
}

/// Where the standard output of a command goes: its first output
/// redirection, else the pipe if it writes to one; both at once is an
/// error.
pub open spec fn stdout_of(sc: SimpleCommandView, piped_out: bool) -> Result<
    StdoutPolicyView,
    Seq<char>,
> {
    if sc.redirs.output.len() > 0 && piped_out {
        Err(err_piped_output())
    } else if sc.redirs.output.len() > 0 {
        if sc.redirs.output[0].overwrite {
            Ok(StdoutPolicyView::OverwriteTo(sc.redirs.output[0].filename))
        } else {
            Ok(StdoutPolicyView::AppendTo(sc.redirs.output[0].filename))
        }
    } else if piped_out {
        Ok(StdoutPolicyView::Pipe)
    } else {
        Ok(StdoutPolicyView::Inherit)
    }
}

/// The command to execute for a simple command that reads from a pipe if
/// `piped_in` and writes to one if `piped_out`. The input is looked at
/// first.
pub open spec fn op_of_simple(sc: SimpleCommandView, piped_in: bool, piped_out: bool) -> Result<
    OpCommandView,
    Seq<char>,
> {
    match stdin_of(sc, piped_in) {
        Err(e) => Err(e),
        Ok(stdin) => match stdout_of(sc, piped_out) {
            Err(e) => Err(e),
            Ok(stdout) => Ok(OpCommandView { arguments: sc.arguments, stdin, stdout }),
        },
    }
}

/// The command to execute for a command. A subshell becomes a call of the
/// shell's own executable with `-c` and the text of what it encloses; its
/// own redirections are not kept.
pub open spec fn op_of(
    command: CommandView,
    piped_in: bool,
    piped_out: bool,
    exe: Result<Seq<char>, Seq<char>>,
) -> Result<OpCommandView, Seq<char>> {
    match command {
        CommandView::SimpleCommand(sc) => op_of_simple(sc, piped_in, piped_out),
        CommandView::Subshell(ss) => match exe {
            Err(e) => Err(e),
            Ok(path) => if writable(ss.complete_command) {
                op_of_simple(
                    SimpleCommandView {
                        arguments: seq![path, "-c"@, text_of_complete(ss.complete_command)],
                        redirs: no_redirs(),
                    },
                    piped_in,
                    piped_out,
                )
            } else {
                Err(err_empty_pipeline())
            },
        },
    }
}

/// The commands to execute for the commands of a pipeline that are still
/// to come, after those in `acc`. Each but the first reads from a pipe;
/// each but the last writes to one.
pub open spec fn ops_of_commands(
    commands: Seq<CommandView>,
    piped_in: bool,
    acc: Seq<OpCommandView>,
    exe: Result<Seq<char>, Seq<char>>,
) -> Result<Seq<OpCommandView>, Seq<char>>
    decreases commands.len(),
{
    if commands.len() == 0 {
        Ok(acc)
    } else {
        match op_of(commands[0], piped_in, commands.len() > 1, exe) {
            Err(e) => Err(e),
            Ok(op) => ops_of_commands(commands.skip(1), true, acc.push(op), exe),
        }
    }
}

/// The commands to execute for a pipeline, after those in `acc`. A
/// pipeline without commands is an error.
pub open spec fn ops_of_pipeline(
    pipeline: PipelineView,
    acc: Seq<OpCommandView>,
    exe: Result<Seq<char>, Seq<char>>,
) -> Result<Seq<OpCommandView>, Seq<char>> {
    if pipeline.commands.len() == 0 {
        Err(err_no_command())
    } else {
        ops_of_commands(pipeline.commands, false, acc, exe)
    }
}

/// The commands to execute for pipelines, in order, after those in `acc`.
pub open spec fn ops_of_pipelines(
    pipelines: Seq<PipelineView>,
    acc: Seq<OpCommandView>,
    exe: Result<Seq<char>, Seq<char>>,
) -> Result<Seq<OpCommandView>, Seq<char>>
    decreases pipelines.len(),
{
    if pipelines.len() == 0 {
        Ok(acc)
    } else {
        match ops_of_pipeline(pipelines[0], acc, exe) {
            Err(e) => Err(e),
            Ok(acc) => ops_of_pipelines(pipelines.skip(1), acc, exe),
        }
    }
}

/// The commands to execute for a complete command: one for each command,
/// in the order in which they are written.
pub open spec fn compile_spec(cc: CompleteCommandView, exe: Result<Seq<char>, Seq<char>>) -> Result<
    Seq<OpCommandView>,
    Seq<char>,
> {
    ops_of_pipelines(cc.pipelines, Seq::empty(), exe)
}

/// Compiles the parse tree to the commands to execute.
///
/// `current_exe` is the path of the shell's own executable, which runs the
/// subshells, or the reason why it could not be found; the reason is
/// returned where the tree holds a subshell.
pub fn compile(cc: CompleteCommand, current_exe: Result<String, Error>) -> (r: Result<
    VecDeque<OpCommand>,
    Error,
>)
    ensures
        match r {
            Ok(ops) => compile_spec(cc@, exe_view(current_exe)) == Ok::<
                Seq<OpCommandView>,
                Seq<char>,
            >(op_views(ops@)),
            Err(e) => compile_spec(cc@, exe_view(current_exe)) == Err::<
                Seq<OpCommandView>,
                Seq<char>,
            >(e@),
        },
{
    let mut compiler = Compiler::new(current_exe);
    match compiler.complete_command(cc) {
        Ok(()) => Ok(compiler.out),
        Err(e) => Err(e),
    }
}

/// The compiler implementation.
struct Compiler {
    out: VecDeque<OpCommand>,
    exe: Result<String, Error>,
}

impl Compiler {
    /// creates a new compiler
    fn new(exe: Result<String, Error>) -> (c: Compiler)
        ensures
            op_views(c.out@) == Seq::<OpCommandView>::empty(),
            c.exe == exe,
    {
        let c = Compiler { out: VecDeque::new(), exe };
        c
    }

    /// the executable that runs subshells, as the rules see it.
    spec fn exe(&self) -> Result<Seq<char>, Seq<char>> {
        exe_view(self.exe)
    }

    /// visits each pipeline inside the complete command.
    fn complete_command(&mut self, cc: CompleteCommand) -> (r: Result<(), Error>)
        ensures
            final(self).exe == old(self).exe,
            match r {
                Ok(()) => ops_of_pipelines(cc@.pipelines, op_views(old(self).out@), old(self).exe())
                    == Ok::<Seq<OpCommandView>, Seq<char>>(op_views(final(self).out@)),
                Err(e) => ops_of_pipelines(cc@.pipelines, op_views(old(self).out@), old(self).exe())
                    == Err::<Seq<OpCommandView>, Seq<char>>(e@),
            },
    {
        let mut pipelines = cc.pipelines;
        assert(pipeline_views(pipelines@) =~= cc@.pipelines);
        loop
            invariant
                self.exe == old(self).exe,
                ops_of_pipelines(cc@.pipelines, op_views(old(self).out@), self.exe())
                    == ops_of_pipelines(pipeline_views(pipelines@), op_views(self.out@), self.exe()),
            ensures
                pipelines@.len() == 0,
            decreases pipelines@.len(),
        {
            let ghost before = pipeline_views(pipelines@);
            match pipelines.pop_front() {
                None => break ,
                Some(p) => {
                    assert(pipeline_views(pipelines@) =~= before.skip(1));
                    match self.pipeline(p) {
                        Ok(()) => (),
                        Err(e) => return Err(e),
                    }
                },
            }
        }
        Ok(())
    }

    /// visits each command inside the pipeline.
    fn pipeline(&mut self, pipeline: Pipeline) -> (r: Result<(), Error>)
        ensures
            final(self).exe == old(self).exe,
            match r {
                Ok(()) => ops_of_pipeline(pipeline@, op_views(old(self).out@), old(self).exe()) == Ok::<
                    Seq<OpCommandView>,
                    Seq<char>,
                >(op_views(final(self).out@)),
                Err(e) => ops_of_pipeline(pipeline@, op_views(old(self).out@), old(self).exe()) == Err::<
                    Seq<OpCommandView>,
                    Seq<char>,
                >(e@),
            },
    {
        let mut commands = pipeline.commands;
        assert(command_views(commands@) =~= pipeline@.commands);
        if commands.len() == 0 {
            return Err(Error::new("sh: empty pipeline"));
        }
        let mut piped_in = false;
        loop
            invariant
                self.exe == old(self).exe,
                ops_of_pipeline(pipeline@, op_views(old(self).out@), self.exe()) == ops_of_commands(
                    command_views(commands@),
                    piped_in,
                    op_views(self.out@),
                    self.exe(),
                ),
            ensures
                commands@.len() == 0,
            decreases commands@.len(),
        {
            let ghost before = command_views(commands@);
            match commands.pop_front() {
                None => break ,
                Some(cmd) => {
                    assert(command_views(commands@) =~= before.skip(1));
                    let piped_out = commands.len() > 0;
                    match self.command(cmd, piped_in, piped_out) {
                        Ok(()) => (),
                        Err(e) => return Err(e),
                    }
                },
            }
            piped_in = true;
        }
        Ok(())
    }

    /// visits a specific command
    fn command(&mut self, command: Command, piped_in: bool, piped_out: bool) -> (r: Result<
        (),
        Error,
    >)
        ensures
            final(self).exe == old(self).exe,
            match r {
                Ok(()) => op_of(command@, piped_in, piped_out, old(self).exe()) matches Ok(op)
                    && op_views(final(self).out@) == op_views(old(self).out@).push(op),
                Err(e) => op_of(command@, piped_in, piped_out, old(self).exe()) == Err::<
                    OpCommandView,
                    Seq<char>,
                >(e@),
            },
    {
        match command {
            Command::SimpleCommand(cmd) => self.simple_command(cmd, piped_in, piped_out),
            Command::Subshell(ss) => self.subshell(ss, piped_in, piped_out),
        }
    }

    /// visits a simple command
    fn simple_command(&mut self, sc: SimpleCommand, piped_in: bool, piped_out: bool) -> (r: Result<
        (),
        Error,
    >)
        ensures
            final(self).exe == old(self).exe,
            match r {
                Ok(()) => op_of_simple(sc@, piped_in, piped_out) matches Ok(op) && op_views(
                    final(self).out@,
                ) == op_views(old(self).out@).push(op),
                Err(e) => op_of_simple(sc@, piped_in, piped_out) == Err::<OpCommandView, Seq<char>>(
                    e@,
                ),
            },
    {
        let mut redirs = sc.redirs;
        let mut cmd = OpCommand {
            arguments: sc.arguments,
            stdin: StdinPolicy::Inherit,
            stdout: StdoutPolicy::Inherit,
        };
        if redirs.input.len() > 0 && piped_in {
            return Err(Error::new("sh: input redirection used inside pipeline"));
        } else if redirs.input.len() > 0 {
            let first = redirs.input.pop_front().unwrap();
            cmd.stdin = StdinPolicy::ReadFrom(first.filename);
        } else if piped_in {
            cmd.stdin = StdinPolicy::Pipe;
        }
        if redirs.output.len() > 0 && piped_out {
            return Err(Error::new("sh: output redirection used inside pipeline"));
        } else if redirs.output.len() > 0 {
            let first = redirs.output.pop_front().unwrap();
            if first.overwrite {
                cmd.stdout = StdoutPolicy::OverwriteTo(first.filename);
            } else {
                cmd.stdout = StdoutPolicy::AppendTo(first.filename);
            }
        } else if piped_out {
            cmd.stdout = StdoutPolicy::Pipe;
        }
        self.out.push_back(cmd);
        Ok(())
    }

    /// visits a subshell
    fn subshell(&mut self, ss: Subshell, piped_in: bool, piped_out: bool) -> (r: Result<(), Error>)
        ensures
            final(self).exe == old(self).exe,
            match r {
                Ok(()) => op_of(CommandView::Subshell(ss@), piped_in, piped_out, old(self).exe())
                    matches Ok(op) && op_views(final(self).out@) == op_views(old(self).out@).push(
                    op,
                ),
                Err(e) => op_of(CommandView::Subshell(ss@), piped_in, piped_out, old(self).exe())
                    == Err::<OpCommandView, Seq<char>>(e@),
            },
    {
        let mut scmd = SimpleCommand { arguments: VecDeque::new(), redirs: RedirectList::new() };
        let exe = match &self.exe {
            Ok(path) => path.clone(),
            Err(e) => return Err(e.clone()),
        };
        scmd.arguments.push_back(exe);
        scmd.arguments.push_back(String::from_str("-c"));
        let serialized = match serialize(ss.complete_command) {
            Ok(text) => text,
            Err(e) => return Err(e),
        };
        scmd.arguments.push_back(serialized);
        assert(scmd@.arguments =~= seq![exe@, "-c"@, text_of_complete(ss@.complete_command)]);
        self.simple_command(scmd, piped_in, piped_out)
    }
}

} // verus!
