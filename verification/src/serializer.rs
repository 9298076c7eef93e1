//! Serializes the syntax tree back to shell syntax, for subshells.

use crate::lexer::scan_spec;
use crate::model::Error;
use crate::parser::{
    Command, CommandView, CompleteCommand, CompleteCommandView, Pipeline, PipelineView,
    RedirectList, RedirectListView, SimpleCommand, Subshell,
};
use crate::parser::parse_spec;
use crate::roundtrip::{lemma_round_trip, plain_complete};
use vstd::prelude::*;
use vstd::string::StringExecFns;

verus! {

/// Reason given when a pipeline without commands is to be written.
pub open spec fn err_empty_pipeline() -> Seq<char> {
    "empty pipeline"@
}

/// The words from the one at `from` on, with one space between neighbours.
pub open spec fn join_words(words: Seq<Seq<char>>, from: int) -> Seq<char>
    decreases words.len() - from,
{
    if from < 0 || from >= words.len() {
        Seq::empty()
    } else if from == words.len() - 1 {
        words[from]
    } else {
        words[from] + seq![' '] + join_words(words, from + 1)
    }
}

/// The text of an input redirection: of those collected, the first.
pub open spec fn text_of_input(redirs: RedirectListView) -> Seq<char> {
    if redirs.input.len() > 0 {
        seq!['<'] + redirs.input[0].filename
    } else {
        Seq::empty()
    }
}

/// The text of an output redirection: of those collected, the first.
pub open spec fn text_of_output(redirs: RedirectListView) -> Seq<char> {
    if redirs.output.len() > 0 {
        if redirs.output[0].overwrite {
            seq!['>'] + redirs.output[0].filename
        } else {
            seq!['>', '>'] + redirs.output[0].filename
        }
    } else {
        Seq::empty()
    }
}

/// The text of a command's redirections: input, then output.
pub open spec fn text_of_redirs(redirs: RedirectListView) -> Seq<char> {
    text_of_input(redirs) + text_of_output(redirs)
}

/// The text of a command: its words and redirections, or its complete
/// command in parentheses and its redirections.
pub open spec fn text_of_command(command: CommandView) -> Seq<char>
    decreases command, 0nat,
{
    match command {
        CommandView::SimpleCommand(sc) => join_words(sc.arguments, 0) + text_of_redirs(sc.redirs),
        CommandView::Subshell(ss) => seq!['('] + text_of_complete(ss.complete_command) + seq![')']
            + text_of_redirs(ss.redirs),
    }
}

/// The commands from the one at `from` on, with `|` between neighbours.
pub open spec fn join_commands(commands: Seq<CommandView>, from: int) -> Seq<char>
    decreases commands, commands.len() - from,
{
    if from < 0 || from >= commands.len() {
        Seq::empty()
    } else if from == commands.len() - 1 {
        text_of_command(commands[from])
    } else {
        text_of_command(commands[from]) + seq!['|'] + join_commands(commands, from + 1)
    }
}

/// The text of a pipeline. Whether it is synchronous is not written.
pub open spec fn text_of_pipeline(pipeline: PipelineView) -> Seq<char>
    decreases pipeline, 0nat,
{
    join_commands(pipeline.commands, 0)
}

/// The pipelines from the one at `from` on, with `;` between neighbours.
pub open spec fn join_pipelines(pipelines: Seq<PipelineView>, from: int) -> Seq<char>
    decreases pipelines, pipelines.len() - from,
{
    if from < 0 || from >= pipelines.len() {
        Seq::empty()
    } else if from == pipelines.len() - 1 {
        text_of_pipeline(pipelines[from])
    } else {
        text_of_pipeline(pipelines[from]) + seq![';'] + join_pipelines(pipelines, from + 1)
    }
}

/// The canonical text of a complete command, on one line.
pub open spec fn text_of_complete(cc: CompleteCommandView) -> Seq<char>
    decreases cc, 0nat,
{
    join_pipelines(cc.pipelines, 0)
}

/// Whether a command can be written: whether what a subshell encloses can.
pub open spec fn command_writable(command: CommandView) -> bool
    decreases command,
{
    match command {
        CommandView::SimpleCommand(sc) => true,
        CommandView::Subshell(ss) => writable(ss.complete_command),
    }
}

/// Whether a pipeline can be written: it has a command, and each of its
/// commands can be written.
pub open spec fn pipeline_writable(pipeline: PipelineView) -> bool
    decreases pipeline,
{
    &&& pipeline.commands.len() > 0
    &&& forall|i: int|
        0 <= i < pipeline.commands.len() ==> command_writable(#[trigger] pipeline.commands[i])
}

/// Whether a complete command can be written: no pipeline in it, at any
/// depth, is without commands.
pub open spec fn writable(cc: CompleteCommandView) -> bool
    decreases cc,
{
    forall|i: int| 0 <= i < cc.pipelines.len() ==> pipeline_writable(#[trigger] cc.pipelines[i])
}

/// Serializes the parse tree to string.
///
/// Words are written as they are, with nothing to quote them. So the text
/// reads back as the same tree only if the tree is plain
/// (`plain_complete`): its words and file names then hold no blank and no
/// character of an operator, among other things.
pub fn serialize(cc: CompleteCommand) -> (r: Result<String, Error>)
    ensures
        match r {
            Ok(text) => writable(cc@) && text@ == text_of_complete(cc@),
            Err(e) => !writable(cc@) && e@ == err_empty_pipeline(),
        },
        plain_complete(cc@) ==> (r matches Ok(text) && parse_spec(scan_spec(text@)) == Ok::<
            CompleteCommandView,
            Seq<char>,
        >(cc@)),
{
    proof {
        if plain_complete(cc@) {
            lemma_round_trip(cc@);
        }
    }
    let mut serializer = Serializer::new();
    match serializer.complete_command(&cc) {
        Ok(()) => Ok(serializer.out),
        Err(e) => Err(e),
    }
}

/// Implements serialization.
struct Serializer {
    out: String,
}

impl Serializer {
    /// creates a new serializer instance.
    fn new() -> (s: Serializer)
        ensures
            s.out@ == Seq::<char>::empty(),
    {
        Serializer { out: String::new() }
    }

    /// visits each pipeline inside the complete command.
    fn complete_command(&mut self, cc: &CompleteCommand) -> (r: Result<(), Error>)
        ensures
            match r {
                Ok(()) => writable(cc@) && final(self).out@ == old(self).out@ + text_of_complete(
                    cc@,
                ),
                Err(e) => !writable(cc@) && e@ == err_empty_pipeline(),
            },
        decreases cc, 1nat,
    {
        let n: usize = cc.pipelines.len();
        let mut i: usize = 0;
        while i < n
            invariant
                n == cc.pipelines@.len(),
                i <= n,
                forall|j: int| 0 <= j < i ==> pipeline_writable(#[trigger] cc@.pipelines[j]),
                old(self).out@ + join_pipelines(cc@.pipelines, 0) == self.out@ + join_pipelines(
                    cc@.pipelines,
                    i as int,
                ),
            decreases n - i,
        {
            match self.pipeline(&cc.pipelines[i]) {
                Ok(()) => (),
                Err(e) => return Err(e),
            }
            if i + 1 < n {
                self.out.push(';');
            }
            i += 1;
        }
        Ok(())
    }

    /// visits each command inside the pipeline.
    fn pipeline(&mut self, pipeline: &Pipeline) -> (r: Result<(), Error>)
        ensures
            match r {
                Ok(()) => pipeline_writable(pipeline@) && final(self).out@ == old(self).out@
                    + text_of_pipeline(pipeline@),
                Err(e) => !pipeline_writable(pipeline@) && e@ == err_empty_pipeline(),
            },
        decreases pipeline, 1nat,
    {
        let n: usize = pipeline.commands.len();
        if n == 0 {
            return Err(Error::new("empty pipeline"));
        }
        let mut i: usize = 0;
        while i < n
            invariant
                n == pipeline.commands@.len(),
                i <= n,
                forall|j: int| 0 <= j < i ==> command_writable(#[trigger] pipeline@.commands[j]),
                old(self).out@ + join_commands(pipeline@.commands, 0) == self.out@ + join_commands(
                    pipeline@.commands,
                    i as int,
                ),
            decreases n - i,
        {
            match self.command(&pipeline.commands[i]) {
                Ok(()) => (),
                Err(e) => return Err(e),
            }
            if i + 1 < n {
                self.out.push('|');
            }
            i += 1;
        }
        Ok(())
    }

    /// visits a specific command
    fn command(&mut self, command: &Command) -> (r: Result<(), Error>)
        ensures
            match r {
                Ok(()) => command_writable(command@) && final(self).out@ == old(self).out@
                    + text_of_command(command@),
                Err(e) => !command_writable(command@) && e@ == err_empty_pipeline(),
            },
        decreases command, 1nat,
    {
        match command {
            Command::SimpleCommand(cmd) => self.simple_command(cmd),
            Command::Subshell(ss) => self.subshell(ss),
        }
    }

    /// visits a simple command
    fn simple_command(&mut self, sc: &SimpleCommand) -> (r: Result<(), Error>)
        ensures
            r is Ok,
            final(self).out@ == old(self).out@ + join_words(sc@.arguments, 0) + text_of_redirs(
                sc@.redirs,
            ),
    {
        let n: usize = sc.arguments.len();
        let mut i: usize = 0;
        while i < n
            invariant
                n == sc.arguments@.len(),
                i <= n,
                old(self).out@ + join_words(sc@.arguments, 0) == self.out@ + join_words(
                    sc@.arguments,
                    i as int,
                ),
            decreases n - i,
        {
            self.out.append(sc.arguments[i].as_str());
            if i + 1 < n {
                self.out.push(' ');
            }
            i += 1;
        }
        self.redirs(&sc.redirs)
    }

    /// visits a subshell
    fn subshell(&mut self, ss: &Subshell) -> (r: Result<(), Error>)
        ensures
            match r {
                Ok(()) => writable(ss@.complete_command) && final(self).out@ == old(self).out@
                    + seq!['('] + text_of_complete(ss@.complete_command) + seq![')']
                    + text_of_redirs(ss@.redirs),
                Err(e) => !writable(ss@.complete_command) && e@ == err_empty_pipeline(),
            },
        decreases ss, 1nat,
    {
        self.out.push('(');
        match self.complete_command(&ss.complete_command) {
            Ok(()) => (),
            Err(e) => return Err(e),
        }
        self.out.push(')');
        self.redirs(&ss.redirs)
    }

    /// visit redirs
    fn redirs(&mut self, redirs: &RedirectList) -> (r: Result<(), Error>)
        ensures
            r is Ok,
            final(self).out@ == old(self).out@ + text_of_redirs(redirs@),
    {
        if redirs.input.len() > 0 {
            self.out.push('<');
            self.out.append(redirs.input[0].filename.as_str());
        }
        if redirs.output.len() > 0 {
            if redirs.output[0].overwrite {
                self.out.push('>');
            } else {
                self.out.push('>');
                self.out.push('>');
            }
            self.out.append(redirs.output[0].filename.as_str());
        }
        Ok(())
    }
}

} // verus!
