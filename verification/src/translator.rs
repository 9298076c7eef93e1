//! Translates the syntax tree to an executable syntax tree.

use crate::model::{exe_view, Error};
use crate::parser::{
    command_views, pipeline_views, simple_views, words, Command, CommandView, CompleteCommand,
    CompleteCommandView, InputRedir, InputRedirView, OutputRedir, OutputRedirView, Pipeline,
    PipelineView, RedirectListView, SimpleCommand, SimpleCommandView, Subshell,
};
use crate::serializer::{err_empty_pipeline, serialize, text_of_complete, writable};
use std::collections::VecDeque;
use vstd::prelude::*;
use vstd::string::StringExecFns;

verus! {

/// Contains a list of commands to run serially.
#[derive(Debug, PartialEq, Eq)]
pub struct ListOfCommands {
    pub pipelines: VecDeque<CompoundSerialCommand>,
}

/// A command that is run serially.
#[derive(Debug, PartialEq, Eq)]
pub enum CompoundSerialCommand {
    SingleCommand(SingleCommand),
    PipelinedCommands(PipelinedCommands),
}

/// A single, standalone command.
#[derive(Debug, PartialEq, Eq)]
pub struct SingleCommand {
    pub arguments: VecDeque<String>,
    pub input: Option<InputRedir>,
    pub output: Option<OutputRedir>,
    pub sync: bool,
}

/// A pipeline consisting of a SourceCommand, zero or more
/// FilterCommands and a SinkCommand.
#[derive(Debug, PartialEq, Eq)]
pub struct PipelinedCommands {
    pub source: SourceCommand,
    pub filters: VecDeque<FilterCommand>,
    pub sink: SinkCommand,
    pub sync: bool,
}

/// The source command of a pipeline.
#[derive(Debug, PartialEq, Eq)]
pub struct SourceCommand {
    pub arguments: VecDeque<String>,
    pub input: Option<InputRedir>,
}

/// A filter command in the middle of a pipeline.
#[derive(Debug, PartialEq, Eq)]
pub struct FilterCommand {
    pub arguments: VecDeque<String>,
}

/// The sink command of a pipeline.
#[derive(Debug, PartialEq, Eq)]
pub struct SinkCommand {
    pub arguments: VecDeque<String>,
    pub output: Option<OutputRedir>,
}

/// A single command, with its words as sequences of characters.
#[verifier::ext_equal]
pub struct SingleCommandView {
    pub arguments: Seq<Seq<char>>,
    pub input: Option<InputRedirView>,
    pub output: Option<OutputRedirView>,
    pub sync: bool,
}

/// The source command of a pipeline, with its words as sequences of
/// characters.
#[verifier::ext_equal]
pub struct SourceCommandView {
    pub arguments: Seq<Seq<char>>,
    pub input: Option<InputRedirView>,
}

/// A filter command, with its words as sequences of characters.
#[verifier::ext_equal]
pub struct FilterCommandView {
    pub arguments: Seq<Seq<char>>,
}

/// The sink command of a pipeline, with its words as sequences of
/// characters.
#[verifier::ext_equal]
pub struct SinkCommandView {
    pub arguments: Seq<Seq<char>>,
    pub output: Option<OutputRedirView>,
}

/// A pipeline of commands, with its filters as a sequence.
#[verifier::ext_equal]
pub struct PipelinedCommandsView {
    pub source: SourceCommandView,
    pub filters: Seq<FilterCommandView>,
    pub sink: SinkCommandView,
    pub sync: bool,
}

/// A command of a plan, as a mathematical value.
#[verifier::ext_equal]
pub enum CompoundSerialCommandView {
    SingleCommand(SingleCommandView),
    PipelinedCommands(PipelinedCommandsView),
}

/// A plan, with its commands as a sequence.
#[verifier::ext_equal]
pub struct ListOfCommandsView {
    pub pipelines: Seq<CompoundSerialCommandView>,
}

/// The view of an input redirection that may be absent.
pub open spec fn input_view(input: Option<InputRedir>) -> Option<InputRedirView> {
    match input {
        Some(r) => Some(r@),
        None => None,
    }
}

/// The view of an output redirection that may be absent.
pub open spec fn output_view(output: Option<OutputRedir>) -> Option<OutputRedirView> {
    match output {
        Some(r) => Some(r@),
        None => None,
    }
}

/// The views of filters, in order.
pub open spec fn filter_views(filters: Seq<FilterCommand>) -> Seq<FilterCommandView> {
    filters.map_values(|f: FilterCommand| f@)
}

/// The views of the commands of a plan, in order.
pub open spec fn compound_views(commands: Seq<CompoundSerialCommand>) -> Seq<
    CompoundSerialCommandView,
> {
    commands.map_values(|c: CompoundSerialCommand| c@)
}

impl View for SingleCommand {
    type V = SingleCommandView;

    open spec fn view(&self) -> SingleCommandView {
        SingleCommandView {
            arguments: words(self.arguments@),
            input: input_view(self.input),
            output: output_view(self.output),
            sync: self.sync,
        }
    }
}

impl View for SourceCommand {
    type V = SourceCommandView;

    open spec fn view(&self) -> SourceCommandView {
        SourceCommandView { arguments: words(self.arguments@), input: input_view(self.input) }
    }
}

impl View for FilterCommand {
    type V = FilterCommandView;

    open spec fn view(&self) -> FilterCommandView {
        FilterCommandView { arguments: words(self.arguments@) }
    }
}

impl View for SinkCommand {
    type V = SinkCommandView;

    open spec fn view(&self) -> SinkCommandView {
        SinkCommandView { arguments: words(self.arguments@), output: output_view(self.output) }
    }
}

impl View for PipelinedCommands {
    type V = PipelinedCommandsView;

    open spec fn view(&self) -> PipelinedCommandsView {
        PipelinedCommandsView {
            source: self.source@,
            filters: filter_views(self.filters@),
            sink: self.sink@,
            sync: self.sync,
        }
    }
}

impl View for CompoundSerialCommand {
    type V = CompoundSerialCommandView;

    open spec fn view(&self) -> CompoundSerialCommandView {
        match self {
            CompoundSerialCommand::SingleCommand(sc) => CompoundSerialCommandView::SingleCommand(
                sc@,
            ),
            CompoundSerialCommand::PipelinedCommands(pc) => {
                CompoundSerialCommandView::PipelinedCommands(pc@)
            },
        }
    }
}

impl View for ListOfCommands {
    type V = ListOfCommandsView;

    open spec fn view(&self) -> ListOfCommandsView {
        ListOfCommandsView { pipelines: compound_views(self.pipelines@) }
    }
}

/// Reason given when a command has two or more input redirections.
pub open spec fn err_many_inputs() -> Seq<char> {
    "more than one input redirection"@
}

/// Reason given when a command has two or more output redirections.
pub open spec fn err_many_outputs() -> Seq<char> {
    "more than one output redirection"@
}

/// Reason given when the first command of a pipeline redirects its output.
pub open spec fn err_source_output() -> Seq<char> {
    "output redirection for pipeline source"@
}

/// Reason given when a middle command of a pipeline redirects its input.
pub open spec fn err_filter_input() -> Seq<char> {
    "input redirection for pipeline filter"@
}

/// Reason given when a middle command of a pipeline redirects its output.
pub open spec fn err_filter_output() -> Seq<char> {
    "output redirection for pipeline filter"@
}

/// Reason given when the last command of a pipeline redirects its input.
pub open spec fn err_sink_input() -> Seq<char> {
    "input redirection for pipeline sink"@
}

/// The arguments of the shell that runs a subshell: the executable, `-c`
/// and the text of the enclosed commands, and `-x` last where tracing is on.
pub open spec fn subshell_arguments(exe: Seq<char>, text: Seq<char>, verbose: bool) -> Seq<
    Seq<char>,
> {
    if verbose {
        seq![exe, "-c"@, text, "-x"@]
    } else {
        seq![exe, "-c"@, text]
    }
}

/// The simple command that stands for a command. A simple command stands
/// for itself. A subshell becomes a call of the shell's own executable on
/// the text of what it encloses, with the subshell's redirections; this
/// fails where the executable is not known, with the reason given for
/// that, or else where the enclosed commands cannot be written.
pub open spec fn simple_of(
    command: CommandView,
    verbose: bool,
    exe: Result<Seq<char>, Seq<char>>,
) -> Result<SimpleCommandView, Seq<char>> {
    match command {
        CommandView::SimpleCommand(sc) => Ok(sc),
        CommandView::Subshell(ss) => match exe {
            Err(e) => Err(e),
            Ok(path) => if writable(ss.complete_command) {
                Ok(
                    SimpleCommandView {
                        arguments: subshell_arguments(
                            path,
                            text_of_complete(ss.complete_command),
                            verbose,
                        ),
                        redirs: ss.redirs,
                    },
                )
            } else {
                Err(err_empty_pipeline())
            },
        },
    }
}

/// The simple commands that stand for `commands`, after those in `acc`.
/// A command without words does nothing and is left out. The first
/// command that fails decides the error.
pub open spec fn simples_of(
    commands: Seq<CommandView>,
    acc: Seq<SimpleCommandView>,
    verbose: bool,
    exe: Result<Seq<char>, Seq<char>>,
) -> Result<Seq<SimpleCommandView>, Seq<char>>
    decreases commands.len(),
{
    if commands.len() == 0 {
        Ok(acc)
    } else {
        match simple_of(commands[0], verbose, exe) {
            Err(e) => Err(e),
            Ok(sc) => simples_of(
                commands.skip(1),
                if sc.arguments.len() == 0 {
                    acc
                } else {
                    acc.push(sc)
                },
                verbose,
                exe,
            ),
        }
    }
}

/// The one input redirection of a command that may have at most one.
pub open spec fn sole_input(redirs: RedirectListView) -> Option<InputRedirView> {
    if redirs.input.len() == 0 {
        None
    } else {
        Some(redirs.input[0])
    }
}

/// The one output redirection of a command that may have at most one.
pub open spec fn sole_output(redirs: RedirectListView) -> Option<OutputRedirView> {
    if redirs.output.len() == 0 {
        None
    } else {
        Some(redirs.output[0])
    }
}

/// A command that runs alone: at most one input and at most one output
/// redirection.
pub open spec fn single_of(sc: SimpleCommandView, sync: bool) -> Result<
    SingleCommandView,
    Seq<char>,
> {
    if sc.redirs.input.len() > 1 {
        Err(err_many_inputs())
    } else if sc.redirs.output.len() > 1 {
        Err(err_many_outputs())
    } else {
        Ok(
            SingleCommandView {
                arguments: sc.arguments,
                input: sole_input(sc.redirs),
                output: sole_output(sc.redirs),
                sync,
            },
        )
    }
}

/// The first command of a pipeline: at most one input redirection, no
/// output redirection.
pub open spec fn source_of(sc: SimpleCommandView) -> Result<SourceCommandView, Seq<char>> {
    if sc.redirs.input.len() > 1 {
        Err(err_many_inputs())
    } else if sc.redirs.output.len() > 0 {
        Err(err_source_output())
    } else {
        Ok(SourceCommandView { arguments: sc.arguments, input: sole_input(sc.redirs) })
    }
}

/// A middle command of a pipeline: no redirection.
pub open spec fn filter_of(sc: SimpleCommandView) -> Result<FilterCommandView, Seq<char>> {
    if sc.redirs.input.len() > 0 {
        Err(err_filter_input())
    } else if sc.redirs.output.len() > 0 {
        Err(err_filter_output())
    } else {
        Ok(FilterCommandView { arguments: sc.arguments })
    }
}

/// The last command of a pipeline: no input redirection, at most one
/// output redirection.
pub open spec fn sink_of(sc: SimpleCommandView) -> Result<SinkCommandView, Seq<char>> {
    if sc.redirs.input.len() > 0 {
        Err(err_sink_input())
    } else if sc.redirs.output.len() > 1 {
        Err(err_many_outputs())
    } else {
        Ok(SinkCommandView { arguments: sc.arguments, output: sole_output(sc.redirs) })
    }
}

/// The filters of a pipeline whose commands after the first are `rest`:
/// all of `rest` but its last command, after the filters in `acc`. The
/// first command that breaks a rule decides the error.
pub open spec fn filters_of(rest: Seq<SimpleCommandView>, acc: Seq<FilterCommandView>) -> Result<
    Seq<FilterCommandView>,
    Seq<char>,
>
    decreases rest.len(),
{
    if rest.len() <= 1 {
        Ok(acc)
    } else {
        match filter_of(rest[0]) {
            Err(e) => Err(e),
            Ok(filter) => filters_of(rest.skip(1), acc.push(filter)),
        }
    }
}

/// Two or more commands joined by pipes: the first is the source, the
/// last the sink and those between them the filters. The rules are
/// checked from left to right.
pub open spec fn pipelined_of(commands: Seq<SimpleCommandView>, sync: bool) -> Result<
    PipelinedCommandsView,
    Seq<char>,
>
    recommends
        commands.len() >= 2,
{
    match source_of(commands[0]) {
        Err(e) => Err(e),
        Ok(source) => match filters_of(commands.skip(1), Seq::empty()) {
            Err(e) => Err(e),
            Ok(filters) => match sink_of(commands.last()) {
                Err(e) => Err(e),
                Ok(sink) => Ok(PipelinedCommandsView { source, filters, sink, sync }),
            },
        },
    }
}

/// What a pipeline becomes: nothing where no command with a word is left,
/// a single command where one is left, a pipeline of commands otherwise.
/// The pipeline's `sync` is handed on unchanged.
pub open spec fn compound_of(
    pipeline: PipelineView,
    verbose: bool,
    exe: Result<Seq<char>, Seq<char>>,
) -> Result<Option<CompoundSerialCommandView>, Seq<char>> {
    match simples_of(pipeline.commands, Seq::empty(), verbose, exe) {
        Err(e) => Err(e),
        Ok(commands) => if commands.len() == 0 {
            Ok(None)
        } else if commands.len() == 1 {
            match single_of(commands[0], pipeline.sync) {
                Err(e) => Err(e),
                Ok(single) => Ok(Some(CompoundSerialCommandView::SingleCommand(single))),
            }
        } else {
            match pipelined_of(commands, pipeline.sync) {
                Err(e) => Err(e),
                Ok(pipelined) => Ok(Some(CompoundSerialCommandView::PipelinedCommands(pipelined))),
            }
        },
    }
}

/// What the pipelines become, in order, after the commands in `acc`. The
/// first pipeline that fails decides the error.
pub open spec fn compounds_of(
    pipelines: Seq<PipelineView>,
    acc: Seq<CompoundSerialCommandView>,
    verbose: bool,
    exe: Result<Seq<char>, Seq<char>>,
) -> Result<Seq<CompoundSerialCommandView>, Seq<char>>
    decreases pipelines.len(),
{
    if pipelines.len() == 0 {
        Ok(acc)
    } else {
        match compound_of(pipelines[0], verbose, exe) {
            Err(e) => Err(e),
            Ok(None) => compounds_of(pipelines.skip(1), acc, verbose, exe),
            Ok(Some(compound)) => compounds_of(pipelines.skip(1), acc.push(compound), verbose, exe),
        }
    }
}

/// The execution plan of a complete command.
pub open spec fn translate_spec(
    cc: CompleteCommandView,
    verbose: bool,
    exe: Result<Seq<char>, Seq<char>>,
) -> Result<ListOfCommandsView, Seq<char>> {
    match compounds_of(cc.pipelines, Seq::empty(), verbose, exe) {
        Err(e) => Err(e),
        Ok(pipelines) => Ok(ListOfCommandsView { pipelines }),
    }
}

/// A command of a plan has a program to run: its first word.
pub open spec fn compound_ok(c: CompoundSerialCommandView) -> bool {
    match c {
        CompoundSerialCommandView::SingleCommand(single) => single.arguments.len() >= 1,
        CompoundSerialCommandView::PipelinedCommands(pipelined) => {
            &&& pipelined.source.arguments.len() >= 1
            &&& pipelined.sink.arguments.len() >= 1
            &&& forall|i: int|
                0 <= i < pipelined.filters.len() ==> (#[trigger] pipelined.filters[i]).arguments.len()
                    >= 1
        },
    }
}

/// A plan as the translator makes it: every command has at least one word.
pub open spec fn plan_ok(loc: ListOfCommandsView) -> bool {
    forall|i: int| 0 <= i < loc.pipelines.len() ==> compound_ok(#[trigger] loc.pipelines[i])
}

/// The redirections that a command may have where it stands in a pipeline
/// of `n` commands, at place `i`: alone, at most one input and one output;
/// first, at most one input and no output; last, no input and at most one
/// output; between them, none.
pub open spec fn redirs_allowed(redirs: RedirectListView, i: int, n: int) -> bool {
    &&& redirs.input.len() <= (if i == 0 {
        1nat
    } else {
        0nat
    })
    &&& redirs.output.len() <= (if i == n - 1 {
        1nat
    } else {
        0nat
    })
}

/// The simple commands that stand for commands all have a word.
pub proof fn lemma_simples_have_words(
    commands: Seq<CommandView>,
    acc: Seq<SimpleCommandView>,
    verbose: bool,
    exe: Result<Seq<char>, Seq<char>>,
)
    requires
        forall|i: int| 0 <= i < acc.len() ==> (#[trigger] acc[i]).arguments.len() >= 1,
    ensures
        simples_of(commands, acc, verbose, exe) matches Ok(simples) ==> forall|i: int|
            0 <= i < simples.len() ==> (#[trigger] simples[i]).arguments.len() >= 1,
    decreases commands.len(),
{
    if commands.len() > 0 {
        if let Ok(sc) = simple_of(commands[0], verbose, exe) {
            let next = if sc.arguments.len() == 0 {
                acc
            } else {
                acc.push(sc)
            };
            lemma_simples_have_words(commands.skip(1), next, verbose, exe);
        }
    }
}

/// The filters are the commands between the first and the last, in
/// order, each with its words and without redirections.
pub proof fn lemma_filters(rest: Seq<SimpleCommandView>, acc: Seq<FilterCommandView>)
    ensures
        filters_of(rest, acc) matches Ok(filters) ==> {
            &&& filters.len() == acc.len() + (if rest.len() >= 1 {
                rest.len() - 1
            } else {
                0
            })
            &&& forall|i: int| 0 <= i < acc.len() ==> filters[i] == acc[i]
            &&& forall|i: int|
                0 <= i < rest.len() - 1 ==> {
                    &&& (#[trigger] filters[acc.len() + i]).arguments == rest[i].arguments
                    &&& rest[i].redirs.input.len() == 0
                    &&& rest[i].redirs.output.len() == 0
                }
        },
    decreases rest.len(),
{
    if rest.len() > 1 {
        if let Ok(filter) = filter_of(rest[0]) {
            lemma_filters(rest.skip(1), acc.push(filter));
            if let Ok(filters) = filters_of(rest, acc) {
                assert forall|i: int| 0 <= i < rest.len() - 1 implies {
                    &&& (#[trigger] filters[acc.len() + i]).arguments == rest[i].arguments
                    &&& rest[i].redirs.input.len() == 0
                    &&& rest[i].redirs.output.len() == 0
                } by {
                    if i > 0 {
                        assert(filters[acc.push(filter).len() + (i - 1)].arguments == rest.skip(
                            1,
                        )[i - 1].arguments);
                    }
                }
            }
        }
    }
}

/// Where a pipeline is accepted, each of its commands that has a word has
/// only the redirections that its place allows, and the command of the
/// plan that it becomes has a word at every place.
pub proof fn lemma_compound(pipeline: PipelineView, verbose: bool, exe: Result<Seq<char>, Seq<char>>)
    ensures
        compound_of(pipeline, verbose, exe) is Ok ==> {
            &&& simples_of(pipeline.commands, Seq::empty(), verbose, exe) matches Ok(simples)
            &&& forall|i: int|
                0 <= i < simples.len() ==> redirs_allowed(
                    (#[trigger] simples[i]).redirs,
                    i,
                    simples.len() as int,
                )
        },
        compound_of(pipeline, verbose, exe) matches Ok(Some(c)) ==> compound_ok(c),
{
    lemma_simples_have_words(pipeline.commands, Seq::empty(), verbose, exe);
    if let Ok(simples) = simples_of(pipeline.commands, Seq::empty(), verbose, exe) {
        if simples.len() >= 2 {
            lemma_filters(simples.skip(1), Seq::empty());
            if let Ok(filters) = filters_of(simples.skip(1), Seq::empty()) {
                assert forall|i: int| 0 <= i < filters.len() implies (#[trigger] filters[i]).arguments.len()
                    >= 1 by {
                    assert(filters[0 + i].arguments == simples.skip(1)[i].arguments);
                }
                if compound_of(pipeline, verbose, exe) is Ok {
                    assert forall|i: int| 0 <= i < simples.len() implies redirs_allowed(
                        (#[trigger] simples[i]).redirs,
                        i,
                        simples.len() as int,
                    ) by {
                        if 0 < i < simples.len() - 1 {
                            assert(filters[0 + (i - 1)].arguments == simples.skip(1)[i
                                - 1].arguments);
                        }
                    }
                }
            }
        }
    }
}

/// Whether a pipeline can be translated: each of its commands has a
/// simple command that stands for it, and each of these that has a word
/// has only the redirections that its place among them allows.
pub open spec fn obeys(pipeline: PipelineView, verbose: bool, exe: Result<Seq<char>, Seq<char>>) -> bool {
    &&& simples_of(pipeline.commands, Seq::empty(), verbose, exe) matches Ok(simples)
    &&& forall|i: int|
        0 <= i < simples.len() ==> redirs_allowed(
            (#[trigger] simples[i]).redirs,
            i,
            simples.len() as int,
        )
}

/// Commands without redirections between the first and the last make
/// filters.
pub proof fn lemma_filters_accepted(rest: Seq<SimpleCommandView>, acc: Seq<FilterCommandView>)
    requires
        forall|i: int|
            0 <= i < rest.len() - 1 ==> (#[trigger] rest[i]).redirs.input.len() == 0
                && rest[i].redirs.output.len() == 0,
    ensures
        filters_of(rest, acc) is Ok,
    decreases rest.len(),
{
    if rest.len() > 1 {
        assert(rest[0].redirs.input.len() == 0);
        let filter = filter_of(rest[0])->Ok_0;
        assert forall|i: int| 0 <= i < rest.skip(1).len() - 1 implies (#[trigger] rest.skip(
            1,
        )[i]).redirs.input.len() == 0 && rest.skip(1)[i].redirs.output.len() == 0 by {
            assert(rest.skip(1)[i] == rest[i + 1]);
        }
        lemma_filters_accepted(rest.skip(1), acc.push(filter));
    }
}

/// A pipeline is translated without error if and only if it obeys the
/// rules on redirections and each of its commands has a simple command
/// that stands for it.
pub proof fn lemma_compound_accepted(
    pipeline: PipelineView,
    verbose: bool,
    exe: Result<Seq<char>, Seq<char>>,
)
    ensures
        compound_of(pipeline, verbose, exe) is Ok <==> obeys(pipeline, verbose, exe),
{
    lemma_compound(pipeline, verbose, exe);
    if obeys(pipeline, verbose, exe) {
        let simples = simples_of(pipeline.commands, Seq::empty(), verbose, exe)->Ok_0;
        let n = simples.len() as int;
        if n == 1 {
            assert(redirs_allowed(simples[0].redirs, 0, n));
        } else if n >= 2 {
            assert(redirs_allowed(simples[0].redirs, 0, n));
            assert(redirs_allowed(simples[n - 1].redirs, n - 1, n));
            assert(simples.last() == simples[n - 1]);
            assert forall|i: int| 0 <= i < simples.skip(1).len() - 1 implies (#[trigger] simples.skip(
                1,
            )[i]).redirs.input.len() == 0 && simples.skip(1)[i].redirs.output.len() == 0 by {
                assert(simples.skip(1)[i] == simples[i + 1]);
                assert(redirs_allowed(simples[i + 1].redirs, i + 1, n));
            }
            lemma_filters_accepted(simples.skip(1), Seq::empty());
        }
    }
}

/// Pipelines are translated without error if and only if each of them
/// obeys the rules.
pub proof fn lemma_compounds_accepted(
    pipelines: Seq<PipelineView>,
    acc: Seq<CompoundSerialCommandView>,
    verbose: bool,
    exe: Result<Seq<char>, Seq<char>>,
)
    ensures
        compounds_of(pipelines, acc, verbose, exe) is Ok <==> forall|i: int|
            0 <= i < pipelines.len() ==> obeys(#[trigger] pipelines[i], verbose, exe),
    decreases pipelines.len(),
{
    if pipelines.len() > 0 {
        lemma_compound_accepted(pipelines[0], verbose, exe);
        let rest = pipelines.skip(1);
        match compound_of(pipelines[0], verbose, exe) {
            Err(e) => {},
            Ok(None) => {
                lemma_compounds_accepted(rest, acc, verbose, exe);
            },
            Ok(Some(compound)) => {
                lemma_compounds_accepted(rest, acc.push(compound), verbose, exe);
            },
        }
        if compound_of(pipelines[0], verbose, exe) is Ok {
            if forall|i: int| 0 <= i < rest.len() ==> obeys(#[trigger] rest[i], verbose, exe) {
                assert forall|i: int| 0 <= i < pipelines.len() implies obeys(
                    #[trigger] pipelines[i],
                    verbose,
                    exe,
                ) by {
                    if i > 0 {
                        assert(pipelines[i] == rest[i - 1]);
                    }
                }
            }
            if forall|i: int|
                0 <= i < pipelines.len() ==> obeys(#[trigger] pipelines[i], verbose, exe) {
                assert forall|i: int| 0 <= i < rest.len() implies obeys(
                    #[trigger] rest[i],
                    verbose,
                    exe,
                ) by {
                    assert(rest[i] == pipelines[i + 1]);
                }
            }
        }
    }
}

/// A complete command is translated without error if and only if each of
/// its pipelines obeys the rules: in a pipeline of two or more commands
/// with a word, the first has no output redirection and at most one
/// input redirection, the last no input redirection and at most one
/// output redirection, and those between them none; a command that runs
/// alone has at most one of each.
pub proof fn lemma_translate_accepted(
    cc: CompleteCommandView,
    verbose: bool,
    exe: Result<Seq<char>, Seq<char>>,
)
    ensures
        translate_spec(cc, verbose, exe) is Ok <==> forall|i: int|
            0 <= i < cc.pipelines.len() ==> obeys(#[trigger] cc.pipelines[i], verbose, exe),
{
    lemma_compounds_accepted(cc.pipelines, Seq::empty(), verbose, exe);
}

/// The commands that pipelines become all have a word at every place, if
/// those before them have.
pub proof fn lemma_compounds_ok(
    pipelines: Seq<PipelineView>,
    acc: Seq<CompoundSerialCommandView>,
    verbose: bool,
    exe: Result<Seq<char>, Seq<char>>,
)
    requires
        forall|i: int| 0 <= i < acc.len() ==> compound_ok(#[trigger] acc[i]),
    ensures
        compounds_of(pipelines, acc, verbose, exe) matches Ok(compounds) ==> forall|i: int|
            0 <= i < compounds.len() ==> compound_ok(#[trigger] compounds[i]),
    decreases pipelines.len(),
{
    if pipelines.len() > 0 {
        lemma_compound(pipelines[0], verbose, exe);
        match compound_of(pipelines[0], verbose, exe) {
            Err(e) => {},
            Ok(None) => {
                lemma_compounds_ok(pipelines.skip(1), acc, verbose, exe);
            },
            Ok(Some(compound)) => {
                lemma_compounds_ok(pipelines.skip(1), acc.push(compound), verbose, exe);
            },
        }
    }
}

/// Every command of a plan that the translator makes has at least one
/// word, whatever the syntax tree.
pub proof fn lemma_translate_plan_ok(
    cc: CompleteCommandView,
    verbose: bool,
    exe: Result<Seq<char>, Seq<char>>,
)
    ensures
        translate_spec(cc, verbose, exe) matches Ok(loc) ==> plan_ok(loc),
{
    lemma_compounds_ok(cc.pipelines, Seq::empty(), verbose, exe);
}

/// A pipeline that becomes nothing can be taken out of the pipelines
/// without any change to what they become.
pub proof fn lemma_compounds_skip_nothing(
    pipelines: Seq<PipelineView>,
    k: int,
    acc: Seq<CompoundSerialCommandView>,
    verbose: bool,
    exe: Result<Seq<char>, Seq<char>>,
)
    requires
        0 <= k < pipelines.len(),
        compound_of(pipelines[k], verbose, exe) == Ok::<
            Option<CompoundSerialCommandView>,
            Seq<char>,
        >(None),
    ensures
        compounds_of(pipelines.remove(k), acc, verbose, exe) == compounds_of(
            pipelines,
            acc,
            verbose,
            exe,
        ),
    decreases k,
{
    if k == 0 {
        assert(pipelines.remove(0) =~= pipelines.skip(1));
    } else {
        assert(pipelines.remove(k).skip(1) =~= pipelines.skip(1).remove(k - 1));
        assert(pipelines.remove(k)[0] == pipelines[0]);
        match compound_of(pipelines[0], verbose, exe) {
            Err(e) => {},
            Ok(None) => {
                lemma_compounds_skip_nothing(pipelines.skip(1), k - 1, acc, verbose, exe);
            },
            Ok(Some(compound)) => {
                lemma_compounds_skip_nothing(
                    pipelines.skip(1),
                    k - 1,
                    acc.push(compound),
                    verbose,
                    exe,
                );
            },
        }
    }
}

/// Translating a complete command that holds a pipeline without commands
/// gives what translating it without that pipeline gives: the empty
/// pipeline is dropped, and raises nothing.
pub proof fn lemma_empty_pipeline_dropped(
    cc: CompleteCommandView,
    k: int,
    verbose: bool,
    exe: Result<Seq<char>, Seq<char>>,
)
    requires
        0 <= k < cc.pipelines.len(),
        cc.pipelines[k].commands.len() == 0,
    ensures
        translate_spec(cc, verbose, exe) == translate_spec(
            CompleteCommandView { pipelines: cc.pipelines.remove(k) },
            verbose,
            exe,
        ),
{
    lemma_compounds_skip_nothing(cc.pipelines, k, Seq::empty(), verbose, exe);
}

/// Whether what a translation step returned is what the rules prescribe.
pub open spec fn conforms<T: View>(r: Result<T, Error>, expected: Result<T::V, Seq<char>>) -> bool {
    match r {
        Ok(v) => expected == Ok::<T::V, Seq<char>>(v@),
        Err(e) => expected == Err::<T::V, Seq<char>>(e@),
    }
}

/// Translates the syntax tree to make it executable.
///
/// `current_exe` is the path of the shell's own executable, which runs the
/// subshells, or the reason why it could not be found; the reason is
/// returned where the tree holds a subshell.
pub fn translate(cc: CompleteCommand, verbose: bool, current_exe: Result<String, Error>) -> (r:
    Result<ListOfCommands, Error>)
    ensures
        conforms(r, translate_spec(cc@, verbose, exe_view(current_exe))),
        r matches Ok(loc) ==> plan_ok(loc@),
        r is Ok <==> forall|i: int|
            0 <= i < cc@.pipelines.len() ==> obeys(
                #[trigger] cc@.pipelines[i],
                verbose,
                exe_view(current_exe),
            ),
{
    proof {
        lemma_translate_plan_ok(cc@, verbose, exe_view(current_exe));
        lemma_translate_accepted(cc@, verbose, exe_view(current_exe));
    }
    let translator = Translator::new(verbose, current_exe);
    translator.complete_command(cc)
}

impl ListOfCommands {
    /// Creates a new list of commands.
    pub fn new() -> (loc: ListOfCommands)
        ensures
            loc@.pipelines == Seq::<CompoundSerialCommandView>::empty(),
    {
        let loc = ListOfCommands { pipelines: VecDeque::new() };
        loc
    }
}

impl SingleCommand {
    /// Creates a new single command.
    pub fn new() -> (sc: SingleCommand)
        ensures
            sc@ == (SingleCommandView {
                arguments: Seq::empty(),
                input: None,
                output: None,
                sync: false,
            }),
    {
        let sc = SingleCommand { arguments: VecDeque::new(), input: None, output: None, sync: false };
        sc
    }
}

impl PipelinedCommands {
    /// Creates a new pipelined commands instance.
    pub fn new() -> (pc: PipelinedCommands)
        ensures
            pc@ == (PipelinedCommandsView {
                source: SourceCommandView { arguments: Seq::empty(), input: None },
                filters: Seq::empty(),
                sink: SinkCommandView { arguments: Seq::empty(), output: None },
                sync: false,
            }),
    {
        let pc = PipelinedCommands {
            source: SourceCommand::new(),
            filters: VecDeque::new(),
            sink: SinkCommand::new(),
            sync: false,
        };
        pc
    }
}

impl SourceCommand {
    /// Creates a new source command.
    pub fn new() -> (sc: SourceCommand)
        ensures
            sc@ == (SourceCommandView { arguments: Seq::empty(), input: None }),
    {
        let sc = SourceCommand { arguments: VecDeque::new(), input: None };
        sc
    }
}

impl FilterCommand {
    /// Creates a new filter command.
    pub fn new() -> (fc: FilterCommand)
        ensures
            fc@ == (FilterCommandView { arguments: Seq::empty() }),
    {
        let fc = FilterCommand { arguments: VecDeque::new() };
        fc
    }
}

impl SinkCommand {
    /// Creates a new sink command.
    pub fn new() -> (sc: SinkCommand)
        ensures
            sc@ == (SinkCommandView { arguments: Seq::empty(), output: None }),
    {
        let sc = SinkCommand { arguments: VecDeque::new(), output: None };
        sc
    }
}

/// The translator itself.
struct Translator {
    /// whether subshells are to trace their commands.
    verbose: bool,
    /// the executable that runs subshells.
    exe: Result<String, Error>,
}

impl Translator {
    /// creates a new translator
    fn new(verbose: bool, exe: Result<String, Error>) -> (t: Translator)
        ensures
            t.verbose == verbose,
            t.exe == exe,
    {
        Translator { verbose, exe }
    }

    /// the executable that runs subshells, as the rules see it.
    spec fn exe(&self) -> Result<Seq<char>, Seq<char>> {
        exe_view(self.exe)
    }

    /// visits each pipeline inside the complete command.
    fn complete_command(&self, input: CompleteCommand) -> (r: Result<ListOfCommands, Error>)
        ensures
            conforms(r, translate_spec(input@, self.verbose, self.exe())),
    {
        let mut output = ListOfCommands::new();
        let mut pipelines = input.pipelines;
        assert(pipeline_views(pipelines@) =~= input@.pipelines);
        loop
            invariant
                compounds_of(input@.pipelines, Seq::empty(), self.verbose, self.exe())
                    == compounds_of(
                    pipeline_views(pipelines@),
                    output@.pipelines,
                    self.verbose,
                    self.exe(),
                ),
            ensures
                pipelines@.len() == 0,
            decreases pipelines@.len(),
        {
            let ghost before = pipeline_views(pipelines@);
            let ghost acc = output@.pipelines;
            match pipelines.pop_front() {
                None => break ,
                Some(pipeline) => {
                    assert(pipeline_views(pipelines@) =~= before.skip(1));
                    if pipeline.commands.len() < 1 {
                        continue ;
                    }
                    match self.pipeline(pipeline) {
                        Err(e) => return Err(e),
                        Ok(None) => (),
                        Ok(Some(compound)) => {
                            output.pipelines.push_back(compound);
                            assert(output@.pipelines =~= acc.push(compound@));
                        },
                    }
                },
            }
        }
        Ok(output)
    }

    /// visits each command inside the pipeline.
    fn pipeline(&self, input: Pipeline) -> (r: Result<Option<CompoundSerialCommand>, Error>)
        ensures
            match r {
                Ok(Some(c)) => compound_of(input@, self.verbose, self.exe()) == Ok::<
                    Option<CompoundSerialCommandView>,
                    Seq<char>,
                >(Some(c@)),
                Ok(None) => compound_of(input@, self.verbose, self.exe()) == Ok::<
                    Option<CompoundSerialCommandView>,
                    Seq<char>,
                >(None),
                Err(e) => compound_of(input@, self.verbose, self.exe()) == Err::<
                    Option<CompoundSerialCommandView>,
                    Seq<char>,
                >(e@),
            },
    {
        let mut intermediate = VecDeque::<SimpleCommand>::new();
        let sync = input.sync;
        let mut commands = input.commands;
        assert(command_views(commands@) =~= input@.commands);
        assert(simple_views(intermediate@) =~= Seq::<SimpleCommandView>::empty());
        loop
            invariant
                simples_of(input@.commands, Seq::empty(), self.verbose, self.exe()) == simples_of(
                    command_views(commands@),
                    simple_views(intermediate@),
                    self.verbose,
                    self.exe(),
                ),
            ensures
                simples_of(input@.commands, Seq::empty(), self.verbose, self.exe()) == Ok::<
                    Seq<SimpleCommandView>,
                    Seq<char>,
                >(simple_views(intermediate@)),
            decreases commands@.len(),
        {
            let ghost before = command_views(commands@);
            let ghost acc = simple_views(intermediate@);
            match commands.pop_front() {
                None => break ,
                Some(cmd) => {
                    assert(command_views(commands@) =~= before.skip(1));
                    let scmd = match self.command(cmd) {
                        Ok(scmd) => scmd,
                        Err(e) => return Err(e),
                    };
                    if scmd.arguments.len() > 0 {
                        intermediate.push_back(scmd);
                        assert(simple_views(intermediate@) =~= acc.push(scmd@));
                    }
                },
            }
        }
        if intermediate.len() < 1 {
            return Ok(None);
        }
        if intermediate.len() == 1 {
            let f = intermediate.pop_front().unwrap();
            return match self.single_command(f, sync) {
                Ok(single) => Ok(Some(single)),
                Err(e) => Err(e),
            };
        }
        match self.pipelined_commands(intermediate, sync) {
            Ok(pipelined) => Ok(Some(pipelined)),
            Err(e) => Err(e),
        }
    }

    /// produces a single command instance
    fn single_command(&self, input: SimpleCommand, sync: bool) -> (r: Result<
        CompoundSerialCommand,
        Error,
    >)
        ensures
            match r {
                Ok(c) => single_of(input@, sync) matches Ok(single) && c@
                    == CompoundSerialCommandView::SingleCommand(single),
                Err(e) => single_of(input@, sync) == Err::<SingleCommandView, Seq<char>>(e@),
            },
    {
        let mut output = SingleCommand::new();
        let mut redirs = input.redirs;
        output.arguments = input.arguments;
        output.sync = sync;
        if redirs.input.len() > 1 {
            return Err(Error::new("more than one input redirection"));
        }
        output.input = redirs.input.pop_front();
        if redirs.output.len() > 1 {
            return Err(Error::new("more than one output redirection"));
        }
        output.output = redirs.output.pop_front();
        Ok(CompoundSerialCommand::SingleCommand(output))
    }

    /// produces pipelined commands
    fn pipelined_commands(&self, input: VecDeque<SimpleCommand>, sync: bool) -> (r: Result<
        CompoundSerialCommand,
        Error,
    >)
        requires
            input@.len() >= 2,
        ensures
            match r {
                Ok(c) => pipelined_of(simple_views(input@), sync) matches Ok(pipelined) && c@
                    == CompoundSerialCommandView::PipelinedCommands(pipelined),
                Err(e) => pipelined_of(simple_views(input@), sync) == Err::<
                    PipelinedCommandsView,
                    Seq<char>,
                >(e@),
            },
    {
        let mut queue = input;
        let mut output = PipelinedCommands::new();
        output.sync = sync;
        output.source = match self.new_source(&mut queue) {
            Ok(source) => source,
            Err(e) => return Err(e),
        };
        output.filters = match self.new_filters(&mut queue) {
            Ok(filters) => filters,
            Err(e) => return Err(e),
        };
        assert(simple_views(queue@).len() == queue@.len());
        assert(queue@[0]@ == simple_views(queue@)[0]);
        output.sink = match self.new_sink(&mut queue) {
            Ok(sink) => sink,
            Err(e) => return Err(e),
        };
        Ok(CompoundSerialCommand::PipelinedCommands(output))
    }

    /// Helper for pipelined_commands
    fn new_source(&self, input: &mut VecDeque<SimpleCommand>) -> (r: Result<SourceCommand, Error>)
        requires
            old(input)@.len() >= 1,
        ensures
            conforms(r, source_of(old(input)@[0]@)),
            simple_views(final(input)@) == simple_views(old(input)@).skip(1),
    {
        let mut output = SourceCommand::new();
        let item = input.pop_front().unwrap();
        let mut redirs = item.redirs;
        output.arguments = item.arguments;
        if redirs.input.len() > 1 {
            return Err(Error::new("more than one input redirection"));
        }
        output.input = redirs.input.pop_front();
        if redirs.output.len() > 0 {
            return Err(Error::new("output redirection for pipeline source"));
        }
        Ok(output)
    }

    /// Helper for pipelined_commands
    fn new_filters(&self, input: &mut VecDeque<SimpleCommand>) -> (r: Result<
        VecDeque<FilterCommand>,
        Error,
    >)
        ensures
            match r {
                Ok(filters) => filters_of(simple_views(old(input)@), Seq::empty()) == Ok::<
                    Seq<FilterCommandView>,
                    Seq<char>,
                >(filter_views(filters@)),
                Err(e) => filters_of(simple_views(old(input)@), Seq::empty()) == Err::<
                    Seq<FilterCommandView>,
                    Seq<char>,
                >(e@),
            },
            r is Ok && old(input)@.len() >= 1 ==> simple_views(final(input)@) == seq![
                simple_views(old(input)@).last(),
            ],
    {
        let mut output = VecDeque::<FilterCommand>::new();
        assert(filter_views(output@) =~= Seq::<FilterCommandView>::empty());
        while input.len() > 1
            invariant
                filters_of(simple_views(old(input)@), Seq::empty()) == filters_of(
                    simple_views(input@),
                    filter_views(output@),
                ),
                old(input)@.len() >= 1 ==> input@.len() >= 1 && simple_views(input@).last()
                    == simple_views(old(input)@).last(),
            decreases input@.len(),
        {
            let ghost before = simple_views(input@);
            let ghost acc = filter_views(output@);
            let e = input.pop_front().unwrap();
            assert(simple_views(input@) =~= before.skip(1));
            let mut filter = FilterCommand::new();
            filter.arguments = e.arguments;
            if e.redirs.input.len() > 0 {
                return Err(Error::new("input redirection for pipeline filter"));
            }
            if e.redirs.output.len() > 0 {
                return Err(Error::new("output redirection for pipeline filter"));
            }
            output.push_back(filter);
            assert(filter_views(output@) =~= acc.push(filter@));
        }
        Ok(output)
    }

    /// Helper for pipelined_commands
    fn new_sink(&self, input: &mut VecDeque<SimpleCommand>) -> (r: Result<SinkCommand, Error>)
        requires
            old(input)@.len() >= 1,
        ensures
            conforms(r, sink_of(old(input)@[0]@)),
            simple_views(final(input)@) == simple_views(old(input)@).skip(1),
    {
        let mut output = SinkCommand::new();
        let item = input.pop_front().unwrap();
        let mut redirs = item.redirs;
        output.arguments = item.arguments;
        if redirs.input.len() > 0 {
            return Err(Error::new("input redirection for pipeline sink"));
        }
        if redirs.output.len() > 1 {
            return Err(Error::new("more than one output redirection"));
        }
        output.output = redirs.output.pop_front();
        Ok(output)
    }

    /// visits a specific command
    fn command(&self, input: Command) -> (r: Result<SimpleCommand, Error>)
        ensures
            conforms(r, simple_of(input@, self.verbose, self.exe())),
    {
        match input {
            Command::SimpleCommand(cmd) => Ok(cmd),
            Command::Subshell(ss) => self.subshell(ss),
        }
    }

    /// visits a subshell
    fn subshell(&self, input: Subshell) -> (r: Result<SimpleCommand, Error>)
        ensures
            conforms(r, simple_of(CommandView::Subshell(input@), self.verbose, self.exe())),
    {
        let mut scmd = SimpleCommand { arguments: VecDeque::new(), redirs: input.redirs };
        let exe = match &self.exe {
            Ok(path) => path.clone(),
            Err(e) => return Err(e.clone()),
        };
        scmd.arguments.push_back(exe);
        scmd.arguments.push_back(String::from_str("-c"));
        let serialized = match serialize(input.complete_command) {
            Ok(text) => text,
            Err(e) => return Err(e),
        };
        scmd.arguments.push_back(serialized);
        if self.verbose {
            scmd.arguments.push_back(String::from_str("-x"));
        }
        assert(scmd@.arguments =~= subshell_arguments(
            exe@,
            text_of_complete(input@.complete_command),
            self.verbose,
        ));
        Ok(scmd)
    }
}

} // verus!
