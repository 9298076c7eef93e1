//! Interprets the executable syntax tree generated by the translator.
//!
//! The interpreter decides and the caller acts: `Session::next` takes how
//! the last action went and names the next one. Only the start of a
//! process and a change of directory can fail in a way that matters; a
//! failure to kill or to wait is ignored.

use crate::compiler::{
    op_views, OpCommand, OpCommandView, StdinPolicy, StdinPolicyView, StdoutPolicy,
    StdoutPolicyView,
};
use crate::model::Error;
use crate::parser::{words, InputRedir, InputRedirView, OutputRedir, OutputRedirView};
use crate::process::{
    action_views, kills, waits, Action, ActionView, Executor, Manager, Outcome, OutcomeView,
};
use crate::translator::{
    compound_ok, compound_views, filter_views, input_view, output_view, CompoundSerialCommand,
    CompoundSerialCommandView, FilterCommand, FilterCommandView, ListOfCommands, ListOfCommandsView,
    PipelinedCommands, PipelinedCommandsView, SingleCommand, SingleCommandView, SinkCommand,
    SinkCommandView, SourceCommand, SourceCommandView,
};
use std::collections::VecDeque;
use vstd::prelude::*;
use vstd::string::StringExecFns;

verus! {

/// What there is to do for one command of the plan.
#[derive(Debug, PartialEq, Eq)]
pub enum Job {
    /// Nothing: the command has no word.
    Nothing,
    /// Change the working directory to the one named: the builtin `cd`.
    ChangeDir(String),
    /// Fail for the reason given, before anything is started.
    Fail(Error),
    /// Start the commands in order; then wait for them if `sync`, else let
    /// them run in the background.
    Launch { commands: VecDeque<OpCommand>, sync: bool },
}

/// What there is to do for one command of the plan, with texts as
/// sequences of characters.
#[verifier::ext_equal]
pub enum JobView {
    Nothing,
    ChangeDir(Seq<char>),
    Fail(Seq<char>),
    Launch { commands: Seq<OpCommandView>, sync: bool },
}

impl View for Job {
    type V = JobView;

    open spec fn view(&self) -> JobView {
        match self {
            Job::Nothing => JobView::Nothing,
            Job::ChangeDir(dir) => JobView::ChangeDir(dir@),
            Job::Fail(e) => JobView::Fail(e@),
            Job::Launch { commands, sync } => JobView::Launch {
                commands: op_views(commands@),
                sync: *sync,
            },
        }
    }
}

/// The views of jobs, in order.
pub open spec fn job_views(jobs: Seq<Job>) -> Seq<JobView> {
    jobs.map_values(|j: Job| j@)
}

/// Reason given when `cd` does not get exactly one argument.
pub open spec fn err_cd_usage() -> Seq<char> {
    "usage: cd <directory>"@
}

/// Reason given when the first command of a pipeline has no word.
pub open spec fn err_empty_source() -> Seq<char> {
    "pipeline with empty source command"@
}

/// Reason given when a middle command of a pipeline has no word.
pub open spec fn err_empty_filter() -> Seq<char> {
    "pipeline with empty filter command"@
}

/// Reason given when the last command of a pipeline has no word.
pub open spec fn err_empty_sink() -> Seq<char> {
    "pipeline with empty sink command"@
}

/// Reason given when the start of a process was asked for and neither a
/// child nor a failure came back.
pub open spec fn err_not_started() -> Seq<char> {
    "process not started"@
}

/// Where the standard input comes from: the file of the redirection, read
/// only, or else the shell's own standard input.
pub open spec fn stdin_policy(input: Option<InputRedirView>) -> StdinPolicyView {
    match input {
        Some(redir) => StdinPolicyView::ReadFrom(redir.filename),
        None => StdinPolicyView::Inherit,
    }
}

/// Where the standard output goes: the file of the redirection, emptied
/// for `>` and added to for `>>`, or else the shell's own standard output.
pub open spec fn stdout_policy(output: Option<OutputRedirView>) -> StdoutPolicyView {
    match output {
        Some(redir) => if redir.overwrite {
            StdoutPolicyView::OverwriteTo(redir.filename)
        } else {
            StdoutPolicyView::AppendTo(redir.filename)
        },
        None => StdoutPolicyView::Inherit,
    }
}

/// The command that is started for a command that runs alone.
pub open spec fn single_op(sc: SingleCommandView) -> OpCommandView {
    OpCommandView {
        arguments: sc.arguments,
        stdin: stdin_policy(sc.input),
        stdout: stdout_policy(sc.output),
    }
}

/// What there is to do for a command that runs alone. Without words it
/// is nothing. `cd` is built in: it takes exactly one argument, the
/// directory, and its redirections are not looked at. Anything else is
/// started, with its redirections.
pub open spec fn job_of_single(sc: SingleCommandView) -> JobView {
    if sc.arguments.len() == 0 {
        JobView::Nothing
    } else if sc.arguments[0] == "cd"@ {
        if sc.arguments.len() == 2 {
            JobView::ChangeDir(sc.arguments[1])
        } else {
            JobView::Fail(err_cd_usage())
        }
    } else {
        JobView::Launch { commands: seq![single_op(sc)], sync: sc.sync }
    }
}

/// The first command of a pipeline: it writes to a pipe.
pub open spec fn source_op(source: SourceCommandView) -> OpCommandView {
    OpCommandView {
        arguments: source.arguments,
        stdin: stdin_policy(source.input),
        stdout: StdoutPolicyView::Pipe,
    }
}

/// A middle command of a pipeline: it reads from the pipe that the
/// command before it writes to, and writes to a pipe of its own.
pub open spec fn filter_op(filter: FilterCommandView) -> OpCommandView {
    OpCommandView {
        arguments: filter.arguments,
        stdin: StdinPolicyView::Pipe,
        stdout: StdoutPolicyView::Pipe,
    }
}

/// The last command of a pipeline: it reads from the pipe that the
/// command before it writes to.
pub open spec fn sink_op(sink: SinkCommandView) -> OpCommandView {
    OpCommandView {
        arguments: sink.arguments,
        stdin: StdinPolicyView::Pipe,
        stdout: stdout_policy(sink.output),
    }
}

/// The commands to start for the filters, in order, after those in `acc`;
/// none where a filter has no word.
pub open spec fn filter_ops(filters: Seq<FilterCommandView>, acc: Seq<OpCommandView>) -> Option<
    Seq<OpCommandView>,
>
    decreases filters.len(),
{
    if filters.len() == 0 {
        Some(acc)
    } else if filters[0].arguments.len() == 0 {
        None
    } else {
        filter_ops(filters.skip(1), acc.push(filter_op(filters[0])))
    }
}

/// What there is to do for a pipeline: start the source, the filters from
/// left to right and the sink, each joined to the next by a pipe. A
/// command without words makes the whole pipeline fail before anything is
/// started.
pub open spec fn job_of_pipelined(pc: PipelinedCommandsView) -> JobView {
    if pc.source.arguments.len() == 0 {
        JobView::Fail(err_empty_source())
    } else {
        match filter_ops(pc.filters, seq![source_op(pc.source)]) {
            None => JobView::Fail(err_empty_filter()),
            Some(commands) => if pc.sink.arguments.len() == 0 {
                JobView::Fail(err_empty_sink())
            } else {
                JobView::Launch { commands: commands.push(sink_op(pc.sink)), sync: pc.sync }
            },
        }
    }
}

/// What there is to do for a command of the plan.
pub open spec fn job_of(compound: CompoundSerialCommandView) -> JobView {
    match compound {
        CompoundSerialCommandView::SingleCommand(sc) => job_of_single(sc),
        CompoundSerialCommandView::PipelinedCommands(pc) => job_of_pipelined(pc),
    }
}

/// What there is to do for a plan: a job for each of its commands, in
/// order.
pub open spec fn jobs_of(loc: ListOfCommandsView) -> Seq<JobView> {
    loc.pipelines.map_values(|c: CompoundSerialCommandView| job_of(c))
}

/// The commands that are started for filters all have a word, if those
/// before them have.
pub proof fn lemma_filter_ops_have_words(filters: Seq<FilterCommandView>, acc: Seq<OpCommandView>)
    requires
        forall|i: int| 0 <= i < acc.len() ==> (#[trigger] acc[i]).arguments.len() >= 1,
    ensures
        filter_ops(filters, acc) matches Some(commands) ==> forall|i: int|
            0 <= i < commands.len() ==> (#[trigger] commands[i]).arguments.len() >= 1,
        (forall|i: int| 0 <= i < filters.len() ==> (#[trigger] filters[i]).arguments.len() >= 1)
            ==> filter_ops(filters, acc) is Some,
    decreases filters.len(),
{
    if filters.len() > 0 && filters[0].arguments.len() > 0 {
        lemma_filter_ops_have_words(filters.skip(1), acc.push(filter_op(filters[0])));
        if forall|i: int| 0 <= i < filters.len() ==> (#[trigger] filters[i]).arguments.len() >= 1 {
            assert forall|i: int| 0 <= i < filters.skip(1).len() implies (#[trigger] filters.skip(
                1,
            )[i]).arguments.len() >= 1 by {
                assert(filters.skip(1)[i] == filters[i + 1]);
            }
        }
    } else if filters.len() > 0 {
        assert(filters[0].arguments.len() == 0);
    }
}

/// Every command that is ever started has at least one word: the
/// program to run. And for a command of a plan in which every command
/// has a word, as the translator makes them, there is always something
/// to do that can be begun: the only failure before a start is that of
/// `cd` without exactly one argument.
pub proof fn lemma_job_of(compound: CompoundSerialCommandView)
    ensures
        job_of(compound) matches JobView::Launch { commands, sync } ==> commands.len() >= 1
            && forall|i: int| 0 <= i < commands.len() ==> (#[trigger] commands[i]).arguments.len()
            >= 1,
        compound_ok(compound) ==> !(job_of(compound) is Nothing),
        compound_ok(compound) ==> (job_of(compound) matches JobView::Fail(reason) ==> reason
            == err_cd_usage()),
{
    match compound {
        CompoundSerialCommandView::SingleCommand(sc) => {},
        CompoundSerialCommandView::PipelinedCommands(pc) => {
            let source = seq![source_op(pc.source)];
            if pc.source.arguments.len() > 0 {
                lemma_filter_ops_have_words(pc.filters, source);
            }
        },
    }
}

/// The words from the one at `from` on, each followed by a space.
pub open spec fn spaced(arguments: Seq<Seq<char>>, from: int) -> Seq<char>
    decreases arguments.len() - from,
{
    if from < 0 || from >= arguments.len() {
        Seq::empty()
    } else {
        arguments[from] + seq![' '] + spaced(arguments, from + 1)
    }
}

/// The line that traces a command: `+`, a space, then each word followed
/// by a space.
pub open spec fn trace_line(arguments: Seq<Seq<char>>) -> Seq<char> {
    seq!['+', ' '] + spaced(arguments, 0)
}

/// The trace of a command, where tracing is on.
pub open spec fn trace_of(arguments: Seq<Seq<char>>, verbose: bool) -> Option<Seq<char>> {
    if verbose {
        Some(trace_line(arguments))
    } else {
        None
    }
}

/// What was asked for last, as far as its outcome matters.
#[derive(Debug, Clone, Copy, PartialEq, Eq, Structural)]
pub enum Awaiting {
    /// Nothing whose outcome matters.
    Nothing,
    /// A change of the working directory.
    ChangeDir,
    /// The start of a process.
    Spawn,
}

/// The state of the interpretation of one plan.
#[verifier::ext_equal]
pub struct SessionView {
    /// Whether each start of a process is traced.
    pub verbose: bool,
    /// The jobs that have not begun.
    pub jobs: Seq<JobView>,
    /// The commands of the job at hand that are still to be started.
    pub queue: Seq<OpCommandView>,
    /// Whether the job at hand is waited for.
    pub sync: bool,
    /// The children of the job at hand, in the order in which they were
    /// started.
    pub group: Seq<u64>,
    /// The actions that are decided on and not asked for yet.
    pub pending: Seq<ActionView>,
    /// The reason for which the interpretation ends, once there is one.
    pub failure: Option<Seq<char>>,
    /// What was asked for last.
    pub awaiting: Awaiting,
}

/// The state in which the interpretation of `jobs` begins.
pub open spec fn initial(jobs: Seq<JobView>, verbose: bool) -> SessionView {
    SessionView {
        verbose,
        jobs,
        queue: Seq::empty(),
        sync: true,
        group: Seq::empty(),
        pending: Seq::empty(),
        failure: None,
        awaiting: Awaiting::Nothing,
    }
}

/// The state after a failure: every child of the job at hand is asked to
/// terminate, in the order in which the children were started, and then
/// waited for, the last one first; nothing else is begun, and the
/// interpretation ends with `reason` once that is done.
pub open spec fn abort(s: SessionView, reason: Seq<char>) -> SessionView {
    SessionView {
        jobs: Seq::empty(),
        queue: Seq::empty(),
        group: Seq::empty(),
        pending: s.pending + kills(s.group) + waits(s.group),
        failure: Some(reason),
        awaiting: Awaiting::Nothing,
        ..s
    }
}

/// The state, and the children in the background, once the outcome of the
/// last action is taken in.
///
/// A process that was started joins the group. When it was the last of
/// its job, the job is complete: if it is synchronous, all its children
/// are waited for, the last one first; if not, they go to the background
/// in the order in which they were started. A start or a change of
/// directory that failed aborts. The outcome of any other action is
/// ignored.
pub open spec fn settle(s: SessionView, background: Seq<u64>, outcome: OutcomeView) -> (
    SessionView,
    Seq<u64>,
) {
    let calm = SessionView { awaiting: Awaiting::Nothing, ..s };
    match s.awaiting {
        Awaiting::Nothing => (s, background),
        Awaiting::ChangeDir => match outcome {
            OutcomeView::Failed(reason) => (abort(calm, reason), background),
            _ => (calm, background),
        },
        Awaiting::Spawn => match outcome {
            OutcomeView::Spawned(child) => {
                let group = s.group.push(child);
                if s.queue.len() > 0 {
                    (SessionView { group, ..calm }, background)
                } else if s.sync {
                    (
                        SessionView {
                            group: Seq::empty(),
                            pending: s.pending + waits(group),
                            ..calm
                        },
                        background,
                    )
                } else {
                    (SessionView { group: Seq::empty(), ..calm }, background + group)
                }
            },
            OutcomeView::Failed(reason) => (abort(calm, reason), background),
            OutcomeView::Done => (abort(calm, err_not_started()), background),
        },
    }
}

/// The next action, and the state once it is asked for.
///
/// Actions that are decided on come first. Then the interpretation ends
/// if it has failed. Else the next command of the job at hand is started,
/// and where that job has none left, the next job begins. When no job is
/// left, the interpretation ends well.
pub open spec fn advance(s: SessionView) -> (SessionView, ActionView)
    decreases s.jobs.len(),
{
    if s.pending.len() > 0 {
        (SessionView { pending: s.pending.skip(1), ..s }, s.pending[0])
    } else if s.failure is Some {
        (s, ActionView::Finish(Err(s.failure->0)))
    } else if s.queue.len() > 0 {
        (
            SessionView { queue: s.queue.skip(1), awaiting: Awaiting::Spawn, ..s },
            ActionView::Spawn {
                command: s.queue[0],
                trace: trace_of(s.queue[0].arguments, s.verbose),
            },
        )
    } else if s.jobs.len() > 0 {
        let rest = SessionView { jobs: s.jobs.skip(1), ..s };
        match s.jobs[0] {
            JobView::Nothing => advance(rest),
            JobView::ChangeDir(dir) => (
                SessionView { awaiting: Awaiting::ChangeDir, ..rest },
                ActionView::ChangeDir(dir),
            ),
            JobView::Fail(reason) => advance(abort(rest, reason)),
            JobView::Launch { commands, sync } => advance(
                SessionView { queue: commands, sync, ..rest },
            ),
        }
    } else {
        (s, ActionView::Finish(Ok(())))
    }
}

/// One step of the interpretation: the outcome of the last action is
/// taken in, and the next action is named. Gives the state and the
/// children in the background after the step, and the action.
pub open spec fn step(s: SessionView, background: Seq<u64>, outcome: OutcomeView) -> (
    SessionView,
    Seq<u64>,
    ActionView,
) {
    let (settled, background) = settle(s, background, outcome);
    let (next, action) = advance(settled);
    (next, background, action)
}

/// What holds of every state that the interpretation reaches: while the
/// outcome of an action is awaited, no action is left to ask for and
/// nothing has failed; after a failure nothing is left to begin; the
/// group holds children only while the commands of a job are being
/// started; and the actions that are decided on are kills and waits.
pub open spec fn orderly(s: SessionView) -> bool {
    &&& s.awaiting != Awaiting::Nothing ==> s.pending.len() == 0 && s.failure is None
    &&& s.failure is Some ==> s.jobs.len() == 0 && s.queue.len() == 0
    &&& s.awaiting != Awaiting::Spawn && s.queue.len() == 0 ==> s.group.len() == 0
    &&& forall|i: int|
        0 <= i < s.pending.len() ==> (#[trigger] s.pending[i]) is Kill || s.pending[i] is Wait
}

/// The interpretation begins in an orderly state.
pub proof fn lemma_initial_orderly(jobs: Seq<JobView>, verbose: bool)
    ensures
        orderly(initial(jobs, verbose)),
{
}

/// Naming the next action keeps the state orderly. When the action ends
/// the interpretation, the group is empty and no action is left to ask
/// for; in particular no child is left to kill or to wait for.
pub proof fn lemma_advance_orderly(s: SessionView)
    requires
        orderly(s),
        s.awaiting == Awaiting::Nothing,
    ensures
        orderly(advance(s).0),
        advance(s).1 is Finish ==> advance(s).0.group.len() == 0 && advance(s).0.pending.len()
            == 0,
    decreases s.jobs.len(),
{
    if s.pending.len() > 0 {
    } else if s.failure is Some {
    } else if s.queue.len() > 0 {
    } else if s.jobs.len() > 0 {
        let rest = SessionView { jobs: s.jobs.skip(1), ..s };
        match s.jobs[0] {
            JobView::Nothing => {
                lemma_advance_orderly(rest);
            },
            JobView::ChangeDir(dir) => {},
            JobView::Fail(reason) => {
                lemma_advance_orderly(abort(rest, reason));
            },
            JobView::Launch { commands, sync } => {
                lemma_advance_orderly(SessionView { queue: commands, sync, ..rest });
            },
        }
    }
}

/// Every step keeps the state orderly. When the step ends the
/// interpretation, whether well or with an error, the group is empty and
/// no child is left to kill or to wait for. The children in the
/// background change in one case only: when the last command of a job
/// that is not synchronous has been started, the children of that job
/// are added, in the order in which they were started.
pub proof fn lemma_step_orderly(s: SessionView, background: Seq<u64>, outcome: OutcomeView)
    requires
        orderly(s),
    ensures
        orderly(step(s, background, outcome).0),
        step(s, background, outcome).2 is Finish ==> step(s, background, outcome).0.group.len()
            == 0 && step(s, background, outcome).0.pending.len() == 0,
        step(s, background, outcome).1 == if s.awaiting == Awaiting::Spawn && outcome is Spawned
            && s.queue.len() == 0 && !s.sync {
            background + s.group.push(outcome->Spawned_0)
        } else {
            background
        },
{
    let (settled, moved) = settle(s, background, outcome);
    lemma_advance_orderly(settled);
}

/// The starts of the commands, in order, each with its trace where
/// tracing is on.
pub open spec fn spawns(commands: Seq<OpCommandView>, verbose: bool) -> Seq<ActionView> {
    Seq::new(
        commands.len(),
        |i: int|
            ActionView::Spawn {
                command: commands[i],
                trace: trace_of(commands[i].arguments, verbose),
            },
    )
}

/// The outcomes that report the start of each of the children, in order.
pub open spec fn started(children: Seq<u64>) -> Seq<OutcomeView> {
    Seq::new(children.len(), |i: int| OutcomeView::Spawned(children[i]))
}

/// The interpretation over several steps: the state and the children in
/// the background after the outcomes have come in one by one, and the
/// actions that were named, one for each outcome.
pub open spec fn run(s: SessionView, background: Seq<u64>, outcomes: Seq<OutcomeView>) -> (
    SessionView,
    Seq<u64>,
    Seq<ActionView>,
)
    decreases outcomes.len(),
{
    if outcomes.len() == 0 {
        (s, background, Seq::empty())
    } else {
        let (next, moved, action) = step(s, background, outcomes[0]);
        let (last, settled, actions) = run(next, moved, outcomes.skip(1));
        (last, settled, seq![action] + actions)
    }
}

/// Running over outcomes that come in two parts is running over the
/// first part and then, from where that ended, over the second.
pub proof fn lemma_run_split(
    s: SessionView,
    background: Seq<u64>,
    first: Seq<OutcomeView>,
    second: Seq<OutcomeView>,
)
    ensures
        ({
            let (mid, moved, begun) = run(s, background, first);
            let (last, settled, ended) = run(mid, moved, second);
            run(s, background, first + second) == (last, settled, begun + ended)
        }),
    decreases first.len(),
{
    if first.len() == 0 {
        assert(first + second =~= second);
        let (last, settled, ended) = run(s, background, second);
        assert(Seq::<ActionView>::empty() + ended =~= ended);
    } else {
        let (next, moved, action) = step(s, background, first[0]);
        lemma_run_split(next, moved, first.skip(1), second);
        assert((first + second).skip(1) =~= first.skip(1) + second);
        let (mid, moved2, begun) = run(next, moved, first.skip(1));
        let (last, settled, ended) = run(mid, moved2, second);
        assert(seq![action] + (begun + ended) =~= (seq![action] + begun) + ended);
    }
}

/// While nothing is awaited and nothing has failed, the actions that are
/// decided on are named one by one, whatever the outcomes are.
pub proof fn lemma_run_pending(s: SessionView, background: Seq<u64>, outcomes: Seq<OutcomeView>)
    requires
        s.awaiting == Awaiting::Nothing,
        outcomes.len() <= s.pending.len(),
    ensures
        run(s, background, outcomes) == (
            SessionView { pending: s.pending.skip(outcomes.len() as int), ..s },
            background,
            s.pending.take(outcomes.len() as int),
        ),
    decreases outcomes.len(),
{
    if outcomes.len() == 0 {
        assert(s.pending.skip(0) =~= s.pending);
        assert(s.pending.take(0) =~= Seq::<ActionView>::empty());
    } else {
        let next = SessionView { pending: s.pending.skip(1), ..s };
        assert(step(s, background, outcomes[0]) == (next, background, s.pending[0]));
        lemma_run_pending(next, background, outcomes.skip(1));
        assert(next.pending.skip(outcomes.len() - 1) =~= s.pending.skip(outcomes.len() as int));
        assert(seq![s.pending[0]] + next.pending.take(outcomes.len() - 1) =~= s.pending.take(
            outcomes.len() as int,
        ));
    }
}

/// While the commands of a job are started one after the other and each
/// start succeeds, the next command is started, until none is left.
pub proof fn lemma_run_spawns(s: SessionView, background: Seq<u64>, children: Seq<u64>)
    requires
        s.awaiting == Awaiting::Spawn,
        s.pending.len() == 0,
        s.failure is None,
        children.len() <= s.queue.len(),
    ensures
        run(s, background, started(children)) == (
            SessionView {
                queue: s.queue.skip(children.len() as int),
                group: s.group + children,
                ..s
            },
            background,
            spawns(s.queue.take(children.len() as int), s.verbose),
        ),
    decreases children.len(),
{
    let n = children.len() as int;
    if n == 0 {
        assert(s.queue.skip(0) =~= s.queue);
        assert(s.group + children =~= s.group);
        assert(spawns(s.queue.take(0), s.verbose) =~= Seq::<ActionView>::empty());
    } else {
        let next = SessionView {
            queue: s.queue.skip(1),
            group: s.group.push(children[0]),
            ..s
        };
        let action = ActionView::Spawn {
            command: s.queue[0],
            trace: trace_of(s.queue[0].arguments, s.verbose),
        };
        assert(started(children)[0] == OutcomeView::Spawned(children[0]));
        assert(step(s, background, started(children)[0]) == (next, background, action));
        assert(started(children).skip(1) =~= started(children.skip(1)));
        lemma_run_spawns(next, background, children.skip(1));
        assert(next.queue.skip(n - 1) =~= s.queue.skip(n));
        assert(next.group + children.skip(1) =~= s.group + children);
        assert(seq![action] + spawns(next.queue.take(n - 1), s.verbose) =~= spawns(
            s.queue.take(n),
            s.verbose,
        ));
    }
}

/// A synchronous pipeline of `n` commands, each of which starts.
///
/// From a state at rest whose next job is to start `commands` and to wait
/// for them, the interpretation names the start of each command, in
/// order, and then, once the last one has started, a wait for each child,
/// from the last one back to the first. After that the group is empty, no
/// action is left to ask for, the children in the background are those
/// that were there before, and the next job is at hand.
pub proof fn lemma_synchronous_pipeline(
    s: SessionView,
    background: Seq<u64>,
    commands: Seq<OpCommandView>,
    children: Seq<u64>,
    first: OutcomeView,
    rest: Seq<OutcomeView>,
)
    requires
        s.awaiting == Awaiting::Nothing,
        s.pending.len() == 0,
        s.failure is None,
        s.queue.len() == 0,
        s.group.len() == 0,
        s.jobs.len() > 0,
        s.jobs[0] == (JobView::Launch { commands, sync: true }),
        commands.len() >= 1,
        children.len() == commands.len(),
        rest.len() == commands.len() - 1,
    ensures
        run(s, background, seq![first] + started(children) + rest) == (
            SessionView { jobs: s.jobs.skip(1), sync: true, ..s },
            background,
            spawns(commands, s.verbose) + waits(children),
        ),
{
    let n = commands.len() as int;
    let none = Seq::<u64>::empty();
    let no_action = Seq::<ActionView>::empty();
    // the job is taken up, and its first command is started
    let loaded = SessionView { jobs: s.jobs.skip(1), queue: commands, sync: true, ..s };
    let s1 = SessionView { queue: commands.skip(1), awaiting: Awaiting::Spawn, ..loaded };
    let a1 = ActionView::Spawn { command: commands[0], trace: trace_of(commands[0].arguments, s.verbose) };
    assert(advance(loaded) == (s1, a1));
    assert(step(s, background, first) == (s1, background, a1));
    assert(run(s1, background, Seq::<OutcomeView>::empty()) == (s1, background, no_action));
    assert(seq![first].skip(1) =~= Seq::<OutcomeView>::empty());
    assert(run(s, background, seq![first]) == (s1, background, seq![a1] + no_action));
    // each start but the last brings the next start
    let early = children.take(n - 1);
    lemma_run_spawns(s1, background, early);
    let s2 = SessionView { queue: s1.queue.skip(n - 1), group: s1.group + early, ..s1 };
    assert(s2.queue =~= Seq::<OpCommandView>::empty());
    assert(s2.group =~= early);
    // the last start brings the first wait
    let last = children[n - 1];
    let group = early.push(last);
    assert(group =~= children);
    let s3 = SessionView {
        group: none,
        pending: waits(children).skip(1),
        awaiting: Awaiting::Nothing,
        ..s2
    };
    let settled = SessionView {
        group: none,
        pending: s2.pending + waits(group),
        awaiting: Awaiting::Nothing,
        ..s2
    };
    assert(settle(s2, background, OutcomeView::Spawned(last)) == (settled, background));
    assert(settled.pending =~= waits(children));
    assert(advance(settled) == (s3, waits(children)[0]));
    assert(step(s2, background, OutcomeView::Spawned(last)) == (s3, background, waits(children)[0]));
    // the waits that are left follow, whatever the outcomes
    lemma_run_pending(s3, background, rest);
    let s4 = SessionView { pending: s3.pending.skip(n - 1), ..s3 };
    assert(s4.pending =~= Seq::<ActionView>::empty());
    assert(s4 =~= SessionView { jobs: s.jobs.skip(1), sync: true, ..s });
    // the parts put together
    let tail = seq![OutcomeView::Spawned(last)] + rest;
    assert(tail.skip(1) =~= rest);
    assert(run(s2, background, tail) == (
        s4,
        background,
        seq![waits(children)[0]] + s3.pending.take(n - 1),
    ));
    assert(seq![waits(children)[0]] + s3.pending.take(n - 1) =~= waits(children));
    lemma_run_split(s1, background, started(early), tail);
    lemma_run_split(s, background, seq![first], started(early) + tail);
    assert(started(early) + tail =~= started(children) + rest);
    assert(seq![first] + (started(children) + rest) =~= seq![first] + started(children) + rest);
    assert(spawns(s1.queue.take(n - 1), s.verbose) =~= spawns(commands, s.verbose).skip(1));
    assert((seq![a1] + no_action) + (spawns(commands, s.verbose).skip(1) + waits(children))
        =~= spawns(commands, s.verbose) + waits(children));
}

/// A pipeline of `n` commands that is not synchronous, each of which
/// starts.
///
/// From a state at rest whose next job is to start `commands` without
/// waiting for them, the interpretation names the start of each command,
/// in order, and nothing else. When the outcome of the last start is
/// taken in, the children go to the background, after those that were
/// there, in the order in which they were started; the group is empty,
/// no wait is decided on, and the next job is at hand.
pub proof fn lemma_background_pipeline(
    s: SessionView,
    background: Seq<u64>,
    commands: Seq<OpCommandView>,
    children: Seq<u64>,
    first: OutcomeView,
)
    requires
        s.awaiting == Awaiting::Nothing,
        s.pending.len() == 0,
        s.failure is None,
        s.queue.len() == 0,
        s.group.len() == 0,
        s.jobs.len() > 0,
        s.jobs[0] == (JobView::Launch { commands, sync: false }),
        commands.len() >= 1,
        children.len() == commands.len(),
    ensures
        ({
            let (mid, moved, actions) = run(
                s,
                background,
                seq![first] + started(children.drop_last()),
            );
            &&& actions == spawns(commands, s.verbose)
            &&& moved == background
            &&& settle(mid, moved, OutcomeView::Spawned(children.last())) == (
                SessionView { jobs: s.jobs.skip(1), sync: false, ..s },
                background + children,
            )
        }),
{
    let n = commands.len() as int;
    let no_action = Seq::<ActionView>::empty();
    let loaded = SessionView { jobs: s.jobs.skip(1), queue: commands, sync: false, ..s };
    let s1 = SessionView { queue: commands.skip(1), awaiting: Awaiting::Spawn, ..loaded };
    let a1 = ActionView::Spawn { command: commands[0], trace: trace_of(commands[0].arguments, s.verbose) };
    assert(advance(loaded) == (s1, a1));
    assert(step(s, background, first) == (s1, background, a1));
    assert(run(s1, background, Seq::<OutcomeView>::empty()) == (s1, background, no_action));
    assert(seq![first].skip(1) =~= Seq::<OutcomeView>::empty());
    assert(run(s, background, seq![first]) == (s1, background, seq![a1] + no_action));
    let early = children.drop_last();
    lemma_run_spawns(s1, background, early);
    let s2 = SessionView { queue: s1.queue.skip(n - 1), group: s1.group + early, ..s1 };
    assert(s2.queue =~= Seq::<OpCommandView>::empty());
    assert(s2.group =~= early);
    lemma_run_split(s, background, seq![first], started(early));
    assert(spawns(s1.queue.take(n - 1), s.verbose) =~= spawns(commands, s.verbose).skip(1));
    assert((seq![a1] + no_action) + spawns(commands, s.verbose).skip(1) =~= spawns(
        commands,
        s.verbose,
    ));
    assert(early.push(children.last()) =~= children);
    assert(SessionView { group: Seq::empty(), awaiting: Awaiting::Nothing, ..s2 }
        =~= SessionView { jobs: s.jobs.skip(1), sync: false, ..s });
}

/// A start that fails.
///
/// When the start of a command fails while the group holds the children
/// started before it, the interpretation names a kill for each of them, in
/// the order in which they were started, then a wait for each, from the
/// last one back to the first, and only then ends with the reason of the
/// failure. The group is empty by then, nothing more is begun, and the
/// children in the background are those that were there before.
pub proof fn lemma_failed_start(
    s: SessionView,
    background: Seq<u64>,
    reason: Seq<char>,
    rest: Seq<OutcomeView>,
)
    requires
        s.awaiting == Awaiting::Spawn,
        s.pending.len() == 0,
        rest.len() == 2 * s.group.len(),
    ensures
        run(s, background, seq![OutcomeView::Failed(reason)] + rest) == (
            SessionView {
                jobs: Seq::empty(),
                queue: Seq::empty(),
                group: Seq::empty(),
                pending: Seq::empty(),
                failure: Some(reason),
                awaiting: Awaiting::Nothing,
                ..s
            },
            background,
            kills(s.group) + waits(s.group) + seq![ActionView::Finish(Err(reason))],
        ),
{
    let failed = OutcomeView::Failed(reason);
    let none = Seq::<OutcomeView>::empty();
    let no_action = Seq::<ActionView>::empty();
    let finish = ActionView::Finish(Err(reason));
    let calm = SessionView { awaiting: Awaiting::Nothing, ..s };
    let aborted = abort(calm, reason);
    let cleanup = kills(s.group) + waits(s.group);
    assert(aborted.pending =~= cleanup);
    let done = SessionView { pending: Seq::empty(), ..aborted };
    assert(step(done, background, failed) == (done, background, finish));
    let m = rest.len() as int;
    if m == 0 {
        assert(cleanup =~= no_action);
        assert(aborted =~= done);
        assert(step(s, background, failed) == (done, background, finish));
        assert((seq![failed] + rest).skip(1) =~= none);
        assert(run(done, background, none) == (done, background, no_action));
        assert(seq![finish] + no_action =~= cleanup + seq![finish]);
    } else {
        let t1 = SessionView { pending: cleanup.skip(1), ..aborted };
        assert(step(s, background, failed) == (t1, background, cleanup[0]));
        assert(seq![failed].skip(1) =~= none);
        assert(run(t1, background, none) == (t1, background, no_action));
        assert(run(s, background, seq![failed]) == (t1, background, seq![cleanup[0]] + no_action));
        let middle = rest.take(m - 1);
        lemma_run_pending(t1, background, middle);
        let t2 = SessionView { pending: t1.pending.skip(m - 1), ..t1 };
        assert(t2 =~= done);
        let end = seq![rest[m - 1]];
        assert(step(done, background, rest[m - 1]) == (done, background, finish));
        assert(end.skip(1) =~= none);
        assert(run(done, background, none) == (done, background, no_action));
        assert(run(done, background, end) == (done, background, seq![finish] + no_action));
        lemma_run_split(t1, background, middle, end);
        assert(middle + end =~= rest);
        lemma_run_split(s, background, seq![failed], rest);
        assert((seq![cleanup[0]] + no_action) + (t1.pending.take(m - 1) + (seq![finish] + no_action))
            =~= cleanup + seq![finish]);
    }
}

/// The commands that are started for a pipeline, in order: the source,
/// the filters from left to right, the sink.
pub open spec fn pipeline_ops(pc: PipelinedCommandsView) -> Seq<OpCommandView> {
    seq![source_op(pc.source)] + pc.filters.map_values(|f: FilterCommandView| filter_op(f)).push(
        sink_op(pc.sink),
    )
}

/// Filters that all have a word are all started, in order.
pub proof fn lemma_filter_ops_all(filters: Seq<FilterCommandView>, acc: Seq<OpCommandView>)
    requires
        forall|i: int| 0 <= i < filters.len() ==> (#[trigger] filters[i]).arguments.len() >= 1,
    ensures
        filter_ops(filters, acc) == Some(
            acc + filters.map_values(|f: FilterCommandView| filter_op(f)),
        ),
    decreases filters.len(),
{
    let ops = filters.map_values(|f: FilterCommandView| filter_op(f));
    if filters.len() == 0 {
        assert(acc + ops =~= acc);
    } else {
        let rest = filters.skip(1);
        assert forall|i: int| 0 <= i < rest.len() implies (#[trigger] rest[i]).arguments.len()
            >= 1 by {
            assert(rest[i] == filters[i + 1]);
        }
        lemma_filter_ops_all(rest, acc.push(filter_op(filters[0])));
        assert(acc.push(filter_op(filters[0])) + rest.map_values(
            |f: FilterCommandView| filter_op(f),
        ) =~= acc + ops);
    }
}

/// What there is to do for a pipeline in which every command has a word,
/// as the translator makes them: start the source, the filters and the
/// sink, in this order, with `sync` as the pipeline has it.
pub proof fn lemma_job_of_pipelined(pc: PipelinedCommandsView)
    requires
        compound_ok(CompoundSerialCommandView::PipelinedCommands(pc)),
    ensures
        job_of_pipelined(pc) == (JobView::Launch { commands: pipeline_ops(pc), sync: pc.sync }),
        pipeline_ops(pc).len() == pc.filters.len() + 2,
{
    let source = seq![source_op(pc.source)];
    lemma_filter_ops_all(pc.filters, source);
    let ops = pc.filters.map_values(|f: FilterCommandView| filter_op(f));
    assert((source + ops).push(sink_op(pc.sink)) =~= pipeline_ops(pc));
}

/// A synchronous pipeline of a plan, each command of which starts.
///
/// From a state at rest whose next job is that of a synchronous pipeline
/// in which every command has a word, the interpretation names the start
/// of the source, of each filter from left to right and of the sink, each
/// with its standard input and output as `source_op`, `filter_op` and
/// `sink_op` say, and then a wait for each child, from the sink back to
/// the source. After that the group is empty, no action is left to ask
/// for, and the children in the background are those that were there
/// before.
pub proof fn lemma_pipelined_commands_waited(
    s: SessionView,
    background: Seq<u64>,
    pc: PipelinedCommandsView,
    children: Seq<u64>,
    first: OutcomeView,
    rest: Seq<OutcomeView>,
)
    requires
        s.awaiting == Awaiting::Nothing,
        s.pending.len() == 0,
        s.failure is None,
        s.queue.len() == 0,
        s.group.len() == 0,
        s.jobs.len() > 0,
        s.jobs[0] == job_of_pipelined(pc),
        compound_ok(CompoundSerialCommandView::PipelinedCommands(pc)),
        pc.sync,
        children.len() == pc.filters.len() + 2,
        rest.len() == pc.filters.len() + 1,
    ensures
        run(s, background, seq![first] + started(children) + rest) == (
            SessionView { jobs: s.jobs.skip(1), sync: true, ..s },
            background,
            spawns(pipeline_ops(pc), s.verbose) + waits(children),
        ),
{
    lemma_job_of_pipelined(pc);
    lemma_synchronous_pipeline(s, background, pipeline_ops(pc), children, first, rest);
}

/// While no action is decided on and the group is empty, the next action
/// is neither a kill nor a wait.
pub proof fn lemma_advance_begins(s: SessionView)
    requires
        s.pending.len() == 0,
        s.group.len() == 0,
    ensures
        !(advance(s).1 is Wait),
        !(advance(s).1 is Kill),
    decreases s.jobs.len(),
{
    if s.failure is Some {
    } else if s.queue.len() > 0 {
    } else if s.jobs.len() > 0 {
        let rest = SessionView { jobs: s.jobs.skip(1), ..s };
        match s.jobs[0] {
            JobView::Nothing => {
                lemma_advance_begins(rest);
            },
            JobView::ChangeDir(dir) => {},
            JobView::Fail(reason) => {
                assert(abort(rest, reason).pending =~= Seq::<ActionView>::empty());
                lemma_advance_begins(abort(rest, reason));
            },
            JobView::Launch { commands, sync } => {
                lemma_advance_begins(SessionView { queue: commands, sync, ..rest });
            },
        }
    }
}

/// A command that runs alone in the background.
///
/// From a state at rest whose next job is that of a single command with a
/// word that is not `cd` and that is not synchronous, the interpretation
/// names the start of that command, with its redirections. When the
/// command has started, its child joins the children in the background,
/// once and after those that were there; the group is empty again, and
/// the interpretation goes on with the next job without any kill or
/// wait.
pub proof fn lemma_single_command_background(
    s: SessionView,
    background: Seq<u64>,
    sc: SingleCommandView,
    first: OutcomeView,
    child: u64,
)
    requires
        s.awaiting == Awaiting::Nothing,
        s.pending.len() == 0,
        s.failure is None,
        s.queue.len() == 0,
        s.group.len() == 0,
        s.jobs.len() > 0,
        s.jobs[0] == job_of_single(sc),
        sc.arguments.len() >= 1,
        sc.arguments[0] != "cd"@,
        !sc.sync,
    ensures
        ({
            let (mid, moved, action) = step(s, background, first);
            let next = SessionView { jobs: s.jobs.skip(1), sync: false, ..s };
            &&& action == (ActionView::Spawn {
                command: single_op(sc),
                trace: trace_of(sc.arguments, s.verbose),
            })
            &&& moved == background
            &&& step(mid, moved, OutcomeView::Spawned(child)) == (
                advance(next).0,
                background.push(child),
                advance(next).1,
            )
            &&& !(advance(next).1 is Wait)
            &&& !(advance(next).1 is Kill)
        }),
{
    let commands = seq![single_op(sc)];
    let loaded = SessionView { jobs: s.jobs.skip(1), queue: commands, sync: false, ..s };
    let mid = SessionView { queue: commands.skip(1), awaiting: Awaiting::Spawn, ..loaded };
    let action = ActionView::Spawn {
        command: single_op(sc),
        trace: trace_of(sc.arguments, s.verbose),
    };
    assert(advance(loaded) == (mid, action));
    assert(step(s, background, first) == (mid, background, action));
    let next = SessionView { jobs: s.jobs.skip(1), sync: false, ..s };
    assert(mid.queue =~= Seq::<OpCommandView>::empty());
    assert(mid.group.push(child) =~= seq![child]);
    assert(background + seq![child] =~= background.push(child));
    assert(SessionView { group: Seq::empty(), awaiting: Awaiting::Nothing, ..mid } =~= next);
    assert(settle(mid, background, OutcomeView::Spawned(child)) == (
        next,
        background.push(child),
    ));
    lemma_advance_begins(next);
}

/// A command that runs alone and is waited for.
///
/// From a state at rest whose next job is that of a synchronous single
/// command with a word that is not `cd`, the interpretation names the
/// start of that command, with its redirections, and, when it has
/// started, the wait for its child. After that the group is empty and the
/// children in the background are those that were there before.
pub proof fn lemma_single_command_waited(
    s: SessionView,
    background: Seq<u64>,
    sc: SingleCommandView,
    first: OutcomeView,
    child: u64,
)
    requires
        s.awaiting == Awaiting::Nothing,
        s.pending.len() == 0,
        s.failure is None,
        s.queue.len() == 0,
        s.group.len() == 0,
        s.jobs.len() > 0,
        s.jobs[0] == job_of_single(sc),
        sc.arguments.len() >= 1,
        sc.arguments[0] != "cd"@,
        sc.sync,
    ensures
        run(s, background, seq![first, OutcomeView::Spawned(child)]) == (
            SessionView { jobs: s.jobs.skip(1), sync: true, ..s },
            background,
            seq![
                ActionView::Spawn {
                    command: single_op(sc),
                    trace: trace_of(sc.arguments, s.verbose),
                },
                ActionView::Wait(child),
            ],
        ),
{
    let commands = seq![single_op(sc)];
    let children = seq![child];
    let none = Seq::<OutcomeView>::empty();
    lemma_synchronous_pipeline(s, background, commands, children, first, none);
    assert(seq![first] + started(children) + none =~= seq![first, OutcomeView::Spawned(child)]);
    assert(spawns(commands, s.verbose) + waits(children) =~= seq![
        ActionView::Spawn { command: single_op(sc), trace: trace_of(sc.arguments, s.verbose) },
        ActionView::Wait(child),
    ]);
}

/// The interpretation of one plan, step by step.
#[derive(Debug)]
pub struct Session {
    verbose: bool,
    jobs: VecDeque<Job>,
    queue: VecDeque<OpCommand>,
    sync: bool,
    group: Executor,
    pending: VecDeque<Action>,
    failure: Option<Error>,
    awaiting: Awaiting,
}

impl View for Session {
    type V = SessionView;

    closed spec fn view(&self) -> SessionView {
        SessionView {
            verbose: self.verbose,
            jobs: job_views(self.jobs@),
            queue: op_views(self.queue@),
            sync: self.sync,
            group: self.group@,
            pending: action_views(self.pending@),
            failure: match self.failure {
                Some(e) => Some(e@),
                None => None,
            },
            awaiting: self.awaiting,
        }
    }
}

impl Session {
    /// The session that is to do `jobs`, in order.
    fn new(jobs: VecDeque<Job>, verbose: bool) -> (session: Session)
        ensures
            session@ == initial(job_views(jobs@), verbose),
    {
        let session = Session {
            verbose,
            jobs,
            queue: VecDeque::new(),
            sync: true,
            group: Executor::new(),
            pending: VecDeque::new(),
            failure: None,
            awaiting: Awaiting::Nothing,
        };
        session
    }

    /// Takes how the last action went and names the next action.
    ///
    /// The first call takes `Outcome::Done`. `manager` holds the children
    /// in the background: the children of a job that is not synchronous
    /// are handed over to it when the last of them is started. After
    /// `Action::Finish` every further call gives `Action::Finish` again.
    ///
    /// A session that `Interpreter::run` made is orderly and stays so.
    /// When it names `Action::Finish`, its group is empty and no kill or
    /// wait is left to ask for.
    pub fn next(&mut self, outcome: Outcome, manager: &mut Manager) -> (action: Action)
        ensures
            (final(self)@, final(manager)@, action@) == step(old(self)@, old(manager)@, outcome@),
            orderly(old(self)@) ==> orderly(final(self)@),
            orderly(old(self)@) && action@ is Finish ==> final(self)@.group.len() == 0,
            orderly(old(self)@) && action@ is Finish ==> final(self)@.pending.len() == 0,
    {
        proof {
            if orderly(self@) {
                lemma_step_orderly(self@, manager@, outcome@);
            }
        }
        self.settle(outcome, manager);
        self.advance()
    }

    /// Ends the job at hand for the reason given: its children are to be
    /// killed and waited for, and nothing else is begun.
    fn abort(&mut self, reason: Error)
        ensures
            final(self)@ == abort(old(self)@, reason@),
    {
        let ghost before = action_views(self.pending@);
        let mut actions = self.group.kill_children();
        let ghost added = action_views(actions@);
        self.pending.append(&mut actions);
        assert(action_views(self.pending@) =~= before + added);
        self.jobs = VecDeque::new();
        self.queue = VecDeque::new();
        self.failure = Some(reason);
        self.awaiting = Awaiting::Nothing;
    }

    /// Takes in the outcome of the last action.
    fn settle(&mut self, outcome: Outcome, manager: &mut Manager)
        ensures
            (final(self)@, final(manager)@) == settle(old(self)@, old(manager)@, outcome@),
    {
        let awaiting = self.awaiting;
        self.awaiting = Awaiting::Nothing;
        match awaiting {
            Awaiting::Nothing => {},
            Awaiting::ChangeDir => match outcome {
                Outcome::Failed(reason) => {
                    self.abort(reason);
                },
                _ => {},
            },
            Awaiting::Spawn => match outcome {
                Outcome::Spawned(child) => {
                    self.group.add(child);
                    if self.queue.len() == 0 {
                        if self.sync {
                            let mut actions = self.group.wait_for_children();
                            self.pending.append(&mut actions);
                        } else {
                            self.group.release(manager);
                        }
                    }
                },
                Outcome::Failed(reason) => {
                    self.abort(reason);
                },
                Outcome::Done => {
                    self.abort(Error::new("process not started"));
                },
            },
        }
    }

    /// Names the next action.
    fn advance(&mut self) -> (action: Action)
        ensures
            (final(self)@, action@) == advance(old(self)@),
    {
        loop
            invariant
                advance(self@) == advance(old(self)@),
            decreases self.jobs@.len(),
        {
            if self.pending.len() > 0 {
                let ghost before = action_views(self.pending@);
                let action = self.pending.pop_front().unwrap();
                return action;
            }
            match &self.failure {
                Some(reason) => {
                    return Action::Finish(Err(reason.clone()));
                },
                None => {},
            }
            if self.queue.len() > 0 {
                let ghost before = op_views(self.queue@);
                let command = self.queue.pop_front().unwrap();
                let trace = maybe_debug(self.verbose, &command);
                self.awaiting = Awaiting::Spawn;
                return Action::Spawn { command, trace };
            }
            let ghost before = job_views(self.jobs@);
            match self.jobs.pop_front() {
                None => {
                    return Action::Finish(Ok(()));
                },
                Some(job) => {
                    assert(job_views(self.jobs@) =~= before.skip(1));
                    match job {
                        Job::Nothing => {},
                        Job::ChangeDir(dir) => {
                            self.awaiting = Awaiting::ChangeDir;
                            return Action::ChangeDir(dir);
                        },
                        Job::Fail(reason) => {
                            self.abort(reason);
                        },
                        Job::Launch { commands, sync } => {
                            self.queue = commands;
                            self.sync = sync;
                        },
                    }
                },
            }
        }
    }
}

/// Possibly the line that traces the command we're about to execute.
fn maybe_debug(verbose: bool, command: &OpCommand) -> (trace: Option<String>)
    ensures
        match trace {
            Some(line) => trace_of(command@.arguments, verbose) == Some(line@),
            None => trace_of(command@.arguments, verbose) == None::<Seq<char>>,
        },
{
    if verbose {
        let mut line = String::new();
        line.push('+');
        line.push(' ');
        let n: usize = command.arguments.len();
        let mut i: usize = 0;
        while i < n
            invariant
                n == command.arguments@.len(),
                i <= n,
                line@ + spaced(command@.arguments, i as int) == trace_line(command@.arguments),
            decreases n - i,
        {
            line.append(command.arguments[i].as_str());
            line.push(' ');
            i += 1;
        }
        Some(line)
    } else {
        None
    }
}

/// Interprets the given ListOfCommands
#[derive(Debug)]
pub struct Interpreter {
    verbose: bool,
}

/// Returns whether the interpreter is verbose.
pub fn is_verbose(interp: &Interpreter) -> (verbose: bool)
    ensures
        verbose == interp.verbose(),
{
    interp.verbose
}

/// Configures the interpreter to be verbose.
pub fn set_verbose(interp: &mut Interpreter)
    ensures
        final(interp).verbose(),
{
    interp.verbose = true;
}

/// Interprets the given ListOfCommands: gives the session that does so,
/// tracing each start of a process if `verbose`.
pub fn interpret(loc: ListOfCommands, verbose: bool) -> (session: Session)
    ensures
        session@ == initial(jobs_of(loc@), verbose),
        orderly(session@),
{
    let interp = Interpreter::new(verbose);
    interp.run(loc)
}

impl Interpreter {
    /// Whether each start of a process is traced.
    pub closed spec fn verbose(&self) -> bool {
        self.verbose
    }

    /// Creates a new interpreter.
    pub fn new(verbose: bool) -> (interp: Interpreter)
        ensures
            interp.verbose() == verbose,
    {
        Interpreter { verbose: verbose }
    }

    /// Runs the interpreter: gives the session that interprets the plan,
    /// in its first state.
    pub fn run(&self, loc: ListOfCommands) -> (session: Session)
        ensures
            session@ == initial(jobs_of(loc@), self.verbose()),
            orderly(session@),
    {
        let mut jobs = VecDeque::<Job>::new();
        let mut pipelines = loc.pipelines;
        loop
            invariant
                job_views(jobs@) + jobs_of(
                    ListOfCommandsView { pipelines: compound_views(pipelines@) },
                ) == jobs_of(loc@),
            ensures
                job_views(jobs@) == jobs_of(loc@),
            decreases pipelines@.len(),
        {
            match pipelines.pop_front() {
                None => {
                    break ;
                },
                Some(p) => {
                    let job = self.compound_serial_command(p);
                    jobs.push_back(job);
                },
            }
        }
        Session::new(jobs, self.verbose)
    }

    /// What there is to do for a CompoundSerialCommand
    pub fn compound_serial_command(&self, csc: CompoundSerialCommand) -> (job: Job)
        ensures
            job@ == job_of(csc@),
    {
        match csc {
            CompoundSerialCommand::SingleCommand(sc) => self.single_command(sc),
            CompoundSerialCommand::PipelinedCommands(pc) => self.pipelined_commands(pc),
        }
    }

    /// What there is to do for a SingleCommand
    pub fn single_command(&self, sc: SingleCommand) -> (job: Job)
        ensures
            job@ == job_of_single(sc@),
            sc@.arguments.len() >= 1 && sc@.arguments[0] != "cd"@ ==> job@ == (JobView::Launch {
                commands: seq![single_op(sc@)],
                sync: sc@.sync,
            }),
    {
        // Implementation note: we only check for builtin commands
        // when we're not in pipeline context.
        let mut arguments = sc.arguments;
        if arguments.len() < 1 {
            return Job::Nothing;
        }
        let argv0 = arguments.pop_front().unwrap();
        assert(seq![argv0@] + words(arguments@) =~= sc@.arguments);
        if argv0 == String::from_str("cd") {
            return Self::builtin_cd(arguments);
        }
        let rin = Self::maybe_redirect_input(sc.input);
        let rout = Self::maybe_redirect_output(sc.output);
        let command = self.common_executor(argv0, arguments, rin, rout);
        let mut commands = VecDeque::<OpCommand>::new();
        commands.push_back(command);
        Job::Launch { commands, sync: sc.sync }
    }

    /// Implements the builtin `cd` command
    fn builtin_cd(args: VecDeque<String>) -> (job: Job)
        ensures
            job@ == if args@.len() == 1 {
                JobView::ChangeDir(args@[0]@)
            } else {
                JobView::Fail(err_cd_usage())
            },
    {
        let mut args = args;
        if args.len() != 1 {
            return Job::Fail(Error::new("usage: cd <directory>"));
        }
        Job::ChangeDir(args.pop_front().unwrap())
    }

    /// What there is to do for a pipeline of commands with at least a
    /// source and a sink
    pub fn pipelined_commands(&self, pc: PipelinedCommands) -> (job: Job)
        ensures
            job@ == job_of_pipelined(pc@),
            compound_ok(CompoundSerialCommandView::PipelinedCommands(pc@)) ==> job@
                == (JobView::Launch { commands: pipeline_ops(pc@), sync: pc@.sync }),
    {
        proof {
            if compound_ok(CompoundSerialCommandView::PipelinedCommands(pc@)) {
                lemma_job_of_pipelined(pc@);
            }
        }
        let mut commands = VecDeque::<OpCommand>::new();
        let source = match self.source_command(pc.source) {
            Ok(command) => command,
            Err(e) => return Job::Fail(e),
        };
        commands.push_back(source);
        assert(op_views(commands@) =~= seq![source@]);
        let mut filters = pc.filters;
        loop
            invariant
                pc@.source.arguments.len() > 0,
                compound_ok(CompoundSerialCommandView::PipelinedCommands(pc@)) ==> job_of_pipelined(
                    pc@,
                ) == (JobView::Launch { commands: pipeline_ops(pc@), sync: pc@.sync }),
                filter_ops(pc@.filters, seq![source_op(pc@.source)]) == filter_ops(
                    filter_views(filters@),
                    op_views(commands@),
                ),
            ensures
                filter_ops(pc@.filters, seq![source_op(pc@.source)]) == Some(op_views(commands@)),
            decreases filters@.len(),
        {
            let ghost before = filter_views(filters@);
            let ghost acc = op_views(commands@);
            match filters.pop_front() {
                None => break ,
                Some(filter) => {
                    assert(filter_views(filters@) =~= before.skip(1));
                    let command = match self.filter_command(filter) {
                        Ok(command) => command,
                        Err(e) => return Job::Fail(e),
                    };
                    commands.push_back(command);
                    assert(op_views(commands@) =~= acc.push(command@));
                },
            }
        }
        let sink = match self.sink_command(pc.sink) {
            Ok(command) => command,
            Err(e) => return Job::Fail(e),
        };
        commands.push_back(sink);
        Job::Launch { commands, sync: pc.sync }
    }

    /// The command to execute for the source command of the pipeline
    fn source_command(&self, sc: SourceCommand) -> (r: Result<OpCommand, Error>)
        ensures
            match r {
                Ok(command) => sc@.arguments.len() > 0 && command@ == source_op(sc@),
                Err(e) => sc@.arguments.len() == 0 && e@ == err_empty_source(),
            },
    {
        let mut arguments = sc.arguments;
        if arguments.len() < 1 {
            return Err(Error::new("pipeline with empty source command"));
        }
        let argv0 = arguments.pop_front().unwrap();
        let rin = Self::maybe_redirect_input(sc.input);
        Ok(self.common_executor(argv0, arguments, rin, StdoutPolicy::Pipe))
    }

    /// The command to execute for a filter command of a pipeline
    fn filter_command(&self, fc: FilterCommand) -> (r: Result<OpCommand, Error>)
        ensures
            match r {
                Ok(command) => fc@.arguments.len() > 0 && command@ == filter_op(fc@),
                Err(e) => fc@.arguments.len() == 0 && e@ == err_empty_filter(),
            },
    {
        let mut arguments = fc.arguments;
        if arguments.len() < 1 {
            return Err(Error::new("pipeline with empty filter command"));
        }
        let argv0 = arguments.pop_front().unwrap();
        Ok(self.common_executor(argv0, arguments, StdinPolicy::Pipe, StdoutPolicy::Pipe))
    }

    /// The command to execute for the sink command of a pipeline
    fn sink_command(&self, sc: SinkCommand) -> (r: Result<OpCommand, Error>)
        ensures
            match r {
                Ok(command) => sc@.arguments.len() > 0 && command@ == sink_op(sc@),
                Err(e) => sc@.arguments.len() == 0 && e@ == err_empty_sink(),
            },
    {
        let mut arguments = sc.arguments;
        if arguments.len() < 1 {
            return Err(Error::new("pipeline with empty sink command"));
        }
        let argv0 = arguments.pop_front().unwrap();
        let rou = Self::maybe_redirect_output(sc.output);
        Ok(self.common_executor(argv0, arguments, StdinPolicy::Pipe, rou))
    }

    /// Names the input redirection if needed.
    fn maybe_redirect_input(input: Option<InputRedir>) -> (policy: StdinPolicy)
        ensures
            policy@ == stdin_policy(input_view(input)),
    {
        match input {
            None => StdinPolicy::Inherit,
            Some(input) => StdinPolicy::ReadFrom(input.filename),
        }
    }

    /// Names the output redirection if needed.
    fn maybe_redirect_output(output: Option<OutputRedir>) -> (policy: StdoutPolicy)
        ensures
            policy@ == stdout_policy(output_view(output)),
    {
        match output {
            None => StdoutPolicy::Inherit,
            Some(output) => if output.overwrite {
                StdoutPolicy::OverwriteTo(output.filename)
            } else {
                StdoutPolicy::AppendTo(output.filename)
            },
        }
    }

    /// Common code for executing a child process.
    fn common_executor(
        &self,
        argv0: String,
        args: VecDeque<String>,
        stdin: StdinPolicy,
        stdout: StdoutPolicy,
    ) -> (command: OpCommand)
        ensures
            command@ == (OpCommandView {
                arguments: seq![argv0@] + words(args@),
                stdin: stdin@,
                stdout: stdout@,
            }),
    {
        Executor::spawn(argv0, args, stdin, stdout)
    }
}

} // verus!
