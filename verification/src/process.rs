//! Processes management: what the shell asks of the operating system,
//! the children of the pipeline that is being started, and the children
//! that run in the background.
//!
//! The shell itself starts no process here. It names each thing to do as
//! an `Action`, learns how it went from an `Outcome`, and keeps the
//! handles of its children, which are plain numbers to it.

use crate::compiler::{OpCommand, OpCommandView, StdinPolicy, StdoutPolicy};
use crate::model::Error;
use crate::parser::words;
use std::collections::VecDeque;
use vstd::prelude::*;

verus! {

/// What the shell asks to be done next.
#[derive(Debug, PartialEq, Eq)]
pub enum Action {
    /// Change the working directory of the shell.
    ChangeDir(String),
    /// Start a process: set up its standard input, then its standard
    /// output, as the command says, and where `trace` is given, write it
    /// as one line to standard error just before the process is started.
    /// Whatever is opened for the process is handed over to it: none of
    /// it stays open in the shell.
    Spawn { command: OpCommand, trace: Option<String> },
    /// Ask the child to terminate; a failure to do so is ignored.
    Kill(u64),
    /// Wait until the child has terminated; a failure to do so is ignored.
    Wait(u64),
    /// Nothing is left to do: the line has been interpreted, with this result.
    Finish(Result<(), Error>),
}

/// How the action that was asked for last went.
#[derive(Debug, PartialEq, Eq)]
pub enum Outcome {
    /// It was done, or nothing had been asked for yet.
    Done,
    /// The process was started, and this is the handle of the child.
    Spawned(u64),
    /// It failed, for this reason.
    Failed(Error),
}

/// What a test for exit that does not block found of a child.
#[derive(Debug, Clone, Copy, PartialEq, Eq, Structural)]
pub enum Polled {
    /// The child has not terminated yet.
    Running,
    /// The child has terminated.
    Exited,
    /// The test itself failed.
    Failed,
}

/// An action, with texts as sequences of characters.
#[verifier::ext_equal]
pub enum ActionView {
    ChangeDir(Seq<char>),
    Spawn { command: OpCommandView, trace: Option<Seq<char>> },
    Kill(u64),
    Wait(u64),
    Finish(Result<(), Seq<char>>),
}

/// An outcome, with the reason of a failure as a sequence of characters.
#[verifier::ext_equal]
pub enum OutcomeView {
    Done,
    Spawned(u64),
    Failed(Seq<char>),
}

impl View for Action {
    type V = ActionView;

    open spec fn view(&self) -> ActionView {
        match self {
            Action::ChangeDir(dir) => ActionView::ChangeDir(dir@),
            Action::Spawn { command, trace } => ActionView::Spawn {
                command: command@,
                trace: match trace {
                    Some(line) => Some(line@),
                    None => None,
                },
            },
            Action::Kill(child) => ActionView::Kill(*child),
            Action::Wait(child) => ActionView::Wait(*child),
            Action::Finish(result) => ActionView::Finish(
                match result {
                    Ok(()) => Ok(()),
                    Err(e) => Err(e@),
                },
            ),
        }
    }
}

impl View for Outcome {
    type V = OutcomeView;

    open spec fn view(&self) -> OutcomeView {
        match self {
            Outcome::Done => OutcomeView::Done,
            Outcome::Spawned(child) => OutcomeView::Spawned(*child),
            Outcome::Failed(e) => OutcomeView::Failed(e@),
        }
    }
}

/// The views of actions, in order.
pub open spec fn action_views(actions: Seq<Action>) -> Seq<ActionView> {
    actions.map_values(|a: Action| a@)
}

/// A request to terminate for each child, in the order in which the
/// children were started.
pub open spec fn kills(children: Seq<u64>) -> Seq<ActionView> {
    Seq::new(children.len(), |i: int| ActionView::Kill(children[i]))
}

/// A wait for each child, from the child started last back to the one
/// started first: a pipeline is waited for from its sink to its source.
pub open spec fn waits(children: Seq<u64>) -> Seq<ActionView> {
    Seq::new(children.len(), |i: int| ActionView::Wait(children[children.len() - 1 - i]))
}

/// Executes one or more processes: holds the children of the pipeline that
/// is being started, in the order in which they were started.
#[derive(Debug)]
pub struct Executor {
    children: VecDeque<u64>,
}

impl View for Executor {
    type V = Seq<u64>;

    closed spec fn view(&self) -> Seq<u64> {
        self.children@
    }
}

impl Executor {
    /// Creates a new Executor, without children.
    pub fn new() -> (e: Executor)
        ensures
            e@ == Seq::<u64>::empty(),
    {
        Executor { children: VecDeque::new() }
    }

    /// Common code for spawning a child process: the command to execute
    /// that runs `argv0` on `args` with the given standard input and
    /// output. The child that comes of it, once it is started, is to be
    /// handed to `add`.
    pub fn spawn(
        argv0: String,
        args: VecDeque<String>,
        stdin: StdinPolicy,
        stdout: StdoutPolicy,
    ) -> (command: OpCommand)
        ensures
            command@ == (OpCommandView {
                arguments: seq![argv0@] + words(args@),
                stdin: stdin@,
                stdout: stdout@,
            }),
    {
        let mut arguments = args;
        arguments.push_front(argv0);
        let command = OpCommand { arguments, stdin, stdout };
        command
    }

    /// Takes a child that was started into the group, after the others.
    pub fn add(&mut self, child: u64)
        ensures
            final(self)@ == old(self)@.push(child),
    {
        self.children.push_back(child);
    }

    /// Whether the group holds no child.
    pub fn is_empty(&self) -> (b: bool)
        ensures
            b == (self@.len() == 0),
    {
        self.children.len() == 0
    }

    /// Kills all the children and waits for them to finish: the actions
    /// that do so, after which the group holds no child.
    pub fn kill_children(&mut self) -> (actions: VecDeque<Action>)
        ensures
            final(self)@ == Seq::<u64>::empty(),
            action_views(actions@) == kills(old(self)@) + waits(old(self)@),
    {
        let mut actions = VecDeque::<Action>::new();
        let n: usize = self.children.len();
        let mut i: usize = 0;
        while i < n
            invariant
                self@ == old(self)@,
                n == self@.len(),
                i <= n,
                action_views(actions@) == kills(self@).take(i as int),
            decreases n - i,
        {
            let ghost before = action_views(actions@);
            let action = Action::Kill(self.children[i]);
            actions.push_back(action);
            assert(action_views(actions@) =~= before.push(action@));
            i += 1;
        }
        assert(kills(self@).take(n as int) =~= kills(self@));
        let mut waiting = self.wait_for_children();
        actions.append(&mut waiting);
        actions
    }

    /// Waits for the children to terminate, the last one first: the
    /// actions that do so, after which the group holds no child.
    pub fn wait_for_children(&mut self) -> (actions: VecDeque<Action>)
        ensures
            final(self)@ == Seq::<u64>::empty(),
            action_views(actions@) == waits(old(self)@),
    {
        let mut actions = VecDeque::<Action>::new();
        while self.children.len() > 0
            invariant
                self@ == old(self)@.take(self@.len() as int),
                self@.len() <= old(self)@.len(),
                action_views(actions@) == waits(old(self)@).take(old(self)@.len() - self@.len()),
            decreases self@.len(),
        {
            let ghost before = action_views(actions@);
            // note: proceed backwards
            let c = self.children.pop_back().unwrap();
            let action = Action::Wait(c);
            actions.push_back(action);
            assert(action_views(actions@) =~= before.push(action@));
        }
        actions
    }

    /// Hands the children that are still in the group over to the manager
    /// of background processes, in the order in which they were started.
    /// The group holds no child afterwards.
    pub fn release(&mut self, manager: &mut Manager)
        ensures
            final(self)@ == Seq::<u64>::empty(),
            final(manager)@ == old(manager)@ + old(self)@,
    {
        while self.children.len() > 0
            invariant
                manager@ + self@ == old(manager)@ + old(self)@,
            decreases self@.len(),
        {
            let child = self.children.pop_front().unwrap();
            manager.add(child);
        }
    }
}

/// Whether the child at place `i` stays: it does unless a test found that
/// it is no longer running. A child that was not tested stays.
pub open spec fn stays(polled: Seq<Polled>, i: int) -> bool {
    i >= polled.len() || polled[i] == Polled::Running
}

/// The children from place `i` on that stay, in their order.
pub open spec fn survivors_from(procs: Seq<u64>, polled: Seq<Polled>, i: int) -> Seq<u64>
    decreases procs.len() - i,
{
    if i < 0 || i >= procs.len() {
        Seq::empty()
    } else if stays(polled, i) {
        seq![procs[i]] + survivors_from(procs, polled, i + 1)
    } else {
        survivors_from(procs, polled, i + 1)
    }
}

/// The children that stay when `polled[i]` is what the test found of
/// `procs[i]`: those that are still running, in their order.
pub open spec fn survivors(procs: Seq<u64>, polled: Seq<Polled>) -> Seq<u64> {
    survivors_from(procs, polled, 0)
}

/// What the tests find of the children, one after the other, while
/// `world` tells of each child whether it still runs.
pub open spec fn found(procs: Seq<u64>, world: spec_fn(u64) -> Polled) -> Seq<Polled> {
    procs.map_values(world)
}

/// Every child that stays was found running.
pub proof fn lemma_survivors_run(procs: Seq<u64>, world: spec_fn(u64) -> Polled, i: int)
    requires
        0 <= i,
    ensures
        forall|j: int|
            0 <= j < survivors_from(procs, found(procs, world), i).len() ==> world(
                #[trigger] survivors_from(procs, found(procs, world), i)[j],
            ) == Polled::Running,
    decreases procs.len() - i,
{
    if i < procs.len() {
        lemma_survivors_run(procs, world, i + 1);
    }
}

/// Where every child is found running, all of them stay.
pub proof fn lemma_running_stay(procs: Seq<u64>, world: spec_fn(u64) -> Polled, i: int)
    requires
        0 <= i <= procs.len(),
        forall|j: int| 0 <= j < procs.len() ==> world(#[trigger] procs[j]) == Polled::Running,
    ensures
        survivors_from(procs, found(procs, world), i) == procs.skip(i),
    decreases procs.len() - i,
{
    if i < procs.len() {
        lemma_running_stay(procs, world, i + 1);
        assert(seq![procs[i]] + procs.skip(i + 1) =~= procs.skip(i));
    } else {
        assert(procs.skip(i) =~= Seq::<u64>::empty());
    }
}

/// Collecting twice in a row, while no child changes its state in
/// between, leaves the children that collecting once leaves.
pub proof fn lemma_collect_twice(procs: Seq<u64>, world: spec_fn(u64) -> Polled)
    ensures
        ({
            let once = survivors(procs, found(procs, world));
            survivors(once, found(once, world)) == once
        }),
{
    let once = survivors(procs, found(procs, world));
    lemma_survivors_run(procs, world, 0);
    lemma_running_stay(once, world, 0);
    assert(once.skip(0) =~= once);
}

/// A Manager for background processes, the reaper: holds the children
/// that nobody waits for, oldest first, until a test finds that they have
/// terminated.
#[derive(Debug)]
pub struct Manager {
    procs: VecDeque<u64>,
}

impl View for Manager {
    type V = Seq<u64>;

    closed spec fn view(&self) -> Seq<u64> {
        self.procs@
    }
}

impl Manager {
    /// creates a new process manager, without children.
    pub fn new() -> (m: Manager)
        ensures
            m@ == Seq::<u64>::empty(),
    {
        Manager { procs: VecDeque::new() }
    }

    /// adds a process to the pool of processes we manage.
    pub fn add(&mut self, proc: u64)
        ensures
            final(self)@ == old(self)@.push(proc),
    {
        self.procs.push_back(proc);
    }

    /// adds some processes to the pool of processes we manage.
    pub fn addq(&mut self, procs: VecDeque<u64>)
        ensures
            final(self)@ == old(self)@ + procs@,
    {
        let mut procs = procs;
        self.procs.append(&mut procs);
    }

    /// The children to test for exit, in the order in which `collect`
    /// expects what was found of them.
    pub fn procs(&self) -> (procs: Vec<u64>)
        ensures
            procs@ == self@,
    {
        let mut procs = Vec::<u64>::new();
        let n: usize = self.procs.len();
        let mut i: usize = 0;
        while i < n
            invariant
                n == self@.len(),
                i <= n,
                procs@ == self@.take(i as int),
            decreases n - i,
        {
            procs.push(self.procs[i]);
            i += 1;
        }
        procs
    }

    /// collects terminated processes: drops every child of which the test
    /// found that it has terminated, or failed, and keeps the others.
    pub fn collect(&mut self, polled: &Vec<Polled>)
        ensures
            final(self)@ == survivors(old(self)@, polled@),
    {
        let mut running = VecDeque::<u64>::new();
        let n: usize = self.procs.len();
        let mut i: usize = 0;
        while i < n
            invariant
                self@ == old(self)@,
                n == self@.len(),
                i <= n,
                survivors(self@, polled@) == running@ + survivors_from(self@, polled@, i as int),
            decreases n - i,
        {
            let cur = self.procs[i];
            let keep = if i < polled.len() {
                match polled[i] {
                    Polled::Running => true,
                    _ => false,
                }
            } else {
                true
            };
            if keep {
                running.push_back(cur);
            }
            i += 1;
        }
        self.procs = running;
    }
}

/// adds a process to the pool of processes we manage.
pub fn add(manager: &mut Manager, proc: u64)
    ensures
        final(manager)@ == old(manager)@.push(proc),
{
    manager.add(proc);
}

/// adds some processes to the pool of processes we manage.
pub fn addq(manager: &mut Manager, procs: VecDeque<u64>)
    ensures
        final(manager)@ == old(manager)@ + procs@,
{
    manager.addq(procs);
}

/// collects terminated processes.
pub fn collect(manager: &mut Manager, polled: &Vec<Polled>)
    ensures
        final(manager)@ == survivors(old(manager)@, polled@),
{
    manager.collect(polled);
}

} // verus!
