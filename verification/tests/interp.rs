use std::collections::VecDeque;
use xv6sh::compiler::{OpCommand, StdinPolicy, StdoutPolicy};
use xv6sh::interp::{interpret, is_verbose, set_verbose, Interpreter, Job, Session};
use xv6sh::lexer::scan;
use xv6sh::model::Error;
use xv6sh::parser::parse;
use xv6sh::process::{Action, Manager, Outcome, Polled};
use xv6sh::translator::{
    translate, CompoundSerialCommand, FilterCommand, ListOfCommands, PipelinedCommands,
    SingleCommand, SinkCommand, SourceCommand,
};

fn plan(line: &str) -> ListOfCommands {
    let tree = parse(scan(String::from(line))).unwrap();
    translate(tree, false, Ok(String::from("/bin/xv6sh"))).unwrap()
}

fn session(line: &str) -> Session {
    interpret(plan(line), false)
}

/// Runs the session: every start succeeds and gives the children the
/// handles 1, 2, 3 and so on, but for the start with number `failing`.
fn drive(session: &mut Session, manager: &mut Manager, failing: usize) -> Vec<Action> {
    let mut actions = Vec::new();
    let mut outcome = Outcome::Done;
    let mut starts: usize = 0;
    loop {
        let action = session.next(outcome, manager);
        outcome = match &action {
            Action::Spawn { .. } => {
                starts += 1;
                if starts == failing {
                    Outcome::Failed(Error::new("cannot start"))
                } else {
                    Outcome::Spawned(starts as u64)
                }
            }
            Action::Finish(_) => {
                actions.push(action);
                return actions;
            }
            _ => Outcome::Done,
        };
        actions.push(action);
        assert!(actions.len() < 1000);
    }
}

fn run(line: &str) -> (Vec<Action>, Vec<u64>) {
    let mut manager = Manager::new();
    let actions = drive(&mut session(line), &mut manager, 0);
    (actions, manager.procs())
}

fn spawn(words: &[&str], stdin: StdinPolicy, stdout: StdoutPolicy) -> Action {
    Action::Spawn {
        command: OpCommand {
            arguments: words.iter().map(|w| String::from(*w)).collect(),
            stdin,
            stdout,
        },
        trace: None,
    }
}

fn file(name: &str) -> String {
    String::from(name)
}

#[test]
fn run_single_command_and_wait() {
    let (actions, background) = run("echo hello");
    assert_eq!(
        actions,
        vec![
            spawn(&["echo", "hello"], StdinPolicy::Inherit, StdoutPolicy::Inherit),
            Action::Wait(1),
            Action::Finish(Ok(())),
        ]
    );
    assert_eq!(background, Vec::<u64>::new());
}

#[test]
fn run_single_command_with_output_file() {
    let (actions, _) = run("echo hi > out.txt");
    assert_eq!(
        actions,
        vec![
            spawn(&["echo", "hi"], StdinPolicy::Inherit, StdoutPolicy::OverwriteTo(file("out.txt"))),
            Action::Wait(1),
            Action::Finish(Ok(())),
        ]
    );
    let (actions, _) = run("echo hi >> out.txt");
    assert_eq!(
        actions[0],
        spawn(&["echo", "hi"], StdinPolicy::Inherit, StdoutPolicy::AppendTo(file("out.txt")))
    );
}

#[test]
fn run_pipeline_and_wait_sink_first() {
    let (actions, background) = run("cat < in.txt | wc -l > out.txt");
    assert_eq!(
        actions,
        vec![
            spawn(&["cat"], StdinPolicy::ReadFrom(file("in.txt")), StdoutPolicy::Pipe),
            spawn(&["wc", "-l"], StdinPolicy::Pipe, StdoutPolicy::OverwriteTo(file("out.txt"))),
            Action::Wait(2),
            Action::Wait(1),
            Action::Finish(Ok(())),
        ]
    );
    assert_eq!(background, Vec::<u64>::new());
}

#[test]
fn run_pipeline_with_filters() {
    let (actions, _) = run("a | b | c | d");
    assert_eq!(
        actions,
        vec![
            spawn(&["a"], StdinPolicy::Inherit, StdoutPolicy::Pipe),
            spawn(&["b"], StdinPolicy::Pipe, StdoutPolicy::Pipe),
            spawn(&["c"], StdinPolicy::Pipe, StdoutPolicy::Pipe),
            spawn(&["d"], StdinPolicy::Pipe, StdoutPolicy::Inherit),
            Action::Wait(4),
            Action::Wait(3),
            Action::Wait(2),
            Action::Wait(1),
            Action::Finish(Ok(())),
        ]
    );
}

#[test]
fn run_background_command_without_waiting() {
    let mut manager = Manager::new();
    let actions = drive(&mut session("sleep 10 &"), &mut manager, 0);
    assert_eq!(
        actions,
        vec![
            spawn(&["sleep", "10"], StdinPolicy::Inherit, StdoutPolicy::Inherit),
            Action::Finish(Ok(())),
        ]
    );
    assert_eq!(manager.procs(), vec![1]);
    manager.collect(&vec![Polled::Running]);
    assert_eq!(manager.procs(), vec![1]);
    manager.collect(&vec![Polled::Exited]);
    assert_eq!(manager.procs(), Vec::<u64>::new());
}

#[test]
fn run_background_pipeline_goes_to_manager_in_order() {
    let mut manager = Manager::new();
    manager.add(40);
    let actions = drive(&mut session("a | b | c & d"), &mut manager, 0);
    assert_eq!(
        actions,
        vec![
            spawn(&["a"], StdinPolicy::Inherit, StdoutPolicy::Pipe),
            spawn(&["b"], StdinPolicy::Pipe, StdoutPolicy::Pipe),
            spawn(&["c"], StdinPolicy::Pipe, StdoutPolicy::Inherit),
            spawn(&["d"], StdinPolicy::Inherit, StdoutPolicy::Inherit),
            Action::Wait(4),
            Action::Finish(Ok(())),
        ]
    );
    assert_eq!(manager.procs(), vec![40, 1, 2, 3]);
}

#[test]
fn run_sequence_one_after_the_other() {
    let (actions, _) = run("echo a ; echo b");
    assert_eq!(
        actions,
        vec![
            spawn(&["echo", "a"], StdinPolicy::Inherit, StdoutPolicy::Inherit),
            Action::Wait(1),
            spawn(&["echo", "b"], StdinPolicy::Inherit, StdoutPolicy::Inherit),
            Action::Wait(2),
            Action::Finish(Ok(())),
        ]
    );
}

#[test]
fn run_subshell_as_own_executable() {
    let (actions, _) = run("( echo a ; echo b ) | wc -l");
    assert_eq!(
        actions,
        vec![
            spawn(&["/bin/xv6sh", "-c", "echo a;echo b"], StdinPolicy::Inherit, StdoutPolicy::Pipe),
            spawn(&["wc", "-l"], StdinPolicy::Pipe, StdoutPolicy::Inherit),
            Action::Wait(2),
            Action::Wait(1),
            Action::Finish(Ok(())),
        ]
    );
}

#[test]
fn run_failed_start_kills_and_waits_the_pipeline() {
    let mut manager = Manager::new();
    let actions = drive(&mut session("a | b | c | d ; e"), &mut manager, 3);
    assert_eq!(
        actions,
        vec![
            spawn(&["a"], StdinPolicy::Inherit, StdoutPolicy::Pipe),
            spawn(&["b"], StdinPolicy::Pipe, StdoutPolicy::Pipe),
            spawn(&["c"], StdinPolicy::Pipe, StdoutPolicy::Pipe),
            Action::Kill(1),
            Action::Kill(2),
            Action::Wait(2),
            Action::Wait(1),
            Action::Finish(Err(Error::new("cannot start"))),
        ]
    );
    assert_eq!(manager.procs(), Vec::<u64>::new());
}

#[test]
fn run_failed_start_of_background_pipeline_leaves_nothing_behind() {
    let mut manager = Manager::new();
    let actions = drive(&mut session("a | b &"), &mut manager, 2);
    assert_eq!(
        actions,
        vec![
            spawn(&["a"], StdinPolicy::Inherit, StdoutPolicy::Pipe),
            spawn(&["b"], StdinPolicy::Pipe, StdoutPolicy::Inherit),
            Action::Kill(1),
            Action::Wait(1),
            Action::Finish(Err(Error::new("cannot start"))),
        ]
    );
    assert_eq!(manager.procs(), Vec::<u64>::new());
}

#[test]
fn run_failed_single_command_ends_the_line() {
    let mut manager = Manager::new();
    let actions = drive(&mut session("a ; b ; c"), &mut manager, 2);
    assert_eq!(
        actions,
        vec![
            spawn(&["a"], StdinPolicy::Inherit, StdoutPolicy::Inherit),
            Action::Wait(1),
            spawn(&["b"], StdinPolicy::Inherit, StdoutPolicy::Inherit),
            Action::Finish(Err(Error::new("cannot start"))),
        ]
    );
}

#[test]
fn run_start_answered_by_done_is_a_failure() {
    let mut manager = Manager::new();
    let mut session = session("a");
    assert!(matches!(session.next(Outcome::Done, &mut manager), Action::Spawn { .. }));
    assert_eq!(
        session.next(Outcome::Done, &mut manager),
        Action::Finish(Err(Error::new("process not started")))
    );
}

#[test]
fn run_finish_is_repeated() {
    let mut manager = Manager::new();
    let mut session = session("a");
    drive(&mut session, &mut manager, 0);
    assert_eq!(session.next(Outcome::Done, &mut manager), Action::Finish(Ok(())));
    assert_eq!(session.next(Outcome::Spawned(9), &mut manager), Action::Finish(Ok(())));
    assert_eq!(manager.procs(), Vec::<u64>::new());
    let mut session = interpret(ListOfCommands::new(), true);
    assert_eq!(session.next(Outcome::Done, &mut manager), Action::Finish(Ok(())));
    let mut failed = interpret(plan("a"), false);
    drive(&mut failed, &mut manager, 1);
    assert_eq!(
        failed.next(Outcome::Done, &mut manager),
        Action::Finish(Err(Error::new("cannot start")))
    );
}

#[test]
fn run_builtin_cd() {
    let (actions, _) = run("cd /tmp ; ls");
    assert_eq!(
        actions,
        vec![
            Action::ChangeDir(file("/tmp")),
            spawn(&["ls"], StdinPolicy::Inherit, StdoutPolicy::Inherit),
            Action::Wait(1),
            Action::Finish(Ok(())),
        ]
    );
}

#[test]
fn run_builtin_cd_usage() {
    let (actions, _) = run("cd");
    assert_eq!(actions, vec![Action::Finish(Err(Error::new("usage: cd <directory>")))]);
    let (actions, _) = run("a ; cd x y ; b");
    assert_eq!(
        actions,
        vec![
            spawn(&["a"], StdinPolicy::Inherit, StdoutPolicy::Inherit),
            Action::Wait(1),
            Action::Finish(Err(Error::new("usage: cd <directory>"))),
        ]
    );
}

#[test]
fn run_builtin_cd_failure_ends_the_line() {
    let mut manager = Manager::new();
    let mut session = session("cd /nowhere ; ls");
    assert_eq!(session.next(Outcome::Done, &mut manager), Action::ChangeDir(file("/nowhere")));
    assert_eq!(
        session.next(Outcome::Failed(Error::new("no such directory")), &mut manager),
        Action::Finish(Err(Error::new("no such directory")))
    );
}

#[test]
fn run_cd_in_pipeline_is_a_program() {
    let (actions, _) = run("cd x | cat");
    assert_eq!(
        actions[0],
        spawn(&["cd", "x"], StdinPolicy::Inherit, StdoutPolicy::Pipe)
    );
}

#[test]
fn run_traces_when_verbose() {
    let mut manager = Manager::new();
    let mut interp = Interpreter::new(false);
    assert!(!is_verbose(&interp));
    set_verbose(&mut interp);
    assert!(is_verbose(&interp));
    let mut session = interp.run(plan("echo hello ; ls"));
    let actions = drive(&mut session, &mut manager, 0);
    assert_eq!(
        actions[0],
        Action::Spawn {
            command: OpCommand {
                arguments: [file("echo"), file("hello")].into_iter().collect(),
                stdin: StdinPolicy::Inherit,
                stdout: StdoutPolicy::Inherit,
            },
            trace: Some(file("+ echo hello ")),
        }
    );
    assert_eq!(
        actions[2],
        Action::Spawn {
            command: OpCommand {
                arguments: [file("ls")].into_iter().collect(),
                stdin: StdinPolicy::Inherit,
                stdout: StdoutPolicy::Inherit,
            },
            trace: Some(file("+ ls ")),
        }
    );
}

fn words(list: &[&str]) -> VecDeque<String> {
    list.iter().map(|w| String::from(*w)).collect()
}

#[test]
fn run_skips_single_command_without_words() {
    let mut loc = ListOfCommands::new();
    loc.pipelines.push_back(CompoundSerialCommand::SingleCommand(SingleCommand::new()));
    let mut only = SingleCommand::new();
    only.arguments = words(&["a"]);
    only.sync = true;
    loc.pipelines.push_back(CompoundSerialCommand::SingleCommand(only));
    let mut manager = Manager::new();
    let actions = drive(&mut interpret(loc, false), &mut manager, 0);
    assert_eq!(
        actions,
        vec![
            spawn(&["a"], StdinPolicy::Inherit, StdoutPolicy::Inherit),
            Action::Wait(1),
            Action::Finish(Ok(())),
        ]
    );
}

fn pipeline_of(source: &[&str], filters: &[&[&str]], sink: &[&str]) -> ListOfCommands {
    let mut loc = ListOfCommands::new();
    loc.pipelines.push_back(CompoundSerialCommand::PipelinedCommands(PipelinedCommands {
        source: SourceCommand { arguments: words(source), input: None },
        filters: filters.iter().map(|f| FilterCommand { arguments: words(f) }).collect(),
        sink: SinkCommand { arguments: words(sink), output: None },
        sync: true,
    }));
    loc
}

fn only_action(loc: ListOfCommands) -> Action {
    let mut manager = Manager::new();
    let mut actions = drive(&mut interpret(loc, false), &mut manager, 0);
    assert_eq!(actions.len(), 1);
    actions.remove(0)
}

#[test]
fn run_pipeline_with_empty_command_fails_before_any_start() {
    assert_eq!(
        only_action(pipeline_of(&[], &[], &["b"])),
        Action::Finish(Err(Error::new("pipeline with empty source command")))
    );
    assert_eq!(
        only_action(pipeline_of(&["a"], &[&["f"], &[]], &["b"])),
        Action::Finish(Err(Error::new("pipeline with empty filter command")))
    );
    assert_eq!(
        only_action(pipeline_of(&["a"], &[&["f"]], &[])),
        Action::Finish(Err(Error::new("pipeline with empty sink command")))
    );
}

fn op(words: &[&str], stdin: StdinPolicy, stdout: StdoutPolicy) -> OpCommand {
    OpCommand { arguments: words.iter().map(|w| String::from(*w)).collect(), stdin, stdout }
}

fn first_of(line: &str) -> CompoundSerialCommand {
    plan(line).pipelines.pop_front().unwrap()
}

#[test]
fn job_of_background_single_command() {
    let sc = match first_of("sleep 10 &") {
        CompoundSerialCommand::SingleCommand(sc) => sc,
        other => panic!("{:?}", other),
    };
    assert_eq!(
        Interpreter::new(false).single_command(sc),
        Job::Launch {
            commands: [op(&["sleep", "10"], StdinPolicy::Inherit, StdoutPolicy::Inherit)]
                .into_iter()
                .collect(),
            sync: false,
        }
    );
}

#[test]
fn job_of_single_command_kinds() {
    let interp = Interpreter::new(true);
    assert_eq!(interp.single_command(SingleCommand::new()), Job::Nothing);
    assert_eq!(interp.compound_serial_command(first_of("cd /tmp")), Job::ChangeDir(file("/tmp")));
    assert_eq!(
        interp.compound_serial_command(first_of("cd")),
        Job::Fail(Error::new("usage: cd <directory>"))
    );
    assert_eq!(
        interp.compound_serial_command(first_of("cd a b > f")),
        Job::Fail(Error::new("usage: cd <directory>"))
    );
    assert_eq!(
        interp.compound_serial_command(first_of("a < i >> o")),
        Job::Launch {
            commands: [op(&["a"], StdinPolicy::ReadFrom(file("i")), StdoutPolicy::AppendTo(file("o")))]
                .into_iter()
                .collect(),
            sync: true,
        }
    );
}

#[test]
fn job_of_pipeline_with_files() {
    let pc = match first_of("cat < in.txt | wc -l > out.txt") {
        CompoundSerialCommand::PipelinedCommands(pc) => pc,
        other => panic!("{:?}", other),
    };
    assert_eq!(
        Interpreter::new(false).pipelined_commands(pc),
        Job::Launch {
            commands: [
                op(&["cat"], StdinPolicy::ReadFrom(file("in.txt")), StdoutPolicy::Pipe),
                op(&["wc", "-l"], StdinPolicy::Pipe, StdoutPolicy::OverwriteTo(file("out.txt"))),
            ]
            .into_iter()
            .collect(),
            sync: true,
        }
    );
}
