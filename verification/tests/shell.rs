use xv6sh::lexer::Kind;
use xv6sh::model::Error;
use xv6sh::process::{Action, Manager, Outcome, Polled};
use xv6sh::shell::{shrun, Staged};

fn exe() -> Result<String, Error> {
    Ok(String::from("/bin/xv6sh"))
}

fn line(manager: &mut Manager, cmd: &str, stage: &str) -> Result<Staged, Error> {
    let polled: Vec<Polled> = manager.procs().iter().map(|_| Polled::Running).collect();
    shrun(manager, &polled, String::from(cmd), &String::from(stage), false, exe())
}

#[test]
fn shrun_stops_after_scan() {
    let mut manager = Manager::new();
    match line(&mut manager, "echo |", "scan") {
        Ok(Staged::Tokens(tokens)) => {
            let kinds: Vec<Kind> = tokens.iter().map(|t| t.kind).collect();
            assert_eq!(kinds, vec![Kind::CommandOrArgument, Kind::Pipe, Kind::EndOfLine]);
        }
        other => panic!("{:?}", other),
    }
}

#[test]
fn shrun_stops_after_parse() {
    let mut manager = Manager::new();
    match line(&mut manager, "a < x < y", "parse") {
        Ok(Staged::Tree(tree)) => assert_eq!(tree.pipelines.len(), 1),
        other => panic!("{:?}", other),
    }
}

#[test]
fn shrun_stops_after_plan() {
    let mut manager = Manager::new();
    match line(&mut manager, "a | b ; c", "plan") {
        Ok(Staged::Plan(plan)) => assert_eq!(plan.pipelines.len(), 2),
        other => panic!("{:?}", other),
    }
}

#[test]
fn shrun_runs_by_default() {
    for stage in ["", "run", "other"] {
        let mut manager = Manager::new();
        match line(&mut manager, "a", stage) {
            Ok(Staged::Run(mut session)) => {
                assert!(matches!(session.next(Outcome::Done, &mut manager), Action::Spawn { .. }));
                assert_eq!(session.next(Outcome::Spawned(1), &mut manager), Action::Wait(1));
                assert_eq!(session.next(Outcome::Done, &mut manager), Action::Finish(Ok(())));
            }
            other => panic!("{:?}", other),
        }
    }
}

#[test]
fn shrun_parse_error_starts_nothing() {
    let mut manager = Manager::new();
    for stage in ["parse", "plan", "run", ""] {
        match line(&mut manager, "echo |", stage) {
            Err(e) => assert_eq!(e.to_string(), "expected CommandOrArgument token"),
            other => panic!("{:?}", other),
        }
    }
}

#[test]
fn shrun_translate_error() {
    let mut manager = Manager::new();
    for stage in ["plan", "run"] {
        match line(&mut manager, "a < x < y", stage) {
            Err(e) => assert_eq!(e.reason(), "more than one input redirection"),
            other => panic!("{:?}", other),
        }
    }
}

#[test]
fn shrun_collects_background_children_first() {
    let mut manager = Manager::new();
    manager.addq([5, 6, 7].into_iter().collect());
    let polled = vec![Polled::Exited, Polled::Running, Polled::Failed];
    let staged =
        shrun(&mut manager, &polled, String::from("echo |"), &String::from(""), true, exe());
    assert!(staged.is_err());
    assert_eq!(manager.procs(), vec![6]);
    let staged = shrun(
        &mut manager,
        &vec![Polled::Running],
        String::from("sleep 10 &"),
        &String::from("run"),
        false,
        exe(),
    );
    match staged {
        Ok(Staged::Run(mut session)) => {
            assert!(matches!(session.next(Outcome::Done, &mut manager), Action::Spawn { .. }));
            assert_eq!(session.next(Outcome::Spawned(9), &mut manager), Action::Finish(Ok(())));
        }
        other => panic!("{:?}", other),
    }
    assert_eq!(manager.procs(), vec![6, 9]);
}
