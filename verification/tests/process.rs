use std::collections::VecDeque;
use xv6sh::compiler::{OpCommand, StdinPolicy, StdoutPolicy};
use xv6sh::process::{addq, collect, Action, Executor, Manager, Polled};

fn actions(list: Vec<Action>) -> VecDeque<Action> {
    list.into_iter().collect()
}

#[test]
fn executor_spawn_puts_program_first() {
    let args: VecDeque<String> = [String::from("-l"), String::from("x")].into_iter().collect();
    let command = Executor::spawn(
        String::from("wc"),
        args,
        StdinPolicy::Pipe,
        StdoutPolicy::AppendTo(String::from("f")),
    );
    assert_eq!(
        command,
        OpCommand {
            arguments: [String::from("wc"), String::from("-l"), String::from("x")]
                .into_iter()
                .collect(),
            stdin: StdinPolicy::Pipe,
            stdout: StdoutPolicy::AppendTo(String::from("f")),
        }
    );
}

#[test]
fn executor_waits_last_child_first() {
    let mut group = Executor::new();
    assert!(group.is_empty());
    group.add(7);
    group.add(8);
    group.add(9);
    assert!(!group.is_empty());
    assert_eq!(
        group.wait_for_children(),
        actions(vec![Action::Wait(9), Action::Wait(8), Action::Wait(7)])
    );
    assert!(group.is_empty());
    assert_eq!(group.wait_for_children(), actions(vec![]));
}

#[test]
fn executor_kills_all_then_waits() {
    let mut group = Executor::new();
    group.add(3);
    group.add(1);
    group.add(2);
    assert_eq!(
        group.kill_children(),
        actions(vec![
            Action::Kill(3),
            Action::Kill(1),
            Action::Kill(2),
            Action::Wait(2),
            Action::Wait(1),
            Action::Wait(3),
        ])
    );
    assert!(group.is_empty());
    assert_eq!(group.kill_children(), actions(vec![]));
}

#[test]
fn executor_release_moves_children_to_manager() {
    let mut manager = Manager::new();
    manager.add(1);
    let mut group = Executor::new();
    group.add(5);
    group.add(4);
    group.release(&mut manager);
    assert!(group.is_empty());
    assert_eq!(manager.procs(), vec![1, 5, 4]);
}

#[test]
fn manager_add_and_addq_keep_order() {
    let mut manager = Manager::new();
    assert_eq!(manager.procs(), Vec::<u64>::new());
    xv6sh::process::add(&mut manager, 4);
    addq(&mut manager, [9, 2].into_iter().collect());
    manager.add(7);
    manager.addq(VecDeque::new());
    assert_eq!(manager.procs(), vec![4, 9, 2, 7]);
}

#[test]
fn manager_collect_drops_terminated() {
    let mut manager = Manager::new();
    manager.addq([10, 11, 12, 13].into_iter().collect());
    manager.collect(&vec![Polled::Running, Polled::Exited, Polled::Failed, Polled::Running]);
    assert_eq!(manager.procs(), vec![10, 13]);
}

#[test]
fn manager_collect_keeps_untested_children() {
    let mut manager = Manager::new();
    manager.addq([1, 2, 3].into_iter().collect());
    collect(&mut manager, &vec![Polled::Exited]);
    assert_eq!(manager.procs(), vec![2, 3]);
    collect(&mut manager, &vec![]);
    assert_eq!(manager.procs(), vec![2, 3]);
    collect(&mut manager, &vec![Polled::Running, Polled::Exited, Polled::Exited, Polled::Exited]);
    assert_eq!(manager.procs(), vec![2]);
}

fn world(child: u64) -> Polled {
    if child % 3 == 0 {
        Polled::Exited
    } else if child % 3 == 1 {
        Polled::Running
    } else {
        Polled::Failed
    }
}

#[test]
fn manager_collect_twice_is_collect_once() {
    let mut manager = Manager::new();
    manager.addq((1..20).collect());
    let polled: Vec<Polled> = manager.procs().iter().map(|c| world(*c)).collect();
    manager.collect(&polled);
    let once = manager.procs();
    assert_eq!(once, vec![1, 4, 7, 10, 13, 16, 19]);
    let polled: Vec<Polled> = manager.procs().iter().map(|c| world(*c)).collect();
    manager.collect(&polled);
    assert_eq!(manager.procs(), once);
}
