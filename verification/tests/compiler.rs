use std::collections::VecDeque;
use xv6sh::compiler::{compile, OpCommand, StdinPolicy, StdoutPolicy};
use xv6sh::lexer::scan;
use xv6sh::model::Error;
use xv6sh::parser::{parse, CompleteCommand, Pipeline};

fn exe() -> Result<String, Error> {
    Ok(String::from("/bin/xv6sh"))
}

fn ops(line: &str) -> Result<VecDeque<OpCommand>, Error> {
    compile(parse(scan(String::from(line))).unwrap(), exe())
}

fn op(words: &[&str], stdin: StdinPolicy, stdout: StdoutPolicy) -> OpCommand {
    OpCommand { arguments: words.iter().map(|w| String::from(*w)).collect(), stdin, stdout }
}

fn queue(commands: Vec<OpCommand>) -> VecDeque<OpCommand> {
    commands.into_iter().collect()
}

#[test]
fn compile_single_command() {
    assert_eq!(
        ops("echo hello"),
        Ok(queue(vec![op(&["echo", "hello"], StdinPolicy::Inherit, StdoutPolicy::Inherit)]))
    );
}

#[test]
fn compile_redirections() {
    assert_eq!(
        ops("a < in > out ; b >> log"),
        Ok(queue(vec![
            op(
                &["a"],
                StdinPolicy::ReadFrom(String::from("in")),
                StdoutPolicy::OverwriteTo(String::from("out"))
            ),
            op(&["b"], StdinPolicy::Inherit, StdoutPolicy::AppendTo(String::from("log"))),
        ]))
    );
}

#[test]
fn compile_pipeline() {
    assert_eq!(
        ops("cat < in.txt | sort | wc -l > out.txt"),
        Ok(queue(vec![
            op(&["cat"], StdinPolicy::ReadFrom(String::from("in.txt")), StdoutPolicy::Pipe),
            op(&["sort"], StdinPolicy::Pipe, StdoutPolicy::Pipe),
            op(&["wc", "-l"], StdinPolicy::Pipe, StdoutPolicy::OverwriteTo(String::from("out.txt"))),
        ]))
    );
}

#[test]
fn compile_subshell_without_its_redirections() {
    assert_eq!(
        ops("( a ; b ) > out | c"),
        Ok(queue(vec![
            op(&["/bin/xv6sh", "-c", "a;b"], StdinPolicy::Inherit, StdoutPolicy::Pipe),
            op(&["c"], StdinPolicy::Pipe, StdoutPolicy::Inherit),
        ]))
    );
}

#[test]
fn compile_takes_first_redirection() {
    assert_eq!(
        ops("a < x < y > p > q"),
        Ok(queue(vec![op(
            &["a"],
            StdinPolicy::ReadFrom(String::from("y")),
            StdoutPolicy::OverwriteTo(String::from("q"))
        )]))
    );
}

#[test]
fn compile_error_input_inside_pipeline() {
    assert_eq!(ops("a | b < x"), Err(Error::new("sh: input redirection used inside pipeline")));
}

#[test]
fn compile_error_output_inside_pipeline() {
    assert_eq!(ops("a > x | b"), Err(Error::new("sh: output redirection used inside pipeline")));
    assert_eq!(
        ops("a | b < x > y | c"),
        Err(Error::new("sh: input redirection used inside pipeline"))
    );
}

#[test]
fn compile_error_empty_pipeline() {
    let mut cc = CompleteCommand::new();
    cc.pipelines.push_back(Pipeline::new());
    assert_eq!(compile(cc, exe()), Err(Error::new("sh: empty pipeline")));
}

#[test]
fn compile_error_unknown_executable() {
    let tree = parse(scan(String::from("( a )"))).unwrap();
    assert_eq!(compile(tree, Err(Error::new("gone"))), Err(Error::new("gone")));
}
