use std::collections::VecDeque;
use xv6sh::lexer::scan;
use xv6sh::model::Error;
use xv6sh::parser::{
    parse, Command, CompleteCommand, InputRedir, OutputRedir, Pipeline, RedirectList, SimpleCommand,
    Subshell,
};
use xv6sh::serializer::serialize;

fn text(line: &str) -> String {
    serialize(parse(scan(String::from(line))).unwrap()).unwrap()
}

fn again(line: &str) -> CompleteCommand {
    parse(scan(text(line))).unwrap()
}

#[test]
fn serialize_words_with_single_spaces() {
    assert_eq!(text("  echo   hello\tworld "), "echo hello world");
}

#[test]
fn serialize_pipelines_with_semicolons() {
    assert_eq!(text("echo a ; echo b"), "echo a;echo b");
    assert_eq!(text("a ; b ; c ;"), "a;b;c");
}

#[test]
fn serialize_commands_with_pipes() {
    assert_eq!(text("cat f | sort | wc -l"), "cat f|sort|wc -l");
}

#[test]
fn serialize_redirections() {
    assert_eq!(text("cat < in.txt | wc -l > out.txt"), "cat<in.txt|wc -l>out.txt");
    assert_eq!(text("a >> log < in"), "a<in>>log");
}

#[test]
fn serialize_subshell() {
    assert_eq!(text("( echo a ; echo b ) | wc -l"), "(echo a;echo b)|wc -l");
    assert_eq!(text("((a|b);c) > out"), "((a|b);c)>out");
}

#[test]
fn serialize_does_not_write_ampersand() {
    assert_eq!(text("sleep 10 &"), "sleep 10");
    assert_eq!(text("a & b"), "a;b");
}

#[test]
fn serialize_writes_first_redirection_of_each_direction() {
    assert_eq!(text("a < x < y > p >> q"), "a<y>>q");
}

#[test]
fn serialize_nothing() {
    assert_eq!(serialize(CompleteCommand::new()), Ok(String::new()));
}

#[test]
fn serialize_error_empty_pipeline() {
    let mut cc = CompleteCommand::new();
    cc.pipelines.push_back(Pipeline::new());
    assert_eq!(serialize(cc), Err(Error::new("empty pipeline")));
}

#[test]
fn serialize_error_empty_pipeline_in_subshell() {
    let mut inner = CompleteCommand::new();
    inner.pipelines.push_back(Pipeline::new());
    let mut sc = SimpleCommand::new();
    sc.arguments.push_back(String::from("a"));
    let mut p = Pipeline::new();
    p.commands.push_back(Command::SimpleCommand(sc));
    p.commands.push_back(Command::Subshell(Subshell {
        complete_command: inner,
        redirs: RedirectList::new(),
    }));
    let mut cc = CompleteCommand::new();
    cc.pipelines.push_back(p);
    assert_eq!(serialize(cc), Err(Error::new("empty pipeline")));
}

#[test]
fn serialize_then_parse_gives_the_tree_back() {
    for line in [
        "echo hello",
        "echo a ; echo b",
        "cat < in.txt | wc -l > out.txt",
        "a b c | d e | f >> g ; h < i",
        "( echo a ; echo b ) | wc -l",
        "((a|b);c)>out;d",
    ] {
        let tree = parse(scan(String::from(line))).unwrap();
        assert_eq!(again(line), tree, "line {:?}", line);
    }
}

#[test]
fn serialize_then_parse_built_tree() {
    let words: VecDeque<String> = ["grep", "-v", "x"].iter().map(|w| String::from(*w)).collect();
    let redirs = RedirectList {
        input: [InputRedir { filename: String::from("in") }].into_iter().collect(),
        output: [OutputRedir { filename: String::from("out"), overwrite: false }]
            .into_iter()
            .collect(),
    };
    let command = Command::SimpleCommand(SimpleCommand { arguments: words, redirs });
    let make = |c: Command| CompleteCommand {
        pipelines: [Pipeline { commands: [c].into_iter().collect(), sync: true }]
            .into_iter()
            .collect(),
    };
    let words: VecDeque<String> = ["grep", "-v", "x"].iter().map(|w| String::from(*w)).collect();
    let redirs = RedirectList {
        input: [InputRedir { filename: String::from("in") }].into_iter().collect(),
        output: [OutputRedir { filename: String::from("out"), overwrite: false }]
            .into_iter()
            .collect(),
    };
    let same = Command::SimpleCommand(SimpleCommand { arguments: words, redirs });
    let written = serialize(make(command)).unwrap();
    assert_eq!(written, "grep -v x<in>>out");
    assert_eq!(parse(scan(written)), Ok(make(same)));
}
