use std::collections::VecDeque;
use xv6sh::lexer::scan;
use xv6sh::model::Error;
use xv6sh::parser::{
    parse, Command, CompleteCommand, InputRedir, OutputRedir, Pipeline, RedirectList, SimpleCommand,
};
use xv6sh::translator::{
    translate, CompoundSerialCommand, FilterCommand, ListOfCommands, PipelinedCommands,
    SingleCommand, SinkCommand, SourceCommand,
};

fn exe() -> Result<String, Error> {
    Ok(String::from("/bin/xv6sh"))
}

fn plan_of(line: &str, verbose: bool, exe: Result<String, Error>) -> Result<ListOfCommands, Error> {
    translate(parse(scan(String::from(line))).unwrap(), verbose, exe)
}

fn plan(line: &str) -> ListOfCommands {
    plan_of(line, false, exe()).unwrap()
}

fn reason(line: &str) -> String {
    match plan_of(line, false, exe()) {
        Ok(loc) => panic!("{:?} translated to {:?}", line, loc),
        Err(e) => e.to_string(),
    }
}

fn strings(words: &[&str]) -> VecDeque<String> {
    words.iter().map(|w| String::from(*w)).collect()
}

fn input(name: &str) -> Option<InputRedir> {
    Some(InputRedir { filename: String::from(name) })
}

fn output(name: &str, overwrite: bool) -> Option<OutputRedir> {
    Some(OutputRedir { filename: String::from(name), overwrite })
}

fn single(
    words: &[&str],
    input: Option<InputRedir>,
    output: Option<OutputRedir>,
    sync: bool,
) -> CompoundSerialCommand {
    CompoundSerialCommand::SingleCommand(SingleCommand { arguments: strings(words), input, output, sync })
}

fn list(commands: Vec<CompoundSerialCommand>) -> ListOfCommands {
    ListOfCommands { pipelines: commands.into_iter().collect() }
}

#[test]
fn translate_single_command() {
    assert_eq!(plan("echo hello"), list(vec![single(&["echo", "hello"], None, None, true)]));
}

#[test]
fn translate_single_command_with_output() {
    assert_eq!(
        plan("echo hi > out.txt"),
        list(vec![single(&["echo", "hi"], None, output("out.txt", true), true)])
    );
    assert_eq!(
        plan("echo hi >> out.txt < in.txt"),
        list(vec![single(&["echo", "hi"], input("in.txt"), output("out.txt", false), true)])
    );
}

#[test]
fn translate_pipeline_of_two() {
    assert_eq!(
        plan("cat < in.txt | wc -l > out.txt"),
        list(vec![CompoundSerialCommand::PipelinedCommands(PipelinedCommands {
            source: SourceCommand { arguments: strings(&["cat"]), input: input("in.txt") },
            filters: VecDeque::new(),
            sink: SinkCommand { arguments: strings(&["wc", "-l"]), output: output("out.txt", true) },
            sync: true,
        })])
    );
}

#[test]
fn translate_pipeline_with_filters() {
    assert_eq!(
        plan("a | b 1 | c 2 | d &"),
        list(vec![CompoundSerialCommand::PipelinedCommands(PipelinedCommands {
            source: SourceCommand { arguments: strings(&["a"]), input: None },
            filters: [
                FilterCommand { arguments: strings(&["b", "1"]) },
                FilterCommand { arguments: strings(&["c", "2"]) },
            ]
            .into_iter()
            .collect(),
            sink: SinkCommand { arguments: strings(&["d"]), output: None },
            sync: false,
        })])
    );
}

#[test]
fn translate_keeps_sync() {
    assert_eq!(
        plan("sleep 10 & echo a ; echo b"),
        list(vec![
            single(&["sleep", "10"], None, None, false),
            single(&["echo", "a"], None, None, true),
            single(&["echo", "b"], None, None, true),
        ])
    );
}

#[test]
fn translate_subshell_to_own_executable() {
    assert_eq!(
        plan("( echo a ; echo b ) | wc -l"),
        list(vec![CompoundSerialCommand::PipelinedCommands(PipelinedCommands {
            source: SourceCommand {
                arguments: strings(&["/bin/xv6sh", "-c", "echo a;echo b"]),
                input: None,
            },
            filters: VecDeque::new(),
            sink: SinkCommand { arguments: strings(&["wc", "-l"]), output: None },
            sync: true,
        })])
    );
}

#[test]
fn translate_subshell_keeps_its_redirections() {
    assert_eq!(
        plan("( a | b ) < in > out &"),
        list(vec![single(
            &["/bin/xv6sh", "-c", "a|b"],
            input("in"),
            output("out", true),
            false
        )])
    );
}

#[test]
fn translate_subshell_verbose() {
    assert_eq!(
        plan_of("( a )", true, exe()),
        Ok(list(vec![single(&["/bin/xv6sh", "-c", "a", "-x"], None, None, true)]))
    );
}

#[test]
fn translate_error_unknown_executable() {
    assert_eq!(
        plan_of("a ; ( b )", false, Err(Error::new("no such file"))),
        Err(Error::new("no such file"))
    );
    assert_eq!(
        plan_of("a ; b | c", false, Err(Error::new("no such file"))),
        Ok(plan("a ; b | c"))
    );
}

#[test]
fn translate_error_more_than_one_input() {
    assert_eq!(reason("a < x < y"), "more than one input redirection");
    assert_eq!(reason("a < x < y | b"), "more than one input redirection");
}

#[test]
fn translate_error_more_than_one_output() {
    assert_eq!(reason("a > x >> y"), "more than one output redirection");
    assert_eq!(reason("a | b > x > y"), "more than one output redirection");
}

#[test]
fn translate_error_source_output() {
    assert_eq!(reason("a > x | b"), "output redirection for pipeline source");
}

#[test]
fn translate_error_filter_input() {
    assert_eq!(reason("a | b < x | c"), "input redirection for pipeline filter");
    assert_eq!(reason("a | b < x > y | c"), "input redirection for pipeline filter");
}

#[test]
fn translate_error_filter_output() {
    assert_eq!(reason("a | b | c > x | d"), "output redirection for pipeline filter");
}

#[test]
fn translate_error_sink_input() {
    assert_eq!(reason("a | b < x"), "input redirection for pipeline sink");
    assert_eq!(reason("a | b < x > y > z"), "input redirection for pipeline sink");
}

#[test]
fn translate_error_first_from_the_left() {
    assert_eq!(reason("a > x | b < y | c < z"), "output redirection for pipeline source");
    assert_eq!(reason("ok ; a | b < y ; c < p < q"), "input redirection for pipeline sink");
}

#[test]
fn translate_error_subshell_with_empty_pipeline() {
    let mut inner = CompleteCommand::new();
    inner.pipelines.push_back(Pipeline::new());
    let mut p = Pipeline::new();
    p.commands.push_back(Command::Subshell(xv6sh::parser::Subshell {
        complete_command: inner,
        redirs: RedirectList::new(),
    }));
    let mut cc = CompleteCommand::new();
    cc.pipelines.push_back(p);
    assert_eq!(translate(cc, false, exe()), Err(Error::new("empty pipeline")));
}

fn words_only(words: &[&str]) -> Command {
    Command::SimpleCommand(SimpleCommand { arguments: strings(words), redirs: RedirectList::new() })
}

fn tree_with_empty_pipeline() -> CompleteCommand {
    let mut first = Pipeline::new();
    first.sync = true;
    first.commands.push_back(words_only(&["a"]));
    let mut last = Pipeline::new();
    last.commands.push_back(words_only(&["b"]));
    last.commands.push_back(words_only(&["c"]));
    let mut cc = CompleteCommand::new();
    cc.pipelines.push_back(first);
    cc.pipelines.push_back(Pipeline::new());
    cc.pipelines.push_back(last);
    cc
}

#[test]
fn translate_drops_empty_pipeline() {
    let mut without = tree_with_empty_pipeline();
    without.pipelines.remove(1);
    let with = translate(tree_with_empty_pipeline(), false, exe());
    assert_eq!(with, translate(without, false, exe()));
    assert_eq!(with.unwrap().pipelines.len(), 2);
    let mut only = CompleteCommand::new();
    only.pipelines.push_back(Pipeline::new());
    assert_eq!(translate(only, false, exe()), Ok(ListOfCommands::new()));
    assert_eq!(translate(CompleteCommand::new(), false, exe()), Ok(ListOfCommands::new()));
}

#[test]
fn translate_leaves_out_commands_without_words() {
    let mut p = Pipeline::new();
    p.sync = true;
    p.commands.push_back(words_only(&[]));
    p.commands.push_back(words_only(&["a"]));
    p.commands.push_back(words_only(&[]));
    let mut wordless = Pipeline::new();
    wordless.commands.push_back(words_only(&[]));
    let mut cc = CompleteCommand::new();
    cc.pipelines.push_back(wordless);
    cc.pipelines.push_back(p);
    assert_eq!(translate(cc, false, exe()), Ok(list(vec![single(&["a"], None, None, true)])));
}

fn check_plan(loc: &ListOfCommands) {
    for c in loc.pipelines.iter() {
        match c {
            CompoundSerialCommand::SingleCommand(sc) => assert!(sc.arguments.len() >= 1),
            CompoundSerialCommand::PipelinedCommands(pc) => {
                assert!(pc.source.arguments.len() >= 1);
                assert!(pc.sink.arguments.len() >= 1);
                assert!(pc.filters.iter().all(|f| f.arguments.len() >= 1));
            }
        }
    }
}

#[test]
fn translate_every_command_has_a_word() {
    for line in ["a", "a | b", "a | b | c | d", "( a ) | b ; c < i > o", "a & ( b ; c ) &"] {
        check_plan(&plan(line));
    }
}

#[test]
fn translate_constructors_are_empty() {
    assert_eq!(ListOfCommands::new().pipelines.len(), 0);
    assert_eq!(
        SingleCommand::new(),
        SingleCommand { arguments: VecDeque::new(), input: None, output: None, sync: false }
    );
    assert_eq!(SourceCommand::new(), SourceCommand { arguments: VecDeque::new(), input: None });
    assert_eq!(FilterCommand::new(), FilterCommand { arguments: VecDeque::new() });
    assert_eq!(SinkCommand::new(), SinkCommand { arguments: VecDeque::new(), output: None });
    assert_eq!(
        PipelinedCommands::new(),
        PipelinedCommands {
            source: SourceCommand::new(),
            filters: VecDeque::new(),
            sink: SinkCommand::new(),
            sync: false,
        }
    );
}
