use std::collections::VecDeque;
use xv6sh::lexer::{scan, Kind, Token};
use xv6sh::model::Error;
use xv6sh::parser::{
    parse, Command, CompleteCommand, InputRedir, OutputRedir, Pipeline, RedirectList, SimpleCommand,
    Subshell,
};

fn tree(line: &str) -> Result<CompleteCommand, Error> {
    parse(scan(String::from(line)))
}

fn reason(line: &str) -> String {
    match tree(line) {
        Ok(cc) => panic!("{:?} parsed to {:?}", line, cc),
        Err(e) => e.to_string(),
    }
}

fn strings(words: &[&str]) -> VecDeque<String> {
    words.iter().map(|w| String::from(*w)).collect()
}

fn redirs(input: &[&str], output: &[(&str, bool)]) -> RedirectList {
    RedirectList {
        input: input.iter().map(|f| InputRedir { filename: String::from(*f) }).collect(),
        output: output
            .iter()
            .map(|(f, o)| OutputRedir { filename: String::from(*f), overwrite: *o })
            .collect(),
    }
}

fn simple(words: &[&str], input: &[&str], output: &[(&str, bool)]) -> Command {
    Command::SimpleCommand(SimpleCommand { arguments: strings(words), redirs: redirs(input, output) })
}

fn pipeline(commands: Vec<Command>, sync: bool) -> Pipeline {
    Pipeline { commands: commands.into_iter().collect(), sync }
}

fn complete(pipelines: Vec<Pipeline>) -> CompleteCommand {
    CompleteCommand { pipelines: pipelines.into_iter().collect() }
}

#[test]
fn parse_simple_command() {
    assert_eq!(
        tree("echo hello"),
        Ok(complete(vec![pipeline(vec![simple(&["echo", "hello"], &[], &[])], true)]))
    );
}

#[test]
fn parse_output_redirection() {
    assert_eq!(
        tree("echo hi > out.txt"),
        Ok(complete(vec![pipeline(
            vec![simple(&["echo", "hi"], &[], &[("out.txt", true)])],
            true
        )]))
    );
}

#[test]
fn parse_append_redirection() {
    assert_eq!(
        tree("echo hi >> out.txt"),
        Ok(complete(vec![pipeline(
            vec![simple(&["echo", "hi"], &[], &[("out.txt", false)])],
            true
        )]))
    );
}

#[test]
fn parse_pipeline_with_redirections() {
    assert_eq!(
        tree("cat < in.txt | wc -l > out.txt"),
        Ok(complete(vec![pipeline(
            vec![
                simple(&["cat"], &["in.txt"], &[]),
                simple(&["wc", "-l"], &[], &[("out.txt", true)]),
            ],
            true
        )]))
    );
}

#[test]
fn parse_background_pipeline() {
    assert_eq!(
        tree("sleep 10 &"),
        Ok(complete(vec![pipeline(vec![simple(&["sleep", "10"], &[], &[])], false)]))
    );
}

#[test]
fn parse_sequence() {
    assert_eq!(
        tree("echo a ; echo b"),
        Ok(complete(vec![
            pipeline(vec![simple(&["echo", "a"], &[], &[])], true),
            pipeline(vec![simple(&["echo", "b"], &[], &[])], true),
        ]))
    );
}

#[test]
fn parse_mixed_separators() {
    assert_eq!(
        tree("a & b ; c & d"),
        Ok(complete(vec![
            pipeline(vec![simple(&["a"], &[], &[])], false),
            pipeline(vec![simple(&["b"], &[], &[])], true),
            pipeline(vec![simple(&["c"], &[], &[])], false),
            pipeline(vec![simple(&["d"], &[], &[])], true),
        ]))
    );
}

#[test]
fn parse_trailing_separator() {
    assert_eq!(
        tree("a ;"),
        Ok(complete(vec![pipeline(vec![simple(&["a"], &[], &[])], true)]))
    );
    assert_eq!(
        tree("a ; b &"),
        Ok(complete(vec![
            pipeline(vec![simple(&["a"], &[], &[])], true),
            pipeline(vec![simple(&["b"], &[], &[])], false),
        ]))
    );
}

#[test]
fn parse_subshell_in_pipeline() {
    let inner = complete(vec![
        pipeline(vec![simple(&["echo", "a"], &[], &[])], true),
        pipeline(vec![simple(&["echo", "b"], &[], &[])], true),
    ]);
    assert_eq!(
        tree("( echo a ; echo b ) | wc -l"),
        Ok(complete(vec![pipeline(
            vec![
                Command::Subshell(Subshell { complete_command: inner, redirs: redirs(&[], &[]) }),
                simple(&["wc", "-l"], &[], &[]),
            ],
            true
        )]))
    );
}

#[test]
fn parse_subshell_with_redirections_and_nesting() {
    let innermost = complete(vec![pipeline(vec![simple(&["a"], &[], &[])], false)]);
    let inner = complete(vec![pipeline(
        vec![
            Command::Subshell(Subshell {
                complete_command: innermost,
                redirs: redirs(&[], &[]),
            }),
            simple(&["b"], &[], &[]),
        ],
        true,
    )]);
    assert_eq!(
        tree("((a&)|b;) < in >> out"),
        Ok(complete(vec![pipeline(
            vec![Command::Subshell(Subshell {
                complete_command: inner,
                redirs: redirs(&["in"], &[("out", false)]),
            })],
            true
        )]))
    );
}

#[test]
fn parse_later_redirection_comes_first() {
    assert_eq!(
        tree("a < x > p < y >> q"),
        Ok(complete(vec![pipeline(
            vec![simple(&["a"], &["y", "x"], &[("q", false), ("p", true)])],
            true
        )]))
    );
}

#[test]
fn parse_stops_at_first_end_of_line() {
    let mut tokens = scan(String::from("a"));
    tokens.push_back(Token { kind: Kind::CommandOrArgument, value: String::from("b") });
    assert_eq!(
        parse(tokens),
        Ok(complete(vec![pipeline(vec![simple(&["a"], &[], &[])], true)]))
    );
}

#[test]
fn parse_error_pipe_without_command() {
    assert_eq!(reason("echo |"), "expected CommandOrArgument token");
    assert_eq!(reason("| echo"), "expected CommandOrArgument token");
    assert_eq!(reason("a | | b"), "expected CommandOrArgument token");
}

#[test]
fn parse_error_empty_line() {
    assert_eq!(reason(""), "expected CommandOrArgument token");
    assert_eq!(reason("   "), "expected CommandOrArgument token");
    assert_eq!(reason(";"), "expected CommandOrArgument token");
    assert_eq!(reason("a ; ; b"), "expected CommandOrArgument token");
    assert_eq!(reason("()"), "expected CommandOrArgument token");
    assert_eq!(reason("> out"), "expected CommandOrArgument token");
}

#[test]
fn parse_error_redirection_without_word() {
    assert_eq!(reason("echo >"), "expected CommandOrArgument token");
    assert_eq!(reason("echo < | cat"), "expected CommandOrArgument token");
    assert_eq!(reason("echo >> ;"), "expected CommandOrArgument token");
}

#[test]
fn parse_error_unclosed_subshell() {
    assert_eq!(reason("( echo a"), "expected ')' token");
    assert_eq!(reason("( ( a ) "), "expected ')' token");
}

#[test]
fn parse_error_missing_end_of_line() {
    assert_eq!(reason("echo a )"), "expected EOL");
    assert_eq!(reason("a ; )"), "expected EOL");
}

#[test]
fn parse_error_bad_separator() {
    assert_eq!(reason("a ( b )"), "expected ;&) or EOL");
    assert_eq!(reason("( a ) b"), "expected ;&) or EOL");
    assert_eq!(reason("a > f g"), "expected ;&) or EOL");
}

#[test]
fn parse_error_tokens_run_out() {
    assert_eq!(parse(VecDeque::new()), Err(Error::new("unexpected end of input")));
    let mut tokens = scan(String::from("a ;"));
    tokens.pop_back();
    assert_eq!(parse(tokens), Err(Error::new("unexpected end of input")));
    let mut tokens = scan(String::from("a >"));
    tokens.pop_back();
    assert_eq!(parse(tokens), Err(Error::new("unexpected end of input")));
}

#[test]
fn parse_constructors_are_empty() {
    assert_eq!(CompleteCommand::new(), complete(vec![]));
    assert_eq!(Pipeline::new(), pipeline(vec![], false));
    assert_eq!(RedirectList::new(), redirs(&[], &[]));
    assert_eq!(Command::SimpleCommand(SimpleCommand::new()), simple(&[], &[], &[]));
}

fn check_well_formed(cc: &CompleteCommand) {
    assert!(cc.pipelines.len() >= 1);
    for p in cc.pipelines.iter() {
        assert!(p.commands.len() >= 1);
        for c in p.commands.iter() {
            match c {
                Command::SimpleCommand(sc) => assert!(sc.arguments.len() >= 1),
                Command::Subshell(ss) => check_well_formed(&ss.complete_command),
            }
        }
    }
}

#[test]
fn parse_yields_well_formed_trees() {
    for line in [
        "a",
        "a b c",
        "a | b | c",
        "a ; b & c",
        "( a | ( b ; c ) ) > f ; d &",
        "a < i > o | b >> p",
        "(a)",
    ] {
        check_well_formed(&tree(line).unwrap());
    }
}

fn subshells(cc: &CompleteCommand) -> usize {
    let mut n = 0;
    for p in cc.pipelines.iter() {
        for c in p.commands.iter() {
            if let Command::Subshell(ss) = c {
                n += 1 + subshells(&ss.complete_command);
            }
        }
    }
    n
}

#[test]
fn parse_reads_balanced_parentheses() {
    for (line, expected) in [
        ("a", 0),
        ("(a)", 1),
        ("((a))", 2),
        ("(a;b)|(c|(d&))>f;e", 3),
        ("(a)|(b)|(c);(d)", 4),
    ] {
        let tokens = scan(String::from(line));
        let opens = tokens.iter().filter(|t| t.kind == Kind::OpenBrace).count();
        let closings = tokens.iter().filter(|t| t.kind == Kind::CloseBrace).count();
        let tree = parse(tokens).unwrap();
        assert_eq!(subshells(&tree), expected, "line {:?}", line);
        assert_eq!(opens, expected, "line {:?}", line);
        assert_eq!(closings, expected, "line {:?}", line);
    }
    for line in ["(a)", "((a);(b|(c)))>f", "a|(b;(c&))", "(a)|(b)|(c);(d)"] {
        let tokens = scan(String::from(line));
        let mut open = 0;
        for token in tokens.iter() {
            match token.kind {
                Kind::OpenBrace => open += 1,
                Kind::CloseBrace => {
                    assert!(open > 0, "line {:?}", line);
                    open -= 1;
                }
                _ => (),
            }
        }
        assert_eq!(open, 0, "line {:?}", line);
        assert!(parse(tokens).is_ok(), "line {:?}", line);
    }
    for line in ["(a", "a)", "((a)", "(a))", ")(", "(a;(b)"] {
        assert!(tree(line).is_err(), "line {:?}", line);
    }
}
