use std::collections::VecDeque;
use xv6sh::lexer::{scan, Kind, Token};

fn tokens(line: &str) -> VecDeque<Token> {
    scan(String::from(line))
}

fn kinds(line: &str) -> Vec<Kind> {
    tokens(line).iter().map(|t: &Token| t.kind).collect()
}

fn values(line: &str) -> Vec<String> {
    tokens(line).iter().map(|t: &Token| t.value.clone()).collect()
}

#[test]
fn scan_empty_line_is_end_of_line() {
    assert_eq!(kinds(""), vec![Kind::EndOfLine]);
    assert_eq!(values(""), vec![String::new()]);
}

#[test]
fn scan_words_in_order() {
    assert_eq!(
        kinds("echo hello"),
        vec![Kind::CommandOrArgument, Kind::CommandOrArgument, Kind::EndOfLine]
    );
    assert_eq!(values("echo hello"), vec!["echo", "hello", ""]);
}

#[test]
fn scan_blanks_separate_and_emit_nothing() {
    assert_eq!(kinds("  \t "), vec![Kind::EndOfLine]);
    assert_eq!(values(" a\tb  c "), vec!["a", "b", "c", ""]);
}

#[test]
fn scan_every_operator() {
    assert_eq!(
        kinds("|();&<>>>"),
        vec![
            Kind::Pipe,
            Kind::OpenBrace,
            Kind::CloseBrace,
            Kind::Semicolon,
            Kind::Ampersand,
            Kind::Minor,
            Kind::MajorMajor,
            Kind::Major,
            Kind::EndOfLine,
        ]
    );
}

#[test]
fn scan_operators_end_words() {
    assert_eq!(
        kinds("a|b;c&d<e>f>>g(h)"),
        vec![
            Kind::CommandOrArgument,
            Kind::Pipe,
            Kind::CommandOrArgument,
            Kind::Semicolon,
            Kind::CommandOrArgument,
            Kind::Ampersand,
            Kind::CommandOrArgument,
            Kind::Minor,
            Kind::CommandOrArgument,
            Kind::Major,
            Kind::CommandOrArgument,
            Kind::MajorMajor,
            Kind::CommandOrArgument,
            Kind::OpenBrace,
            Kind::CommandOrArgument,
            Kind::CloseBrace,
            Kind::EndOfLine,
        ]
    );
    assert_eq!(
        values("a|b;c&d<e>f>>g(h)"),
        vec!["a", "", "b", "", "c", "", "d", "", "e", "", "f", "", "g", "", "h", "", ""]
    );
}

#[test]
fn scan_trailing_major_is_redirection() {
    assert_eq!(kinds("echo >"), vec![Kind::CommandOrArgument, Kind::Major, Kind::EndOfLine]);
}

#[test]
fn scan_major_major_needs_neighbours() {
    assert_eq!(kinds("> >"), vec![Kind::Major, Kind::Major, Kind::EndOfLine]);
    assert_eq!(kinds(">>"), vec![Kind::MajorMajor, Kind::EndOfLine]);
    assert_eq!(kinds(">>>"), vec![Kind::MajorMajor, Kind::Major, Kind::EndOfLine]);
    assert_eq!(
        kinds(">>>>"),
        vec![Kind::MajorMajor, Kind::MajorMajor, Kind::EndOfLine]
    );
}

#[test]
fn scan_ends_with_exactly_one_end_of_line() {
    for line in ["", "a", "a b", "a>", "a>>", "(a;b)|c&", " x ", ">>>", "a\tb"] {
        let kinds = kinds(line);
        let count = kinds.iter().filter(|k| **k == Kind::EndOfLine).count();
        assert_eq!(count, 1, "line {:?}", line);
        assert_eq!(kinds.last(), Some(&Kind::EndOfLine), "line {:?}", line);
    }
}

#[test]
fn scan_has_no_empty_word() {
    for line in ["", " ", "a  b", "|", "a||b", "; ;", "(( ))", "a > b >> c < d"] {
        for token in tokens(line).iter() {
            if token.kind == Kind::CommandOrArgument {
                assert!(!token.value.is_empty(), "line {:?}", line);
                assert!(token.value.chars().all(|c| !" \t|();&<>".contains(c)));
            } else {
                assert!(token.value.is_empty(), "line {:?}", line);
            }
        }
    }
}

#[test]
fn scan_keeps_other_characters_in_words() {
    assert_eq!(values("-l --x=1 a.b/c 'q' \"r\" $HOME é"), vec![
        "-l", "--x=1", "a.b/c", "'q'", "\"r\"", "$HOME", "é", ""
    ]);
}

#[test]
fn scan_major_takes_one_more_character_at_most() {
    assert_eq!(values("a>b"), vec!["a", "", "b", ""]);
    assert_eq!(values("a>>b"), vec!["a", "", "b", ""]);
    assert_eq!(kinds("a>>>b"), vec![
        Kind::CommandOrArgument,
        Kind::MajorMajor,
        Kind::Major,
        Kind::CommandOrArgument,
        Kind::EndOfLine,
    ]);
    assert_eq!(kinds("a>|"), vec![
        Kind::CommandOrArgument,
        Kind::Major,
        Kind::Pipe,
        Kind::EndOfLine,
    ]);
    assert_eq!(kinds("a>>"), vec![Kind::CommandOrArgument, Kind::MajorMajor, Kind::EndOfLine]);
}
