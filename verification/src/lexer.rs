//! Scanner: turns one line of text into a sequence of tokens.

use std::collections::VecDeque;
use vstd::prelude::*;

verus! {

/// Kind of a scanned token.
#[derive(Debug, Clone, Copy, PartialEq, Eq, Structural)]
pub enum Kind {
    /// `|`
    Pipe,
    /// `(`
    OpenBrace,
    /// `)`
    CloseBrace,
    /// `;`
    Semicolon,
    /// `&`
    Ampersand,
    /// `<`
    Minor,
    /// `>`
    Major,
    /// `>>`
    MajorMajor,
    /// A word: a command name, an argument or a file name.
    CommandOrArgument,
    /// The end of the line.
    EndOfLine,
}

/// Scanned token.
#[derive(Debug, PartialEq, Eq)]
pub struct Token {
    /// The kind of the token.
    pub kind: Kind,
    /// The token's value: the text of a word, empty for every other kind.
    pub value: String,
}

/// What a token is, with its text as a sequence of characters.
#[verifier::ext_equal]
pub struct TokenView {
    pub kind: Kind,
    pub value: Seq<char>,
}

impl View for Token {
    type V = TokenView;

    open spec fn view(&self) -> TokenView {
        TokenView { kind: self.kind, value: self.value@ }
    }
}

/// The views of a run of tokens, in order.
pub open spec fn token_views(tokens: Seq<Token>) -> Seq<TokenView> {
    tokens.map_values(|t: Token| t@)
}

/// Space and tab separate words and are otherwise ignored.
pub open spec fn is_blank(c: char) -> bool {
    c == ' ' || c == '\t'
}

/// The characters that form operators.
pub open spec fn is_operator(c: char) -> bool {
    c == '|' || c == '(' || c == ')' || c == ';' || c == '&' || c == '<' || c == '>'
}

/// A character that may stand in a word.
pub open spec fn is_word_char(c: char) -> bool {
    !is_blank(c) && !is_operator(c)
}

/// The token of an operator that is one character long.
pub open spec fn operator_kind(c: char) -> Kind
    recommends
        is_operator(c),
{
    if c == '|' {
        Kind::Pipe
    } else if c == '(' {
        Kind::OpenBrace
    } else if c == ')' {
        Kind::CloseBrace
    } else if c == ';' {
        Kind::Semicolon
    } else if c == '&' {
        Kind::Ampersand
    } else if c == '<' {
        Kind::Minor
    } else {
        Kind::Major
    }
}

/// A token that carries no text.
pub open spec fn bare(kind: Kind) -> TokenView {
    TokenView { kind, value: Seq::empty() }
}

/// The token of a word.
pub open spec fn word(text: Seq<char>) -> TokenView {
    TokenView { kind: Kind::CommandOrArgument, value: text }
}

/// What leaving a word emits: the word, unless nothing was collected.
pub open spec fn flush(buff: Seq<char>) -> Seq<TokenView> {
    if buff.len() == 0 {
        Seq::empty()
    } else {
        seq![word(buff)]
    }
}

/// The tokens of `input`, read from the left, when `buff` holds the
/// characters of a word that is still open.
pub open spec fn scan_from(input: Seq<char>, buff: Seq<char>) -> Seq<TokenView>
    decreases input.len(),
{
    if input.len() == 0 {
        flush(buff).push(bare(Kind::EndOfLine))
    } else if is_blank(input[0]) {
        flush(buff) + scan_from(input.skip(1), Seq::empty())
    } else if input[0] == '>' && input.len() >= 2 && input[1] == '>' {
        flush(buff).push(bare(Kind::MajorMajor)) + scan_from(input.skip(2), Seq::empty())
    } else if is_operator(input[0]) {
        flush(buff).push(bare(operator_kind(input[0]))) + scan_from(input.skip(1), Seq::empty())
    } else {
        scan_from(input.skip(1), buff.push(input[0]))
    }
}

/// Whether `c` and the character after it, the first of `rest`, are the
/// operator `>>`.
pub open spec fn doubled(c: char, rest: Seq<char>) -> bool {
    c == '>' && rest.len() > 0 && rest[0] == '>'
}

/// The tokens that the scanner adds when it takes the character `c`, with
/// `rest` still to be read and `buff` holding the word that is open: a
/// blank closes the word; an operator closes the word and adds its own
/// token, which is `>>` where `c` and the next character are both `>`; any
/// other character joins the word and adds nothing.
pub open spec fn step_tokens(c: char, rest: Seq<char>, buff: Seq<char>) -> Seq<TokenView> {
    if is_blank(c) {
        flush(buff)
    } else if doubled(c, rest) {
        flush(buff).push(bare(Kind::MajorMajor))
    } else if is_operator(c) {
        flush(buff).push(bare(operator_kind(c)))
    } else {
        Seq::empty()
    }
}

/// The tokens of a whole line.
pub open spec fn scan_spec(input: Seq<char>) -> Seq<TokenView> {
    scan_from(input, Seq::empty())
}

/// A word token holds at least one character and only word characters;
/// any other token holds no text.
pub open spec fn token_ok(t: TokenView) -> bool {
    if t.kind == Kind::CommandOrArgument {
        t.value.len() > 0 && forall|j: int| 0 <= j < t.value.len() ==> is_word_char(#[trigger] t.value[j])
    } else {
        t.value.len() == 0
    }
}

/// A token sequence as the scanner produces it: one `EndOfLine`, in last
/// place, and every token well formed.
pub open spec fn scanned(tokens: Seq<TokenView>) -> bool {
    &&& tokens.len() >= 1
    &&& tokens.last().kind == Kind::EndOfLine
    &&& forall|i: int| 0 <= i < tokens.len() - 1 ==> (#[trigger] tokens[i]).kind != Kind::EndOfLine
    &&& forall|i: int| 0 <= i < tokens.len() ==> token_ok(#[trigger] tokens[i])
}

/// Whatever the input and the open word, scanning ends with exactly one
/// `EndOfLine` and yields only well-formed tokens, as long as the open
/// word holds word characters only.
pub proof fn lemma_scan_from_scanned(input: Seq<char>, buff: Seq<char>)
    requires
        forall|j: int| 0 <= j < buff.len() ==> is_word_char(#[trigger] buff[j]),
    ensures
        scanned(scan_from(input, buff)),
    decreases input.len(),
{
    let none = Seq::<char>::empty();
    if input.len() == 0 {
    } else if is_blank(input[0]) {
        lemma_scan_from_scanned(input.skip(1), none);
    } else if input[0] == '>' && input.len() >= 2 && input[1] == '>' {
        lemma_scan_from_scanned(input.skip(2), none);
    } else if is_operator(input[0]) {
        lemma_scan_from_scanned(input.skip(1), none);
    } else {
        lemma_scan_from_scanned(input.skip(1), buff.push(input[0]));
    }
}

/// For every input line, the scanner's output ends with exactly one
/// `EndOfLine`, holds no empty word, and no word holds a blank or an
/// operator character.
pub proof fn lemma_scan_spec_scanned(input: Seq<char>)
    ensures
        scanned(scan_spec(input)),
{
    lemma_scan_from_scanned(input, Seq::empty());
}

/// Scans the command line.
pub fn scan(cmdline: String) -> (tokens: VecDeque<Token>)
    ensures
        token_views(tokens@) == scan_spec(cmdline@),
        scanned(token_views(tokens@)),
{
    let mut lexer = Lexer::new(cmdline);
    lexer.run();
    proof {
        lemma_scan_spec_scanned(cmdline@);
    }
    lexer.r
}

/// Lexer for the command line.
struct Lexer {
    /// buffer for constructing CommandOrArgument tokens.
    buff: String,
    /// whether we're inside a CommandOrArgument token.
    inside: bool,
    /// input contains the input that is still to be read.
    input: VecDeque<char>,
    /// contains the stream of tokens.
    r: VecDeque<Token>,
}

impl Lexer {
    /// What this lexer will have emitted when it is done.
    spec fn outcome(&self) -> Seq<TokenView> {
        token_views(self.r@) + scan_from(self.input@, self.buff@)
    }

    /// converts the input to a deque.
    fn to_deque(input: String) -> (r: VecDeque<char>)
        ensures
            r@ == input@,
    {
        let mut r = VecDeque::<char>::new();
        let s = input.as_str();
        for c in it: s.chars()
            invariant
                it.seq() == input@,
                r@ == it.seq().take(it.index()),
        {
            r.push_back(c);
        }
        r
    }

    /// creates a new lexer instance.
    fn new(input: String) -> (l: Lexer)
        ensures
            l.buff@ == Seq::<char>::empty(),
            l.r@ == Seq::<Token>::empty(),
            l.input@ == input@,
            !l.inside,
    {
        Lexer {
            buff: String::new(),
            inside: false,
            input: Self::to_deque(input),
            r: VecDeque::<Token>::new(),
        }
    }

    /// runs the scanner.
    fn run(&mut self)
        ensures
            token_views(final(self).r@) == old(self).outcome(),
            final(self).input@ == Seq::<char>::empty(),
            final(self).buff@ == Seq::<char>::empty(),
            !final(self).inside,
    {
        loop
            invariant
                self.outcome() == old(self).outcome(),
            ensures
                self.input@.len() == 0,
            decreases self.input@.len(),
        {
            if let Some(c) = self.peek() {
                assert(seq![c] + self.input@.skip(1) =~= self.input@);
                self.advance();
                let end_of_line = self.process_current(c);
                if end_of_line {
                    break ;
                }
            } else {
                break ;
            }
        }
        self.leave_and_push_back(Kind::EndOfLine);
    }

    /// processes the current char of the input stream and, if needed,
    /// also processes subsequent chars. Returns true whether we've
    /// reached the end of the input, false otherwise.
    ///
    /// A blank closes the open word. An operator closes the open word and
    /// adds its token; after `>` one more character is taken if it is `>`
    /// too, and then the token is `>>`. Any other character joins the open
    /// word. The end of the input is reported only by a `>` after which
    /// nothing is left.
    fn process_current(&mut self, c: char) -> (at_eol: bool)
        ensures
            at_eol == (c == '>' && old(self).input@.len() == 0),
            final(self).input@ == if doubled(c, old(self).input@) {
                old(self).input@.skip(1)
            } else {
                old(self).input@
            },
            token_views(final(self).r@) == token_views(old(self).r@) + step_tokens(
                c,
                old(self).input@,
                old(self).buff@,
            ),
            final(self).buff@ == if is_word_char(c) {
                old(self).buff@.push(c)
            } else {
                Seq::empty()
            },
            final(self).inside == is_word_char(c),
            final(self).outcome() == token_views(old(self).r@) + scan_from(
                seq![c] + old(self).input@,
                old(self).buff@,
            ),
    {
        let ghost rest = self.input@;
        let ghost full = seq![c] + rest;
        assert(full.skip(1) =~= rest);
        let mut at_eol = false;
        if c == ' ' || c == '\t' {
            self.leave();
        } else if c == '|' {
            self.leave_and_push_back(Kind::Pipe);
        } else if c == '(' {
            self.leave_and_push_back(Kind::OpenBrace);
        } else if c == ')' {
            self.leave_and_push_back(Kind::CloseBrace);
        } else if c == ';' {
            self.leave_and_push_back(Kind::Semicolon);
        } else if c == '&' {
            self.leave_and_push_back(Kind::Ampersand);
        } else if c == '<' {
            self.leave_and_push_back(Kind::Minor);
        } else if c == '>' {
            if let Some(c) = self.peek() {
                if c == '>' {
                    self.advance();
                    self.leave_and_push_back(Kind::MajorMajor);
                    assert(full.skip(2) =~= rest.skip(1));
                } else {
                    self.leave_and_push_back(Kind::Major);
                }
            } else {
                self.leave_and_push_back(Kind::Major);
                at_eol = true;
            }
        } else {
            self.enter_or_persist(c);
        }
        at_eol
    }

    /// peek returns the next character in input without
    /// advancing the input iterator. Returns None in case
    /// we've reached the end of line (EOL).
    fn peek(&self) -> (c: Option<char>)
        ensures
            c == if self.input@.len() > 0 {
                Some(self.input@[0])
            } else {
                None
            },
    {
        if self.input.len() > 0 {
            Some(self.input[0])
        } else {
            None
        }
    }

    /// advance discards the current input character. You
    /// MUST call this function after you've called peek and
    /// you already know we've not reached EOL.
    fn advance(&mut self)
        requires
            old(self).input@.len() > 0,
        ensures
            final(self).input@ == old(self).input@.skip(1),
            final(self).buff == old(self).buff,
            final(self).r == old(self).r,
            final(self).inside == old(self).inside,
    {
        let _ = self.input.pop_front();
    }

    /// enters or continues to be inside a CommandOrArgument token
    /// and appends the current char to the token's value.
    fn enter_or_persist(&mut self, c: char)
        ensures
            final(self).buff@ == old(self).buff@.push(c),
            final(self).input == old(self).input,
            final(self).r == old(self).r,
            final(self).inside,
    {
        self.inside = true;
        self.buff.push(c);
    }

    /// possibly leaves the current token and then pushes back
    /// the given token into the token stream.
    fn leave_and_push_back(&mut self, kind: Kind)
        ensures
            token_views(final(self).r@) == token_views(old(self).r@) + flush(old(self).buff@).push(
                bare(kind),
            ),
            final(self).buff@ == Seq::<char>::empty(),
            final(self).input == old(self).input,
            !final(self).inside,
    {
        self.leave_and_push_back_string(kind, String::new());
    }

    /// possibly leaves the current token and then pushes back the given
    /// token into the token stream using the given value.
    fn leave_and_push_back_string(&mut self, kind: Kind, value: String)
        ensures
            token_views(final(self).r@) == token_views(old(self).r@) + flush(old(self).buff@).push(
                TokenView { kind, value: value@ },
            ),
            final(self).buff@ == Seq::<char>::empty(),
            final(self).input == old(self).input,
            !final(self).inside,
    {
        self.leave();
        let ghost mid = self.r@;
        let token = Token { kind: kind, value: value };
        self.r.push_back(token);
        assert(token_views(self.r@) =~= token_views(mid).push(token@));
    }

    /// called when we stop being inside a CommandOrArgument to
    /// gracefully leave the CommandOrArgument state.
    fn leave(&mut self)
        ensures
            token_views(final(self).r@) == token_views(old(self).r@) + flush(old(self).buff@),
            final(self).buff@ == Seq::<char>::empty(),
            final(self).input == old(self).input,
            !final(self).inside,
    {
        self.inside = false;
        if !self.buff.as_str().is_empty() {
            let value = self.buff.clone();
            let token = Token { kind: Kind::CommandOrArgument, value: value };
            self.r.push_back(token);
            self.buff = String::new();
        }
    }
}

} // verus!
