//! Parser: turns the scanner's tokens into a syntax tree.
//!
//! The grammar:
//!
//! ```text
//! CompleteCommand := Pipeline ((';' | '&') Pipeline)* [';' | '&']
//! Pipeline        := Command ('|' Command)*
//! Command         := '(' CompleteCommand ')' Redirs | Simple
//! Simple          := Word+ Redirs
//! Redirs          := ( '<' Word | '>' Word | '>>' Word )*
//! ```
//!
//! A line is a complete command followed by the end of the line. Parsing
//! stops at the first error.

use crate::balance::{balanced, lemma_parse_balanced};
use crate::lexer::{token_views, Kind, Token, TokenView};
use crate::model::Error;
use std::collections::VecDeque;
use vstd::prelude::*;

verus! {

/// A complete command: pipelines separated by `;` or `&`.
#[derive(Debug, PartialEq, Eq)]
pub struct CompleteCommand {
    pub pipelines: VecDeque<Pipeline>,
}

/// A pipeline: commands joined by `|`.
#[derive(Debug, PartialEq, Eq)]
pub struct Pipeline {
    pub commands: VecDeque<Command>,
    /// Whether the shell waits for the pipeline before it goes on: true
    /// unless `&` ends the pipeline.
    pub sync: bool,
}

/// A command: a simple command or a subshell.
#[derive(Debug, PartialEq, Eq)]
pub enum Command {
    SimpleCommand(SimpleCommand),
    Subshell(Subshell),
}

/// A simple command: words, then redirections.
#[derive(Debug, PartialEq, Eq)]
pub struct SimpleCommand {
    pub arguments: VecDeque<String>,
    pub redirs: RedirectList,
}

/// A subshell: a complete command in parentheses, then redirections.
#[derive(Debug, PartialEq, Eq)]
pub struct Subshell {
    pub complete_command: CompleteCommand,
    pub redirs: RedirectList,
}

/// The redirections of one command. Of each direction, the redirection
/// that was written last comes first.
#[derive(Debug, PartialEq, Eq)]
pub struct RedirectList {
    pub input: VecDeque<InputRedir>,
    pub output: VecDeque<OutputRedir>,
}

/// Describes how to perform input redirection.
#[derive(Debug, Clone, PartialEq, Eq)]
pub struct InputRedir {
    pub filename: String,
}

/// Describes how to perform output redirection.
#[derive(Debug, Clone, PartialEq, Eq)]
pub struct OutputRedir {
    pub filename: String,
    /// True for `>`, which empties the file; false for `>>`, which adds
    /// to it.
    pub overwrite: bool,
}

/// An input redirection, with the file name as a sequence of characters.
#[verifier::ext_equal]
pub struct InputRedirView {
    pub filename: Seq<char>,
}

/// An output redirection, with the file name as a sequence of characters.
#[verifier::ext_equal]
pub struct OutputRedirView {
    pub filename: Seq<char>,
    pub overwrite: bool,
}

/// The redirections of one command, as sequences.
#[verifier::ext_equal]
pub struct RedirectListView {
    pub input: Seq<InputRedirView>,
    pub output: Seq<OutputRedirView>,
}

/// A simple command, with its words as sequences of characters.
#[verifier::ext_equal]
pub struct SimpleCommandView {
    pub arguments: Seq<Seq<char>>,
    pub redirs: RedirectListView,
}

/// A subshell, as a mathematical value.
#[verifier::ext_equal]
pub struct SubshellView {
    pub complete_command: CompleteCommandView,
    pub redirs: RedirectListView,
}

/// A command, as a mathematical value.
#[verifier::ext_equal]
pub enum CommandView {
    SimpleCommand(SimpleCommandView),
    Subshell(SubshellView),
}

/// A pipeline, with its commands as a sequence.
#[verifier::ext_equal]
pub struct PipelineView {
    pub commands: Seq<CommandView>,
    pub sync: bool,
}

/// A complete command, with its pipelines as a sequence: the syntax tree
/// as a mathematical value.
#[verifier::ext_equal]
pub struct CompleteCommandView {
    pub pipelines: Seq<PipelineView>,
}

impl View for InputRedir {
    type V = InputRedirView;

    open spec fn view(&self) -> InputRedirView {
        InputRedirView { filename: self.filename@ }
    }
}

impl View for OutputRedir {
    type V = OutputRedirView;

    open spec fn view(&self) -> OutputRedirView {
        OutputRedirView { filename: self.filename@, overwrite: self.overwrite }
    }
}

/// The words of an argument list, each as a sequence of characters.
pub open spec fn words(arguments: Seq<String>) -> Seq<Seq<char>> {
    arguments.map_values(|w: String| w@)
}

/// The views of input redirections, in order.
pub open spec fn input_views(redirs: Seq<InputRedir>) -> Seq<InputRedirView> {
    redirs.map_values(|r: InputRedir| r@)
}

/// The views of output redirections, in order.
pub open spec fn output_views(redirs: Seq<OutputRedir>) -> Seq<OutputRedirView> {
    redirs.map_values(|r: OutputRedir| r@)
}

/// The views of simple commands, in order.
pub open spec fn simple_views(commands: Seq<SimpleCommand>) -> Seq<SimpleCommandView> {
    commands.map_values(|c: SimpleCommand| c@)
}

/// The views of commands, in order.
pub open spec fn command_views(commands: Seq<Command>) -> Seq<CommandView> {
    commands.map_values(|c: Command| c@)
}

/// The views of pipelines, in order.
pub open spec fn pipeline_views(pipelines: Seq<Pipeline>) -> Seq<PipelineView> {
    pipelines.map_values(|p: Pipeline| p@)
}

impl View for RedirectList {
    type V = RedirectListView;

    open spec fn view(&self) -> RedirectListView {
        RedirectListView { input: input_views(self.input@), output: output_views(self.output@) }
    }
}

impl View for SimpleCommand {
    type V = SimpleCommandView;

    open spec fn view(&self) -> SimpleCommandView {
        SimpleCommandView { arguments: words(self.arguments@), redirs: self.redirs@ }
    }
}

impl View for CompleteCommand {
    type V = CompleteCommandView;

    open spec fn view(&self) -> CompleteCommandView
        decreases self,
    {
        CompleteCommandView {
            pipelines: Seq::new(
                self.pipelines@.len(),
                |i: int|
                    if 0 <= i < self.pipelines@.len() {
                        self.pipelines@[i].view()
                    } else {
                        arbitrary()
                    },
            ),
        }
    }
}

impl View for Pipeline {
    type V = PipelineView;

    open spec fn view(&self) -> PipelineView
        decreases self,
    {
        PipelineView {
            commands: Seq::new(
                self.commands@.len(),
                |i: int|
                    if 0 <= i < self.commands@.len() {
                        self.commands@[i].view()
                    } else {
                        arbitrary()
                    },
            ),
            sync: self.sync,
        }
    }
}

impl View for Command {
    type V = CommandView;

    open spec fn view(&self) -> CommandView
        decreases self,
    {
        match self {
            Command::SimpleCommand(sc) => CommandView::SimpleCommand(sc@),
            Command::Subshell(ss) => CommandView::Subshell(ss.view()),
        }
    }
}

impl View for Subshell {
    type V = SubshellView;

    open spec fn view(&self) -> SubshellView
        decreases self,
    {
        SubshellView { complete_command: self.complete_command.view(), redirs: self.redirs@ }
    }
}

/// The result of parsing a prefix of a token sequence: what was parsed
/// and the tokens that follow it, or the reason of the failure.
pub type Parsed<T> = Result<(T, Seq<TokenView>), Seq<char>>;

/// Reason given when the tokens run out.
pub open spec fn err_end() -> Seq<char> {
    "unexpected end of input"@
}

/// Reason given when a word is required and another token stands there.
pub open spec fn err_word() -> Seq<char> {
    "expected CommandOrArgument token"@
}

/// Reason given when a subshell is not closed.
pub open spec fn err_close() -> Seq<char> {
    "expected ')' token"@
}

/// Reason given when a pipeline is followed by none of `;`, `&`, `)` and
/// the end of the line.
pub open spec fn err_separator() -> Seq<char> {
    "expected ;&) or EOL"@
}

/// Reason given when the line goes on after the complete command.
pub open spec fn err_eol() -> Seq<char> {
    "expected EOL"@
}

/// No redirection at all.
pub open spec fn no_redirs() -> RedirectListView {
    RedirectListView { input: Seq::empty(), output: Seq::empty() }
}

/// Whether the token opens a redirection.
pub open spec fn is_redir(kind: Kind) -> bool {
    kind == Kind::Minor || kind == Kind::Major || kind == Kind::MajorMajor
}

/// Whether the token ends a complete command; it is left for whoever
/// asked for the complete command.
pub open spec fn closes(kind: Kind) -> bool {
    kind == Kind::EndOfLine || kind == Kind::CloseBrace
}

/// `redirs` with one more redirection, which takes the first place among
/// those of its direction.
pub open spec fn with_redir(redirs: RedirectListView, op: Kind, filename: Seq<char>) -> RedirectListView
    recommends
        is_redir(op),
{
    if op == Kind::Minor {
        RedirectListView {
            input: seq![InputRedirView { filename }] + redirs.input,
            output: redirs.output,
        }
    } else {
        RedirectListView {
            input: redirs.input,
            output: seq![OutputRedirView { filename, overwrite: op == Kind::Major }] + redirs.output,
        }
    }
}

/// `Word*`: the longest run of words at the head of `ts`, after `acc`.
pub open spec fn spec_words(ts: Seq<TokenView>, acc: Seq<Seq<char>>) -> Parsed<Seq<Seq<char>>>
    decreases ts.len(),
{
    if ts.len() == 0 {
        Err(err_end())
    } else if ts[0].kind == Kind::CommandOrArgument {
        spec_words(ts.skip(1), acc.push(ts[0].value))
    } else {
        Ok((acc, ts))
    }
}

/// `Redirs := ( '<' Word | '>' Word | '>>' Word )*`, added to `acc`.
pub open spec fn spec_redirs(ts: Seq<TokenView>, acc: RedirectListView) -> Parsed<RedirectListView>
    decreases ts.len(),
{
    if ts.len() == 0 {
        Err(err_end())
    } else if is_redir(ts[0].kind) {
        if ts.len() < 2 {
            Err(err_end())
        } else if ts[1].kind != Kind::CommandOrArgument {
            Err(err_word())
        } else {
            spec_redirs(ts.skip(2), with_redir(acc, ts[0].kind, ts[1].value))
        }
    } else {
        Ok((acc, ts))
    }
}

/// `Simple := Word+ Redirs`.
pub open spec fn spec_simple_command(ts: Seq<TokenView>) -> Parsed<CommandView> {
    match spec_words(ts, Seq::empty()) {
        Err(e) => Err(e),
        Ok((arguments, rest)) => if arguments.len() == 0 {
            Err(err_word())
        } else {
            match spec_redirs(rest, no_redirs()) {
                Err(e) => Err(e),
                Ok((redirs, rest)) => Ok(
                    (CommandView::SimpleCommand(SimpleCommandView { arguments, redirs }), rest),
                ),
            }
        },
    }
}

/// `Command := '(' CompleteCommand ')' Redirs | Simple`.
pub open spec fn spec_command(ts: Seq<TokenView>) -> Parsed<CommandView>
    decreases ts.len(), 0int,
{
    if ts.len() == 0 {
        Err(err_end())
    } else if ts[0].kind == Kind::OpenBrace {
        spec_subshell(ts.skip(1))
    } else {
        spec_simple_command(ts)
    }
}

/// What follows the `(` of a subshell: `CompleteCommand ')' Redirs`.
pub open spec fn spec_subshell(ts: Seq<TokenView>) -> Parsed<CommandView>
    decreases ts.len(), 3int,
{
    match spec_complete_command(ts, Seq::empty()) {
        Err(e) => Err(e),
        Ok((complete_command, rest)) => if rest.len() == 0 {
            Err(err_end())
        } else if rest[0].kind != Kind::CloseBrace {
            Err(err_close())
        } else {
            match spec_redirs(rest.skip(1), no_redirs()) {
                Err(e) => Err(e),
                Ok((redirs, rest)) => Ok(
                    (CommandView::Subshell(SubshellView { complete_command, redirs }), rest),
                ),
            }
        },
    }
}

/// `Pipeline := Command ('|' Command)*`, after the commands in `acc`.
/// The pipeline comes out with `sync` unset: its terminator, which the
/// complete command reads, decides.
///
/// The comparison of lengths serves termination only: a command always
/// takes at least one token (`lemma_command_consumes`).
pub open spec fn spec_pipeline(ts: Seq<TokenView>, acc: Seq<CommandView>) -> Parsed<PipelineView>
    decreases ts.len(), 1int,
{
    match spec_command(ts) {
        Err(e) => Err(e),
        Ok((command, rest)) => if rest.len() == 0 {
            Err(err_end())
        } else if rest[0].kind == Kind::Pipe {
            if rest.len() <= ts.len() {
                spec_pipeline(rest.skip(1), acc.push(command))
            } else {
                Err(err_end())
            }
        } else {
            Ok((PipelineView { commands: acc.push(command), sync: false }, rest))
        },
    }
}

/// `CompleteCommand := Pipeline ((';' | '&') Pipeline)* [';' | '&']`,
/// after the pipelines in `acc`. It ends before an end of line or a `)`,
/// which stays in the tokens that follow. A pipeline that `&` ends is
/// asynchronous; any other is synchronous.
///
/// The comparison of lengths serves termination only
/// (`lemma_pipeline_consumes`).
pub open spec fn spec_complete_command(ts: Seq<TokenView>, acc: Seq<PipelineView>) -> Parsed<
    CompleteCommandView,
>
    decreases ts.len(), 2int,
{
    match spec_pipeline(ts, Seq::empty()) {
        Err(e) => Err(e),
        Ok((pipeline, rest)) => if rest.len() == 0 {
            Err(err_end())
        } else if rest[0].kind == Kind::Semicolon || rest[0].kind == Kind::Ampersand {
            let pipeline = PipelineView {
                commands: pipeline.commands,
                sync: rest[0].kind == Kind::Semicolon,
            };
            let after = rest.skip(1);
            if after.len() > 0 && closes(after[0].kind) {
                Ok((CompleteCommandView { pipelines: acc.push(pipeline) }, after))
            } else if rest.len() <= ts.len() {
                spec_complete_command(after, acc.push(pipeline))
            } else {
                Err(err_end())
            }
        } else if closes(rest[0].kind) {
            let pipeline = PipelineView { commands: pipeline.commands, sync: true };
            Ok((CompleteCommandView { pipelines: acc.push(pipeline) }, rest))
        } else {
            Err(err_separator())
        },
    }
}

/// The syntax tree of a whole line: a complete command, then the end of
/// the line. What follows the end of the line is not read.
pub open spec fn parse_spec(ts: Seq<TokenView>) -> Result<CompleteCommandView, Seq<char>> {
    match spec_complete_command(ts, Seq::empty()) {
        Err(e) => Err(e),
        Ok((complete_command, rest)) => if rest.len() == 0 {
            Err(err_end())
        } else if rest[0].kind != Kind::EndOfLine {
            Err(err_eol())
        } else {
            Ok(complete_command)
        },
    }
}

/// A command as the grammar admits it: a simple command has at least one
/// word, and what a subshell encloses is well formed in turn.
pub open spec fn command_ok(c: CommandView) -> bool
    decreases c,
{
    match c {
        CommandView::SimpleCommand(sc) => sc.arguments.len() >= 1,
        CommandView::Subshell(ss) => complete_ok(ss.complete_command),
    }
}

/// A pipeline as the grammar admits it: at least one command, each well
/// formed.
pub open spec fn pipeline_ok(p: PipelineView) -> bool
    decreases p,
{
    &&& p.commands.len() >= 1
    &&& forall|i: int| 0 <= i < p.commands.len() ==> command_ok(#[trigger] p.commands[i])
}

/// A complete command as the grammar admits it: at least one pipeline,
/// each well formed.
pub open spec fn complete_ok(cc: CompleteCommandView) -> bool
    decreases cc,
{
    &&& cc.pipelines.len() >= 1
    &&& forall|i: int| 0 <= i < cc.pipelines.len() ==> pipeline_ok(#[trigger] cc.pipelines[i])
}

/// Words are added to those collected before, one token each.
pub proof fn lemma_words_consume(ts: Seq<TokenView>, acc: Seq<Seq<char>>)
    ensures
        spec_words(ts, acc) matches Ok((words, rest)) ==> {
            &&& rest.len() + words.len() == ts.len() + acc.len()
            &&& words.len() >= acc.len()
        },
    decreases ts.len(),
{
    if ts.len() > 0 && ts[0].kind == Kind::CommandOrArgument {
        lemma_words_consume(ts.skip(1), acc.push(ts[0].value));
    }
}

/// Redirections never hand back more tokens than they were given.
pub proof fn lemma_redirs_consume(ts: Seq<TokenView>, acc: RedirectListView)
    ensures
        spec_redirs(ts, acc) matches Ok((redirs, rest)) ==> rest.len() <= ts.len(),
    decreases ts.len(),
{
    if ts.len() >= 2 && is_redir(ts[0].kind) && ts[1].kind == Kind::CommandOrArgument {
        lemma_redirs_consume(ts.skip(2), with_redir(acc, ts[0].kind, ts[1].value));
    }
}

/// A command takes at least one token, and is well formed.
pub proof fn lemma_command_consumes(ts: Seq<TokenView>)
    ensures
        spec_command(ts) matches Ok((command, rest)) ==> rest.len() < ts.len() && command_ok(
            command,
        ),
    decreases ts.len(), 0int,
{
    if ts.len() == 0 {
    } else if ts[0].kind == Kind::OpenBrace {
        lemma_subshell_consumes(ts.skip(1));
    } else {
        lemma_words_consume(ts, Seq::empty());
        if let Ok((arguments, rest)) = spec_words(ts, Seq::empty()) {
            lemma_redirs_consume(rest, no_redirs());
        }
    }
}

/// What follows the `(` of a subshell takes at least its `)`, and the
/// subshell is well formed.
pub proof fn lemma_subshell_consumes(ts: Seq<TokenView>)
    ensures
        spec_subshell(ts) matches Ok((command, rest)) ==> rest.len() < ts.len() && command_ok(
            command,
        ),
    decreases ts.len(), 3int,
{
    lemma_complete_command_consumes(ts, Seq::empty());
    if let Ok((complete_command, rest)) = spec_complete_command(ts, Seq::empty()) {
        if rest.len() > 0 && rest[0].kind == Kind::CloseBrace {
            lemma_redirs_consume(rest.skip(1), no_redirs());
        }
    }
}

/// A pipeline takes at least one token, and is well formed if the
/// commands before it are.
pub proof fn lemma_pipeline_consumes(ts: Seq<TokenView>, acc: Seq<CommandView>)
    requires
        forall|i: int| 0 <= i < acc.len() ==> command_ok(#[trigger] acc[i]),
    ensures
        spec_pipeline(ts, acc) matches Ok((pipeline, rest)) ==> rest.len() < ts.len()
            && pipeline_ok(pipeline),
    decreases ts.len(), 1int,
{
    lemma_command_consumes(ts);
    if let Ok((command, rest)) = spec_command(ts) {
        if rest.len() > 0 && rest[0].kind == Kind::Pipe {
            lemma_pipeline_consumes(rest.skip(1), acc.push(command));
        }
    }
}

/// A complete command takes at least one token, and is well formed if
/// the pipelines before it are.
pub proof fn lemma_complete_command_consumes(ts: Seq<TokenView>, acc: Seq<PipelineView>)
    requires
        forall|i: int| 0 <= i < acc.len() ==> pipeline_ok(#[trigger] acc[i]),
    ensures
        spec_complete_command(ts, acc) matches Ok((complete_command, rest)) ==> rest.len()
            < ts.len() && complete_ok(complete_command),
    decreases ts.len(), 2int,
{
    lemma_pipeline_consumes(ts, Seq::empty());
    if let Ok((pipeline, rest)) = spec_pipeline(ts, Seq::empty()) {
        if rest.len() > 0 && (rest[0].kind == Kind::Semicolon || rest[0].kind == Kind::Ampersand) {
            let pipeline = PipelineView {
                commands: pipeline.commands,
                sync: rest[0].kind == Kind::Semicolon,
            };
            let after = rest.skip(1);
            if !(after.len() > 0 && closes(after[0].kind)) {
                lemma_complete_command_consumes(after, acc.push(pipeline));
            }
        }
    }
}

/// Every syntax tree that the grammar yields is well formed: each simple
/// command has at least one word, each pipeline at least one command, and
/// each complete command, that of a subshell too, at least one pipeline.
pub proof fn lemma_parse_well_formed(ts: Seq<TokenView>)
    ensures
        parse_spec(ts) matches Ok(complete_command) ==> complete_ok(complete_command),
{
    lemma_complete_command_consumes(ts, Seq::empty());
}

/// Whether what an executable parsing step returned, with the tokens it
/// left, is what the grammar prescribes.
pub open spec fn agrees<T: View>(r: Result<T, Error>, left: Seq<TokenView>, expected: Parsed<T::V>) -> bool {
    match r {
        Ok(v) => expected == Ok::<(T::V, Seq<TokenView>), Seq<char>>((v@, left)),
        Err(e) => expected == Err::<(T::V, Seq<TokenView>), Seq<char>>(e@),
    }
}

/// Parses the incoming sequence of tokens.
pub fn parse(tokens: VecDeque<Token>) -> (r: Result<CompleteCommand, Error>)
    ensures
        match r {
            Ok(cc) => parse_spec(token_views(tokens@)) == Ok::<CompleteCommandView, Seq<char>>(cc@),
            Err(e) => parse_spec(token_views(tokens@)) == Err::<CompleteCommandView, Seq<char>>(e@),
        },
        r matches Ok(cc) ==> complete_ok(cc@) && balanced(token_views(tokens@), cc@),
{
    proof {
        lemma_parse_well_formed(token_views(tokens@));
        lemma_parse_balanced(token_views(tokens@));
    }
    let mut parser = Parser::new(tokens);
    parser.run()
}

impl CompleteCommand {
    /// creates a new instance of CompleteCommand
    pub fn new() -> (cc: CompleteCommand)
        ensures
            cc@.pipelines == Seq::<PipelineView>::empty(),
    {
        let cc = CompleteCommand { pipelines: VecDeque::new() };
        cc
    }
}

impl Pipeline {
    /// creates a new instance of Pipeline
    pub fn new() -> (p: Pipeline)
        ensures
            p@ == (PipelineView { commands: Seq::empty(), sync: false }),
    {
        let p = Pipeline { commands: VecDeque::new(), sync: false };
        assert(p@.commands =~= Seq::<CommandView>::empty());
        p
    }
}

impl SimpleCommand {
    /// creates a new instance of SimpleCommand
    pub fn new() -> (sc: SimpleCommand)
        ensures
            sc@ == (SimpleCommandView { arguments: Seq::empty(), redirs: no_redirs() }),
    {
        let sc = SimpleCommand { arguments: VecDeque::new(), redirs: RedirectList::new() };
        sc
    }
}

impl RedirectList {
    /// creates a new instance of RedirectList
    pub fn new() -> (redirs: RedirectList)
        ensures
            redirs@ == no_redirs(),
    {
        let redirs = RedirectList { input: VecDeque::new(), output: VecDeque::new() };
        redirs
    }
}

/// Parses a complete command.
struct Parser {
    tokens: VecDeque<Token>,
}

impl Parser {
    /// The tokens that are still to be read.
    spec fn left(&self) -> Seq<TokenView> {
        token_views(self.tokens@)
    }

    /// Creates a new parser instance
    fn new(tokens: VecDeque<Token>) -> (p: Parser)
        ensures
            p.left() == token_views(tokens@),
    {
        Parser { tokens: tokens }
    }

    /// Runs the shell parser.
    fn run(&mut self) -> (r: Result<CompleteCommand, Error>)
        ensures
            match r {
                Ok(cc) => parse_spec(old(self).left()) == Ok::<CompleteCommandView, Seq<char>>(cc@),
                Err(e) => parse_spec(old(self).left()) == Err::<CompleteCommandView, Seq<char>>(e@),
            },
    {
        let cc = match self.parse_complete_command() {
            Ok(cc) => cc,
            Err(e) => return Err(e),
        };
        let token = match self.read() {
            Ok(token) => token,
            Err(e) => return Err(e),
        };
        match token.kind {
            Kind::EndOfLine => (),
            _ => return Err(Error::new("expected EOL")),
        }
        Ok(cc)
    }

    /// Parses a complete command.
    fn parse_complete_command(&mut self) -> (r: Result<CompleteCommand, Error>)
        ensures
            agrees(r, final(self).left(), spec_complete_command(old(self).left(), Seq::empty())),
            final(self).left().len() <= old(self).left().len(),
        decreases old(self).left().len(), 2int,
    {
        let mut cc = CompleteCommand::new();
        loop
            invariant
                self.left().len() <= old(self).left().len(),
                spec_complete_command(old(self).left(), Seq::empty()) == spec_complete_command(
                    self.left(),
                    cc@.pipelines,
                ),
            decreases self.left().len(),
        {
            let ghost acc = cc@.pipelines;
            let mut pipeline = match self.parse_pipeline() {
                Ok(p) => p,
                Err(e) => return Err(e),
            };
            let ghost rest = self.left();
            let token = match self.read() {
                Ok(token) => token,
                Err(e) => return Err(e),
            };
            match token.kind {
                Kind::Semicolon => {
                    pipeline.sync = true;
                },
                Kind::Ampersand => {
                    pipeline.sync = false;
                },
                Kind::EndOfLine => {
                    pipeline.sync = true;
                    cc.pipelines.push_back(pipeline);
                    assert(cc@.pipelines =~= acc.push(pipeline@));
                    self.unread(token);
                    assert(self.left() =~= rest);
                    return Ok(cc);
                },
                Kind::CloseBrace => {
                    pipeline.sync = true;
                    cc.pipelines.push_back(pipeline);
                    assert(cc@.pipelines =~= acc.push(pipeline@));
                    self.unread(token);
                    assert(self.left() =~= rest);
                    return Ok(cc);
                },
                _ => {
                    return Err(Error::new("expected ;&) or EOL"));
                },
            }
            cc.pipelines.push_back(pipeline);
            assert(cc@.pipelines =~= acc.push(pipeline@));
            let ghost after = self.left();
            let next = match self.read() {
                Ok(token) => token,
                Err(e) => {
                    assert(spec_command(after) == Err::<(CommandView, Seq<TokenView>), Seq<char>>(
                        err_end(),
                    ));
                    assert(spec_pipeline(after, Seq::empty()) == Err::<
                        (PipelineView, Seq<TokenView>),
                        Seq<char>,
                    >(err_end()));
                    assert(spec_complete_command(after, acc.push(pipeline@)) == Err::<
                        (CompleteCommandView, Seq<TokenView>),
                        Seq<char>,
                    >(err_end()));
                    return Err(e);
                },
            };
            let done = match next.kind {
                Kind::EndOfLine => true,
                Kind::CloseBrace => true,
                _ => false,
            };
            self.unread(next);
            assert(self.left() =~= after);
            if done {
                return Ok(cc);
            }
        }
    }

    /// Parses a pipeline statement.
    fn parse_pipeline(&mut self) -> (r: Result<Pipeline, Error>)
        ensures
            agrees(r, final(self).left(), spec_pipeline(old(self).left(), Seq::empty())),
            final(self).left().len() <= old(self).left().len(),
            r is Ok ==> final(self).left().len() < old(self).left().len(),
        decreases old(self).left().len(), 1int,
    {
        let mut pipeline = Pipeline::new();
        loop
            invariant_except_break
                spec_pipeline(old(self).left(), Seq::empty()) == spec_pipeline(
                    self.left(),
                    pipeline@.commands,
                ),
            invariant
                self.left().len() <= old(self).left().len(),
                pipeline@.sync == false,
                pipeline@.commands.len() > 0 ==> self.left().len() < old(self).left().len(),
            ensures
                self.left().len() < old(self).left().len(),
                spec_pipeline(old(self).left(), Seq::empty()) == Ok::<
                    (PipelineView, Seq<TokenView>),
                    Seq<char>,
                >((pipeline@, self.left())),
            decreases self.left().len(),
        {
            let ghost acc = pipeline@.commands;
            let command = match self.parse_command() {
                Ok(c) => c,
                Err(e) => return Err(e),
            };
            pipeline.commands.push_back(command);
            assert(pipeline@.commands =~= acc.push(command@));
            let ghost rest = self.left();
            let token = match self.read() {
                Ok(token) => token,
                Err(e) => return Err(e),
            };
            match token.kind {
                Kind::Pipe => (),
                _ => {
                    self.unread(token);
                    assert(self.left() =~= rest);
                    break ;
                },
            }
        }
        Ok(pipeline)
    }

    /// Parses a command statement.
    fn parse_command(&mut self) -> (r: Result<Command, Error>)
        ensures
            agrees(r, final(self).left(), spec_command(old(self).left())),
            final(self).left().len() <= old(self).left().len(),
            r is Ok ==> final(self).left().len() < old(self).left().len(),
        decreases old(self).left().len(), 0int,
    {
        let token = match self.read() {
            Ok(token) => token,
            Err(e) => return Err(e),
        };
        match token.kind {
            Kind::OpenBrace => self.parse_subshell(),
            _ => {
                self.unread(token);
                assert(self.left() =~= old(self).left());
                self.parse_simple_command()
            },
        }
    }

    /// Parses a subshell command.
    fn parse_subshell(&mut self) -> (r: Result<Command, Error>)
        ensures
            agrees(r, final(self).left(), spec_subshell(old(self).left())),
            final(self).left().len() <= old(self).left().len(),
        decreases old(self).left().len(), 3int,
    {
        // We have already consumed the '(' token
        let cc = match self.parse_complete_command() {
            Ok(cc) => cc,
            Err(e) => return Err(e),
        };
        let token = match self.read() {
            Ok(token) => token,
            Err(e) => return Err(e),
        };
        match token.kind {
            Kind::CloseBrace => (),
            _ => return Err(Error::new("expected ')' token")),
        }
        let redirs = match self.parse_redirs() {
            Ok(redirs) => redirs,
            Err(e) => return Err(e),
        };
        Ok(Command::Subshell(Subshell { complete_command: cc, redirs: redirs }))
    }

    /// Parses a simple command.
    fn parse_simple_command(&mut self) -> (r: Result<Command, Error>)
        ensures
            agrees(r, final(self).left(), spec_simple_command(old(self).left())),
            final(self).left().len() <= old(self).left().len(),
            r is Ok ==> final(self).left().len() < old(self).left().len(),
    {
        let mut scmd = SimpleCommand::new();
        loop
            invariant
                self.left().len() <= old(self).left().len(),
                scmd@.redirs == no_redirs(),
                spec_words(old(self).left(), Seq::empty()) == spec_words(
                    self.left(),
                    scmd@.arguments,
                ),
                scmd@.arguments.len() > 0 ==> self.left().len() < old(self).left().len(),
            ensures
                self.left().len() <= old(self).left().len(),
                scmd@.redirs == no_redirs(),
                scmd@.arguments.len() > 0 ==> self.left().len() < old(self).left().len(),
                spec_words(old(self).left(), Seq::empty()) == Ok::<
                    (Seq<Seq<char>>, Seq<TokenView>),
                    Seq<char>,
                >((scmd@.arguments, self.left())),
            decreases self.left().len(),
        {
            let ghost acc = scmd@.arguments;
            let ghost before = self.left();
            let token = match self.read() {
                Ok(token) => token,
                Err(e) => return Err(e),
            };
            match token.kind {
                Kind::CommandOrArgument => {
                    scmd.arguments.push_back(token.value);
                    assert(scmd@.arguments =~= acc.push(token@.value));
                },
                _ => {
                    self.unread(token);
                    assert(self.left() =~= before);
                    break ;
                },
            }
        }
        if scmd.arguments.len() == 0 {
            return Err(Error::new("expected CommandOrArgument token"));
        }
        let redirs = match self.parse_redirs() {
            Ok(redirs) => redirs,
            Err(e) => return Err(e),
        };
        scmd.redirs = redirs;
        Ok(Command::SimpleCommand(scmd))
    }

    /// Parses a redirection.
    fn parse_redirs(&mut self) -> (r: Result<RedirectList, Error>)
        ensures
            agrees(r, final(self).left(), spec_redirs(old(self).left(), no_redirs())),
            final(self).left().len() <= old(self).left().len(),
    {
        let mut redirs = RedirectList::new();
        loop
            invariant
                self.left().len() <= old(self).left().len(),
                spec_redirs(old(self).left(), no_redirs()) == spec_redirs(self.left(), redirs@),
            decreases self.left().len(),
        {
            let ghost acc = redirs@;
            let ghost before = self.left();
            let token = match self.read() {
                Ok(token) => token,
                Err(e) => return Err(e),
            };
            match token.kind {
                Kind::Minor => {
                    let value = match self.read_command_or_argument_token() {
                        Ok(value) => value,
                        Err(e) => return Err(e),
                    };
                    redirs.input.push_front(InputRedir { filename: value.value });
                    assert(redirs@ =~= with_redir(acc, Kind::Minor, value@.value));
                },
                Kind::Major => {
                    let value = match self.read_command_or_argument_token() {
                        Ok(value) => value,
                        Err(e) => return Err(e),
                    };
                    redirs.output.push_front(OutputRedir { filename: value.value, overwrite: true });
                    assert(redirs@ =~= with_redir(acc, Kind::Major, value@.value));
                },
                Kind::MajorMajor => {
                    let value = match self.read_command_or_argument_token() {
                        Ok(value) => value,
                        Err(e) => return Err(e),
                    };
                    redirs.output.push_front(
                        OutputRedir { filename: value.value, overwrite: false },
                    );
                    assert(redirs@ =~= with_redir(acc, Kind::MajorMajor, value@.value));
                },
                _ => {
                    self.unread(token);
                    assert(self.left() =~= before);
                    return Ok(redirs);
                },
            }
            assert(self.left() =~= before.skip(2));
        }
    }

    /// Returns the next CommandOrArgument token or an error if
    /// we cannot find a token of this type in the input.
    fn read_command_or_argument_token(&mut self) -> (r: Result<Token, Error>)
        ensures
            match r {
                Ok(token) => old(self).left().len() > 0 && token@ == old(self).left()[0]
                    && token@.kind == Kind::CommandOrArgument && final(self).left() == old(
                    self,
                ).left().skip(1),
                Err(e) => if old(self).left().len() == 0 {
                    e@ == err_end()
                } else {
                    old(self).left()[0].kind != Kind::CommandOrArgument && e@ == err_word()
                },
            },
            final(self).left().len() <= old(self).left().len(),
    {
        let token = match self.read() {
            Ok(token) => token,
            Err(e) => return Err(e),
        };
        match token.kind {
            Kind::CommandOrArgument => Ok(token),
            _ => Err(Error::new("expected CommandOrArgument token")),
        }
    }

    /// Reads the next token in the input stream.
    fn read(&mut self) -> (r: Result<Token, Error>)
        ensures
            match r {
                Ok(token) => old(self).left().len() > 0 && token@ == old(self).left()[0]
                    && final(self).left() == old(self).left().skip(1),
                Err(e) => old(self).left().len() == 0 && e@ == err_end() && final(self).left()
                    == old(self).left(),
            },
    {
        match self.tokens.pop_front() {
            None => Err(Error::new("unexpected end of input")),
            Some(token) => {
                Ok(token)
            },
        }
    }

    /// Unreads a token putting it back into the input stream.
    fn unread(&mut self, token: Token)
        ensures
            final(self).left() == seq![token@] + old(self).left(),
    {
        self.tokens.push_front(token);
    }
}

} // verus!
