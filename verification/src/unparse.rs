//! Tokens for a syntax tree: for every well-formed syntax tree there is a
//! line of tokens that the parser reads as that tree.

use crate::lexer::{bare, word, Kind, TokenView};
use crate::parser::{
    closes, command_ok, complete_ok, is_redir, lemma_parse_well_formed, no_redirs, parse_spec,
    pipeline_ok, spec_command, spec_complete_command, spec_pipeline, spec_redirs,
    spec_simple_command, spec_subshell, spec_words, with_redir, CommandView, CompleteCommandView,
    InputRedirView, OutputRedirView, PipelineView, RedirectListView,
};
use vstd::prelude::*;

verus! {

/// The tokens of the words from the one at `from` on.
pub open spec fn tokens_of_words(words: Seq<Seq<char>>, from: int) -> Seq<TokenView>
    decreases words.len() - from,
{
    if from < 0 || from >= words.len() {
        Seq::empty()
    } else {
        seq![word(words[from])] + tokens_of_words(words, from + 1)
    }
}

/// The tokens of the first `n` input redirections, the last of them
/// first: the parser puts each redirection that it reads before those
/// that it has read.
pub open spec fn tokens_of_inputs(inputs: Seq<InputRedirView>, n: int) -> Seq<TokenView>
    decreases n,
{
    if n <= 0 || n > inputs.len() {
        Seq::empty()
    } else {
        seq![bare(Kind::Minor), word(inputs[n - 1].filename)] + tokens_of_inputs(inputs, n - 1)
    }
}

/// The operator of an output redirection: `>` to overwrite, `>>` to add.
pub open spec fn output_kind(overwrite: bool) -> Kind {
    if overwrite {
        Kind::Major
    } else {
        Kind::MajorMajor
    }
}

/// The tokens of the first `n` output redirections, the last of them
/// first.
pub open spec fn tokens_of_outputs(outputs: Seq<OutputRedirView>, n: int) -> Seq<TokenView>
    decreases n,
{
    if n <= 0 || n > outputs.len() {
        Seq::empty()
    } else {
        seq![bare(output_kind(outputs[n - 1].overwrite)), word(outputs[n - 1].filename)]
            + tokens_of_outputs(outputs, n - 1)
    }
}

/// The tokens of all the input redirections.
pub open spec fn tokens_of_input(redirs: RedirectListView) -> Seq<TokenView> {
    tokens_of_inputs(redirs.input, redirs.input.len() as int)
}

/// The tokens of all the output redirections.
pub open spec fn tokens_of_output(redirs: RedirectListView) -> Seq<TokenView> {
    tokens_of_outputs(redirs.output, redirs.output.len() as int)
}

/// The tokens of redirections: those of the input, then those of the
/// output.
pub open spec fn tokens_of_redirs(redirs: RedirectListView) -> Seq<TokenView> {
    tokens_of_input(redirs) + tokens_of_output(redirs)
}

/// The tokens of a command.
pub open spec fn tokens_of_command(command: CommandView) -> Seq<TokenView>
    decreases command, 0nat,
{
    match command {
        CommandView::SimpleCommand(sc) => tokens_of_words(sc.arguments, 0) + tokens_of_redirs(
            sc.redirs,
        ),
        CommandView::Subshell(ss) => seq![bare(Kind::OpenBrace)] + tokens_of_complete(
            ss.complete_command,
        ) + seq![bare(Kind::CloseBrace)] + tokens_of_redirs(ss.redirs),
    }
}

/// The tokens of the commands from the one at `from` on, with a pipe
/// between neighbours.
pub open spec fn tokens_of_commands(commands: Seq<CommandView>, from: int) -> Seq<TokenView>
    decreases commands, commands.len() - from,
{
    if from < 0 || from >= commands.len() {
        Seq::empty()
    } else if from == commands.len() - 1 {
        tokens_of_command(commands[from])
    } else {
        tokens_of_command(commands[from]) + seq![bare(Kind::Pipe)] + tokens_of_commands(
            commands,
            from + 1,
        )
    }
}

/// The tokens of a pipeline, without what ends it.
pub open spec fn tokens_of_pipeline(pipeline: PipelineView) -> Seq<TokenView>
    decreases pipeline, 0nat,
{
    tokens_of_commands(pipeline.commands, 0)
}

/// The token that ends a pipeline before another one: `;` after a
/// synchronous pipeline, `&` after any other.
pub open spec fn separator(sync: bool) -> TokenView {
    if sync {
        bare(Kind::Semicolon)
    } else {
        bare(Kind::Ampersand)
    }
}

/// What ends the last pipeline: nothing if it is synchronous, else `&`.
pub open spec fn ending(sync: bool) -> Seq<TokenView> {
    if sync {
        Seq::empty()
    } else {
        seq![bare(Kind::Ampersand)]
    }
}

/// The tokens of the pipelines from the one at `from` on, each with what
/// ends it.
pub open spec fn tokens_of_pipelines(pipelines: Seq<PipelineView>, from: int) -> Seq<TokenView>
    decreases pipelines, pipelines.len() - from,
{
    if from < 0 || from >= pipelines.len() {
        Seq::empty()
    } else if from == pipelines.len() - 1 {
        tokens_of_pipeline(pipelines[from]) + ending(pipelines[from].sync)
    } else {
        tokens_of_pipeline(pipelines[from]) + seq![separator(pipelines[from].sync)]
            + tokens_of_pipelines(pipelines, from + 1)
    }
}

/// The tokens of a complete command, without the end of the line.
pub open spec fn tokens_of_complete(cc: CompleteCommandView) -> Seq<TokenView>
    decreases cc, 0nat,
{
    tokens_of_pipelines(cc.pipelines, 0)
}

/// A token after which neither the words nor the redirections of a
/// command go on.
pub open spec fn ends_command(kind: Kind) -> bool {
    kind != Kind::CommandOrArgument && !is_redir(kind)
}

/// The tokens of words parse to the words.
pub proof fn lemma_parse_words(
    words: Seq<Seq<char>>,
    from: int,
    rest: Seq<TokenView>,
    acc: Seq<Seq<char>>,
)
    requires
        0 <= from <= words.len(),
        rest.len() > 0,
        rest[0].kind != Kind::CommandOrArgument,
    ensures
        spec_words(tokens_of_words(words, from) + rest, acc) == Ok::<
            (Seq<Seq<char>>, Seq<TokenView>),
            Seq<char>,
        >((acc + words.skip(from), rest)),
    decreases words.len() - from,
{
    let ts = tokens_of_words(words, from) + rest;
    if from == words.len() {
        assert(ts =~= rest);
        assert(acc + words.skip(from) =~= acc);
    } else {
        assert(ts[0] == word(words[from]));
        assert(ts.skip(1) =~= tokens_of_words(words, from + 1) + rest);
        lemma_parse_words(words, from + 1, rest, acc.push(words[from]));
        assert(acc.push(words[from]) + words.skip(from + 1) =~= acc + words.skip(from));
    }
}

/// The tokens of input redirections are read as these redirections,
/// which come before those read earlier.
pub proof fn lemma_parse_inputs(
    inputs: Seq<InputRedirView>,
    n: int,
    rest: Seq<TokenView>,
    acc: RedirectListView,
)
    requires
        0 <= n <= inputs.len(),
    ensures
        spec_redirs(tokens_of_inputs(inputs, n) + rest, acc) == spec_redirs(
            rest,
            RedirectListView { input: inputs.take(n) + acc.input, output: acc.output },
        ),
    decreases n,
{
    let ts = tokens_of_inputs(inputs, n) + rest;
    if n == 0 {
        assert(ts =~= rest);
        assert(inputs.take(0) + acc.input =~= acc.input);
        assert(acc =~= RedirectListView { input: inputs.take(n) + acc.input, output: acc.output });
    } else {
        let next = with_redir(acc, Kind::Minor, inputs[n - 1].filename);
        assert(ts[0] == bare(Kind::Minor));
        assert(ts[1] == word(inputs[n - 1].filename));
        assert(ts.skip(2) =~= tokens_of_inputs(inputs, n - 1) + rest);
        assert(spec_redirs(ts, acc) == spec_redirs(ts.skip(2), next));
        lemma_parse_inputs(inputs, n - 1, rest, next);
        assert(inputs.take(n - 1) + next.input =~= inputs.take(n) + acc.input);
    }
}

/// The tokens of output redirections are read as these redirections,
/// which come before those read earlier.
pub proof fn lemma_parse_outputs(
    outputs: Seq<OutputRedirView>,
    n: int,
    rest: Seq<TokenView>,
    acc: RedirectListView,
)
    requires
        0 <= n <= outputs.len(),
    ensures
        spec_redirs(tokens_of_outputs(outputs, n) + rest, acc) == spec_redirs(
            rest,
            RedirectListView { input: acc.input, output: outputs.take(n) + acc.output },
        ),
    decreases n,
{
    let ts = tokens_of_outputs(outputs, n) + rest;
    if n == 0 {
        assert(ts =~= rest);
        assert(outputs.take(0) + acc.output =~= acc.output);
        assert(acc =~= RedirectListView { input: acc.input, output: outputs.take(n) + acc.output });
    } else {
        let op = output_kind(outputs[n - 1].overwrite);
        let next = with_redir(acc, op, outputs[n - 1].filename);
        assert(ts[0] == bare(op));
        assert(ts[1] == word(outputs[n - 1].filename));
        assert(ts.skip(2) =~= tokens_of_outputs(outputs, n - 1) + rest);
        assert(spec_redirs(ts, acc) == spec_redirs(ts.skip(2), next));
        lemma_parse_outputs(outputs, n - 1, rest, next);
        assert(next.output[0] == outputs[n - 1]);
        assert(outputs.take(n - 1) + next.output =~= outputs.take(n) + acc.output);
    }
}

/// The tokens of redirections begin with the operator of a redirection,
/// if there are any.
pub proof fn lemma_redirs_begin(redirs: RedirectListView)
    ensures
        tokens_of_redirs(redirs).len() == 0 || is_redir(tokens_of_redirs(redirs)[0].kind),
{
    let inputs = tokens_of_inputs(redirs.input, redirs.input.len() as int);
    let outputs = tokens_of_outputs(redirs.output, redirs.output.len() as int);
    if redirs.input.len() > 0 {
        assert(inputs[0] == bare(Kind::Minor));
        assert(tokens_of_redirs(redirs)[0] == inputs[0]);
    } else if redirs.output.len() > 0 {
        assert(inputs =~= Seq::<TokenView>::empty());
        assert(outputs[0].kind == output_kind(redirs.output[redirs.output.len() - 1].overwrite));
        assert(tokens_of_redirs(redirs) =~= outputs);
    }
}

/// The tokens of redirections parse to the redirections.
pub proof fn lemma_parse_redirs(redirs: RedirectListView, rest: Seq<TokenView>)
    requires
        rest.len() > 0,
        !is_redir(rest[0].kind),
    ensures
        spec_redirs(tokens_of_redirs(redirs) + rest, no_redirs()) == Ok::<
            (RedirectListView, Seq<TokenView>),
            Seq<char>,
        >((redirs, rest)),
{
    let n = redirs.input.len() as int;
    let m = redirs.output.len() as int;
    let after = tokens_of_outputs(redirs.output, m) + rest;
    assert(tokens_of_redirs(redirs) + rest =~= tokens_of_inputs(redirs.input, n) + after);
    lemma_parse_inputs(redirs.input, n, after, no_redirs());
    let mid = RedirectListView { input: redirs.input.take(n) + no_redirs().input, output: no_redirs().output };
    lemma_parse_outputs(redirs.output, m, rest, mid);
    let last = RedirectListView { input: mid.input, output: redirs.output.take(m) + mid.output };
    assert(last.input =~= redirs.input);
    assert(last.output =~= redirs.output);
    assert(last =~= redirs);
}

/// The first token of a well-formed command is a word or an opening
/// parenthesis.
pub proof fn lemma_command_begins(command: CommandView)
    requires
        command_ok(command),
    ensures
        tokens_of_command(command).len() > 0,
        tokens_of_command(command)[0].kind == Kind::CommandOrArgument || tokens_of_command(
            command,
        )[0].kind == Kind::OpenBrace,
{
    match command {
        CommandView::SimpleCommand(sc) => {
            assert(tokens_of_words(sc.arguments, 0)[0] == word(sc.arguments[0]));
        },
        CommandView::Subshell(ss) => {},
    }
}

/// The first token of well-formed pipelines is a word or an opening
/// parenthesis.
pub proof fn lemma_pipelines_begin(pipelines: Seq<PipelineView>, from: int)
    requires
        0 <= from < pipelines.len(),
        pipeline_ok(pipelines[from]),
    ensures
        tokens_of_pipelines(pipelines, from).len() > 0,
        tokens_of_pipelines(pipelines, from)[0].kind == Kind::CommandOrArgument
            || tokens_of_pipelines(pipelines, from)[0].kind == Kind::OpenBrace,
{
    let commands = pipelines[from].commands;
    lemma_command_begins(commands[0]);
    assert(tokens_of_commands(commands, 0)[0] == tokens_of_command(commands[0])[0]);
    assert(tokens_of_pipelines(pipelines, from)[0] == tokens_of_pipeline(pipelines[from])[0]);
}

/// The tokens of a well-formed command parse to the command.
pub proof fn lemma_parse_command(command: CommandView, rest: Seq<TokenView>)
    requires
        command_ok(command),
        rest.len() > 0,
        ends_command(rest[0].kind),
    ensures
        spec_command(tokens_of_command(command) + rest) == Ok::<
            (CommandView, Seq<TokenView>),
            Seq<char>,
        >((command, rest)),
    decreases command, 0nat,
{
    let ts = tokens_of_command(command) + rest;
    lemma_command_begins(command);
    assert(ts[0] == tokens_of_command(command)[0]);
    match command {
        CommandView::SimpleCommand(sc) => {
            let after = tokens_of_redirs(sc.redirs) + rest;
            assert(ts =~= tokens_of_words(sc.arguments, 0) + after);
            assert(after[0].kind != Kind::CommandOrArgument) by {
                lemma_redirs_begin(sc.redirs);
                if tokens_of_redirs(sc.redirs).len() > 0 {
                    assert(after[0] == tokens_of_redirs(sc.redirs)[0]);
                } else {
                    assert(after =~= rest);
                }
            }
            lemma_parse_words(sc.arguments, 0, after, Seq::empty());
            assert(Seq::<Seq<char>>::empty() + sc.arguments.skip(0) =~= sc.arguments);
            lemma_parse_redirs(sc.redirs, rest);
            assert(spec_simple_command(ts) == Ok::<(CommandView, Seq<TokenView>), Seq<char>>(
                (command, rest),
            ));
        },
        CommandView::Subshell(ss) => {
            let tail = seq![bare(Kind::CloseBrace)] + tokens_of_redirs(ss.redirs) + rest;
            assert(ts.skip(1) =~= tokens_of_complete(ss.complete_command) + tail);
            lemma_parse_pipelines(ss.complete_command.pipelines, 0, tail, Seq::empty());
            assert(Seq::<PipelineView>::empty() + ss.complete_command.pipelines.skip(0)
                =~= ss.complete_command.pipelines);
            assert(tail.skip(1) =~= tokens_of_redirs(ss.redirs) + rest);
            lemma_parse_redirs(ss.redirs, rest);
            assert(spec_subshell(ts.skip(1)) == Ok::<(CommandView, Seq<TokenView>), Seq<char>>(
                (command, rest),
            ));
        },
    }
}

/// The tokens of well-formed commands joined by pipes parse to the
/// commands.
pub proof fn lemma_parse_commands(
    commands: Seq<CommandView>,
    from: int,
    rest: Seq<TokenView>,
    acc: Seq<CommandView>,
)
    requires
        0 <= from < commands.len(),
        forall|i: int| from <= i < commands.len() ==> command_ok(#[trigger] commands[i]),
        rest.len() > 0,
        ends_command(rest[0].kind),
        rest[0].kind != Kind::Pipe,
    ensures
        spec_pipeline(tokens_of_commands(commands, from) + rest, acc) == Ok::<
            (PipelineView, Seq<TokenView>),
            Seq<char>,
        >((PipelineView { commands: acc + commands.skip(from), sync: false }, rest)),
    decreases commands, commands.len() - from,
{
    let ts = tokens_of_commands(commands, from) + rest;
    if from == commands.len() - 1 {
        lemma_parse_command(commands[from], rest);
        assert(acc.push(commands[from]) =~= acc + commands.skip(from));
    } else {
        let tail = seq![bare(Kind::Pipe)] + tokens_of_commands(commands, from + 1) + rest;
        assert(ts =~= tokens_of_command(commands[from]) + tail);
        lemma_parse_command(commands[from], tail);
        assert(tail.skip(1) =~= tokens_of_commands(commands, from + 1) + rest);
        lemma_parse_commands(commands, from + 1, rest, acc.push(commands[from]));
        assert(acc.push(commands[from]) + commands.skip(from + 1) =~= acc + commands.skip(from));
    }
}

/// The tokens of well-formed pipelines, each with what ends it, parse to
/// the pipelines.
pub proof fn lemma_parse_pipelines(
    pipelines: Seq<PipelineView>,
    from: int,
    rest: Seq<TokenView>,
    acc: Seq<PipelineView>,
)
    requires
        0 <= from < pipelines.len(),
        forall|i: int| from <= i < pipelines.len() ==> pipeline_ok(#[trigger] pipelines[i]),
        rest.len() > 0,
        closes(rest[0].kind),
    ensures
        spec_complete_command(tokens_of_pipelines(pipelines, from) + rest, acc) == Ok::<
            (CompleteCommandView, Seq<TokenView>),
            Seq<char>,
        >((CompleteCommandView { pipelines: acc + pipelines.skip(from) }, rest)),
    decreases pipelines, pipelines.len() - from,
{
    let ts = tokens_of_pipelines(pipelines, from) + rest;
    let pipeline = pipelines[from];
    let none = Seq::<CommandView>::empty();
    assert(none + pipeline.commands.skip(0) =~= pipeline.commands);
    assert(pipeline == PipelineView { commands: pipeline.commands, sync: pipeline.sync });
    if from == pipelines.len() - 1 {
        let tail = ending(pipeline.sync) + rest;
        assert(ts =~= tokens_of_pipeline(pipeline) + tail);
        lemma_parse_commands(pipeline.commands, 0, tail, none);
        if pipeline.sync {
            assert(tail =~= rest);
        } else {
            assert(tail[0] == bare(Kind::Ampersand));
            assert(tail.skip(1) =~= rest);
        }
        assert(acc.push(pipeline) =~= acc + pipelines.skip(from));
    } else {
        let more = tokens_of_pipelines(pipelines, from + 1) + rest;
        let tail = seq![separator(pipeline.sync)] + more;
        assert(ts =~= tokens_of_pipeline(pipeline) + tail);
        lemma_parse_commands(pipeline.commands, 0, tail, none);
        assert(tail.skip(1) =~= more);
        lemma_pipelines_begin(pipelines, from + 1);
        assert(more[0] == tokens_of_pipelines(pipelines, from + 1)[0]);
        lemma_parse_pipelines(pipelines, from + 1, rest, acc.push(pipeline));
        assert(acc.push(pipeline) + pipelines.skip(from + 1) =~= acc + pipelines.skip(from));
    }
}

/// The tokens of a well-formed complete command, with the end of the
/// line after them, parse to the complete command.
pub proof fn lemma_parse_tokens(cc: CompleteCommandView)
    requires
        complete_ok(cc),
    ensures
        parse_spec(tokens_of_complete(cc).push(bare(Kind::EndOfLine))) == Ok::<
            CompleteCommandView,
            Seq<char>,
        >(cc),
{
    let rest = seq![bare(Kind::EndOfLine)];
    assert(tokens_of_complete(cc).push(bare(Kind::EndOfLine)) =~= tokens_of_pipelines(
        cc.pipelines,
        0,
    ) + rest);
    lemma_parse_pipelines(cc.pipelines, 0, rest, Seq::empty());
    assert(Seq::<PipelineView>::empty() + cc.pipelines.skip(0) =~= cc.pipelines);
}

/// The syntax trees that the parser yields are the well-formed ones, all
/// of them: a syntax tree is the parse of some line of tokens if and only
/// if each of its simple commands has a word, each of its pipelines a
/// command and each of its complete commands a pipeline.
pub proof fn lemma_parser_range(cc: CompleteCommandView)
    ensures
        complete_ok(cc) <==> exists|ts: Seq<TokenView>|
            parse_spec(ts) == Ok::<CompleteCommandView, Seq<char>>(cc),
{
    if complete_ok(cc) {
        lemma_parse_tokens(cc);
    }
    if exists|ts: Seq<TokenView>| parse_spec(ts) == Ok::<CompleteCommandView, Seq<char>>(cc) {
        let ts = choose|ts: Seq<TokenView>|
            parse_spec(ts) == Ok::<CompleteCommandView, Seq<char>>(cc);
        lemma_parse_well_formed(ts);
    }
}

} // verus!
