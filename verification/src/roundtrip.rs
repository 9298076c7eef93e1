//! What is written by the serializer reads back as the same syntax tree.

use crate::lexer::{
    bare, flush, is_blank, is_word_char, scan_from, scan_spec, word, Kind, TokenView,
};
use crate::parser::{
    command_ok, complete_ok, parse_spec, pipeline_ok, CommandView, CompleteCommandView,
    PipelineView, RedirectListView,
};
use crate::serializer::{
    command_writable, join_commands, join_pipelines, join_words, pipeline_writable,
    text_of_command, text_of_complete, text_of_output, text_of_pipeline, text_of_redirs, writable,
};
use crate::unparse::{
    ending, lemma_parse_tokens, output_kind, separator, tokens_of_command, tokens_of_commands,
    tokens_of_complete, tokens_of_input, tokens_of_inputs, tokens_of_output, tokens_of_outputs,
    tokens_of_pipeline, tokens_of_pipelines, tokens_of_redirs, tokens_of_words,
};
use vstd::prelude::*;

verus! {

/// A word that can be written as it is: it has a character, and none of
/// its characters is a blank or belongs to an operator.
pub open spec fn plain_word(w: Seq<char>) -> bool {
    &&& w.len() > 0
    &&& forall|j: int| 0 <= j < w.len() ==> is_word_char(#[trigger] w[j])
}

/// Redirections that can be written as they are: at most one of each
/// direction, to files with plain names.
pub open spec fn plain_redirs(redirs: RedirectListView) -> bool {
    &&& redirs.input.len() <= 1
    &&& redirs.output.len() <= 1
    &&& forall|i: int| 0 <= i < redirs.input.len() ==> plain_word((#[trigger] redirs.input[i]).filename)
    &&& forall|i: int|
        0 <= i < redirs.output.len() ==> plain_word((#[trigger] redirs.output[i]).filename)
}

/// A command whose text says all of it: plain words, at least one, and
/// plain redirections; or a subshell of that kind.
pub open spec fn plain_command(command: CommandView) -> bool
    decreases command,
{
    match command {
        CommandView::SimpleCommand(sc) => {
            &&& sc.arguments.len() >= 1
            &&& forall|i: int| 0 <= i < sc.arguments.len() ==> plain_word(#[trigger] sc.arguments[i])
            &&& plain_redirs(sc.redirs)
        },
        CommandView::Subshell(ss) => plain_complete(ss.complete_command) && plain_redirs(ss.redirs),
    }
}

/// A pipeline whose text says all of it: it is synchronous and has at
/// least one command, each of them plain.
pub open spec fn plain_pipeline(pipeline: PipelineView) -> bool
    decreases pipeline,
{
    &&& pipeline.sync
    &&& pipeline.commands.len() >= 1
    &&& forall|i: int|
        0 <= i < pipeline.commands.len() ==> plain_command(#[trigger] pipeline.commands[i])
}

/// A complete command whose text says all of it: at least one pipeline,
/// each of them plain.
pub open spec fn plain_complete(cc: CompleteCommandView) -> bool
    decreases cc,
{
    &&& cc.pipelines.len() >= 1
    &&& forall|i: int| 0 <= i < cc.pipelines.len() ==> plain_pipeline(#[trigger] cc.pipelines[i])
}

/// A text before which a word ends: it is empty, or begins with a blank
/// or with a character of an operator.
pub open spec fn boundary(text: Seq<char>) -> bool {
    text.len() == 0 || !is_word_char(text[0])
}

/// Before a boundary the open word is closed, and the scanner goes on as
/// if it had just begun.
pub proof fn lemma_scan_flush(text: Seq<char>, buff: Seq<char>)
    requires
        boundary(text),
    ensures
        scan_from(text, buff) == flush(buff) + scan_from(text, Seq::empty()),
{
    let none = Seq::<char>::empty();
    if text.len() == 0 {
        assert(scan_from(text, buff) =~= flush(buff) + scan_from(text, none));
    } else if is_blank(text[0]) {
        assert(scan_from(text, buff) =~= flush(buff) + scan_from(text, none));
    } else if text[0] == '>' && text.len() >= 2 && text[1] == '>' {
        assert(scan_from(text, buff) =~= flush(buff) + scan_from(text, none));
    } else {
        assert(scan_from(text, buff) =~= flush(buff) + scan_from(text, none));
    }
}

/// The characters of a word are collected one by one.
pub proof fn lemma_scan_collects(w: Seq<char>, text: Seq<char>, buff: Seq<char>)
    requires
        forall|j: int| 0 <= j < w.len() ==> is_word_char(#[trigger] w[j]),
    ensures
        scan_from(w + text, buff) == scan_from(text, buff + w),
    decreases w.len(),
{
    if w.len() == 0 {
        assert(w + text =~= text);
        assert(buff + w =~= buff);
    } else {
        let all = w + text;
        assert(all[0] == w[0]);
        assert(is_word_char(w[0]));
        assert(all.skip(1) =~= w.skip(1) + text);
        lemma_scan_collects(w.skip(1), text, buff.push(w[0]));
        assert(buff.push(w[0]) + w.skip(1) =~= buff + w);
    }
}

/// A plain word before a boundary is scanned to its token.
pub proof fn lemma_scan_word(w: Seq<char>, text: Seq<char>)
    requires
        plain_word(w),
        boundary(text),
    ensures
        scan_from(w + text, Seq::empty()) == seq![word(w)] + scan_from(text, Seq::empty()),
{
    lemma_scan_collects(w, text, Seq::empty());
    assert(Seq::<char>::empty() + w =~= w);
    lemma_scan_flush(text, w);
}

/// Plain words with single spaces between them are scanned to their
/// tokens.
pub proof fn lemma_scan_words(words: Seq<Seq<char>>, from: int, text: Seq<char>)
    requires
        0 <= from <= words.len(),
        forall|i: int| 0 <= i < words.len() ==> plain_word(#[trigger] words[i]),
        boundary(text),
    ensures
        scan_from(join_words(words, from) + text, Seq::empty()) == tokens_of_words(words, from)
            + scan_from(text, Seq::empty()),
    decreases words.len() - from,
{
    let none = Seq::<char>::empty();
    if from == words.len() {
        assert(join_words(words, from) + text =~= text);
        assert(tokens_of_words(words, from) + scan_from(text, none) =~= scan_from(text, none));
    } else if from == words.len() - 1 {
        lemma_scan_word(words[from], text);
        assert(tokens_of_words(words, from + 1) =~= Seq::<TokenView>::empty());
        assert(tokens_of_words(words, from) =~= seq![word(words[from])]);
    } else {
        let more = join_words(words, from + 1) + text;
        let tail = seq![' '] + more;
        assert(join_words(words, from) + text =~= words[from] + tail);
        lemma_scan_word(words[from], tail);
        assert(tail.skip(1) =~= more);
        assert(scan_from(tail, none) =~= scan_from(more, none));
        lemma_scan_words(words, from + 1, text);
        assert(seq![word(words[from])] + (tokens_of_words(words, from + 1) + scan_from(text, none))
            =~= tokens_of_words(words, from) + scan_from(text, none));
    }
}

/// A plain output redirection is scanned to its tokens.
pub proof fn lemma_scan_output(redirs: RedirectListView, text: Seq<char>)
    requires
        plain_redirs(redirs),
        boundary(text),
    ensures
        scan_from(text_of_output(redirs) + text, Seq::empty()) == tokens_of_output(redirs)
            + scan_from(text, Seq::empty()),
{
    let none = Seq::<char>::empty();
    let all = text_of_output(redirs) + text;
    if redirs.output.len() > 0 {
        let name = redirs.output[0].filename;
        assert(plain_word(name));
        assert(is_word_char(name[0]));
        lemma_scan_word(name, text);
        assert(tokens_of_outputs(redirs.output, 0) =~= Seq::<TokenView>::empty());
        assert(tokens_of_output(redirs) =~= seq![
            bare(output_kind(redirs.output[0].overwrite)),
            word(name),
        ]);
        if redirs.output[0].overwrite {
            assert(all[0] == '>');
            assert(all[1] == name[0]);
            assert(all.skip(1) =~= name + text);
            assert(scan_from(all, none) =~= seq![bare(Kind::Major)] + scan_from(name + text, none));
            assert(seq![bare(Kind::Major)] + (seq![word(name)] + scan_from(text, none))
                =~= tokens_of_output(redirs) + scan_from(text, none));
        } else {
            assert(all[0] == '>');
            assert(all[1] == '>');
            assert(all.skip(2) =~= name + text);
            assert(scan_from(all, none) =~= seq![bare(Kind::MajorMajor)] + scan_from(
                name + text,
                none,
            ));
            assert(seq![bare(Kind::MajorMajor)] + (seq![word(name)] + scan_from(text, none))
                =~= tokens_of_output(redirs) + scan_from(text, none));
        }
    } else {
        assert(all =~= text);
        assert(tokens_of_output(redirs) + scan_from(text, none) =~= scan_from(text, none));
    }
}

/// Plain redirections are scanned to their tokens.
pub proof fn lemma_scan_redirs(redirs: RedirectListView, text: Seq<char>)
    requires
        plain_redirs(redirs),
        boundary(text),
    ensures
        scan_from(text_of_redirs(redirs) + text, Seq::empty()) == tokens_of_redirs(redirs)
            + scan_from(text, Seq::empty()),
        boundary(text_of_redirs(redirs) + text),
{
    let none = Seq::<char>::empty();
    let all = text_of_redirs(redirs) + text;
    let after = text_of_output(redirs) + text;
    lemma_scan_output(redirs, text);
    assert(boundary(after)) by {
        if redirs.output.len() > 0 {
            assert(after[0] == '>');
        } else {
            assert(after =~= text);
        }
    }
    if redirs.input.len() > 0 {
        let name = redirs.input[0].filename;
        assert(plain_word(name));
        assert(tokens_of_inputs(redirs.input, 0) =~= Seq::<TokenView>::empty());
        assert(tokens_of_input(redirs) =~= seq![bare(Kind::Minor), word(name)]);
        assert(all[0] == '<');
        assert(all.skip(1) =~= name + after);
        lemma_scan_word(name, after);
        assert(scan_from(all, none) =~= seq![bare(Kind::Minor)] + scan_from(name + after, none));
        assert(seq![bare(Kind::Minor)] + (seq![word(name)] + (tokens_of_output(redirs) + scan_from(
            text,
            none,
        ))) =~= tokens_of_redirs(redirs) + scan_from(text, none));
    } else {
        assert(all =~= after);
        assert(tokens_of_input(redirs) =~= Seq::<TokenView>::empty());
        assert(tokens_of_redirs(redirs) =~= tokens_of_output(redirs));
    }
}

/// A plain command before a boundary is scanned to its tokens.
pub proof fn lemma_scan_command(command: CommandView, text: Seq<char>)
    requires
        plain_command(command),
        boundary(text),
    ensures
        scan_from(text_of_command(command) + text, Seq::empty()) == tokens_of_command(command)
            + scan_from(text, Seq::empty()),
    decreases command, 0nat,
{
    let none = Seq::<char>::empty();
    let all = text_of_command(command) + text;
    match command {
        CommandView::SimpleCommand(sc) => {
            let after = text_of_redirs(sc.redirs) + text;
            lemma_scan_redirs(sc.redirs, text);
            assert(all =~= join_words(sc.arguments, 0) + after);
            lemma_scan_words(sc.arguments, 0, after);
            assert(tokens_of_words(sc.arguments, 0) + (tokens_of_redirs(sc.redirs) + scan_from(
                text,
                none,
            )) =~= tokens_of_command(command) + scan_from(text, none));
        },
        CommandView::Subshell(ss) => {
            let after = text_of_redirs(ss.redirs) + text;
            let tail = seq![')'] + after;
            let inner = text_of_complete(ss.complete_command) + tail;
            lemma_scan_redirs(ss.redirs, text);
            assert(all[0] == '(');
            assert(all.skip(1) =~= inner);
            assert(scan_from(all, none) =~= seq![bare(Kind::OpenBrace)] + scan_from(inner, none));
            lemma_scan_pipelines(ss.complete_command.pipelines, 0, tail);
            assert(tail.skip(1) =~= after);
            assert(scan_from(tail, none) =~= seq![bare(Kind::CloseBrace)] + scan_from(after, none));
            assert(seq![bare(Kind::OpenBrace)] + (tokens_of_complete(ss.complete_command) + (seq![
                bare(Kind::CloseBrace),
            ] + (tokens_of_redirs(ss.redirs) + scan_from(text, none)))) =~= tokens_of_command(
                command,
            ) + scan_from(text, none));
        },
    }
}

/// Plain commands joined by pipes are scanned to their tokens.
pub proof fn lemma_scan_commands(commands: Seq<CommandView>, from: int, text: Seq<char>)
    requires
        0 <= from < commands.len(),
        forall|i: int| from <= i < commands.len() ==> plain_command(#[trigger] commands[i]),
        boundary(text),
    ensures
        scan_from(join_commands(commands, from) + text, Seq::empty()) == tokens_of_commands(
            commands,
            from,
        ) + scan_from(text, Seq::empty()),
    decreases commands, commands.len() - from,
{
    let none = Seq::<char>::empty();
    if from == commands.len() - 1 {
        lemma_scan_command(commands[from], text);
    } else {
        let more = join_commands(commands, from + 1) + text;
        let tail = seq!['|'] + more;
        assert(join_commands(commands, from) + text =~= text_of_command(commands[from]) + tail);
        lemma_scan_command(commands[from], tail);
        assert(tail.skip(1) =~= more);
        assert(scan_from(tail, none) =~= seq![bare(Kind::Pipe)] + scan_from(more, none));
        lemma_scan_commands(commands, from + 1, text);
        assert(tokens_of_command(commands[from]) + (seq![bare(Kind::Pipe)] + (tokens_of_commands(
            commands,
            from + 1,
        ) + scan_from(text, none))) =~= tokens_of_commands(commands, from) + scan_from(text, none));
    }
}

/// Plain pipelines joined by semicolons are scanned to their tokens.
pub proof fn lemma_scan_pipelines(pipelines: Seq<PipelineView>, from: int, text: Seq<char>)
    requires
        0 <= from < pipelines.len(),
        forall|i: int| from <= i < pipelines.len() ==> plain_pipeline(#[trigger] pipelines[i]),
        boundary(text),
    ensures
        scan_from(join_pipelines(pipelines, from) + text, Seq::empty()) == tokens_of_pipelines(
            pipelines,
            from,
        ) + scan_from(text, Seq::empty()),
    decreases pipelines, pipelines.len() - from,
{
    let none = Seq::<char>::empty();
    let pipeline = pipelines[from];
    assert(plain_pipeline(pipeline));
    assert(forall|i: int| 0 <= i < pipeline.commands.len() ==> plain_command(
        #[trigger] pipeline.commands[i],
    ));
    if from == pipelines.len() - 1 {
        lemma_scan_commands(pipeline.commands, 0, text);
        assert(ending(pipeline.sync) =~= Seq::<TokenView>::empty());
        assert(tokens_of_pipelines(pipelines, from) =~= tokens_of_pipeline(pipeline));
        assert(join_pipelines(pipelines, from) == text_of_pipeline(pipeline));
    } else {
        assert(separator(pipeline.sync) == bare(Kind::Semicolon));
        let more = join_pipelines(pipelines, from + 1) + text;
        let tail = seq![';'] + more;
        assert(join_pipelines(pipelines, from) + text =~= text_of_pipeline(pipeline) + tail);
        lemma_scan_commands(pipeline.commands, 0, tail);
        assert(tail.skip(1) =~= more);
        assert(scan_from(tail, none) =~= seq![bare(Kind::Semicolon)] + scan_from(more, none));
        lemma_scan_pipelines(pipelines, from + 1, text);
        assert(tokens_of_pipeline(pipeline) + (seq![bare(Kind::Semicolon)] + (tokens_of_pipelines(
            pipelines,
            from + 1,
        ) + scan_from(text, none))) =~= tokens_of_pipelines(pipelines, from) + scan_from(
            text,
            none,
        ));
    }
}

/// The text of a plain complete command is scanned to its tokens and the
/// end of the line.
pub proof fn lemma_scan_text(cc: CompleteCommandView)
    requires
        plain_complete(cc),
    ensures
        scan_spec(text_of_complete(cc)) == tokens_of_complete(cc).push(bare(Kind::EndOfLine)),
{
    let none = Seq::<char>::empty();
    lemma_scan_pipelines(cc.pipelines, 0, none);
    assert(text_of_complete(cc) + none =~= text_of_complete(cc));
    assert(tokens_of_complete(cc) + scan_from(none, none) =~= tokens_of_complete(cc).push(
        bare(Kind::EndOfLine),
    ));
}

/// A plain complete command can be written.
pub proof fn lemma_plain_writable(cc: CompleteCommandView)
    requires
        plain_complete(cc),
    ensures
        writable(cc),
    decreases cc,
{
    assert forall|i: int| 0 <= i < cc.pipelines.len() implies pipeline_writable(
        #[trigger] cc.pipelines[i],
    ) by {
        let pipeline = cc.pipelines[i];
        assert(plain_pipeline(pipeline));
        assert forall|j: int| 0 <= j < pipeline.commands.len() implies command_writable(
            #[trigger] pipeline.commands[j],
        ) by {
            assert(plain_command(pipeline.commands[j]));
            match pipeline.commands[j] {
                CommandView::SimpleCommand(sc) => {},
                CommandView::Subshell(ss) => {
                    lemma_plain_writable(ss.complete_command);
                },
            }
        }
    }
}

/// A plain complete command is well formed.
pub proof fn lemma_plain_ok(cc: CompleteCommandView)
    requires
        plain_complete(cc),
    ensures
        complete_ok(cc),
    decreases cc,
{
    assert forall|i: int| 0 <= i < cc.pipelines.len() implies pipeline_ok(
        #[trigger] cc.pipelines[i],
    ) by {
        let pipeline = cc.pipelines[i];
        assert(plain_pipeline(pipeline));
        assert forall|j: int| 0 <= j < pipeline.commands.len() implies command_ok(
            #[trigger] pipeline.commands[j],
        ) by {
            assert(plain_command(pipeline.commands[j]));
            match pipeline.commands[j] {
                CommandView::SimpleCommand(sc) => {},
                CommandView::Subshell(ss) => {
                    lemma_plain_ok(ss.complete_command);
                },
            }
        }
    }
}

/// Writing a syntax tree and reading the text again gives the tree back.
///
/// This holds of every complete command that is plain: its words and file
/// names are not empty and hold neither a blank nor a character of an
/// operator; every command has a word; every pipeline has a command and
/// is synchronous; every complete command, that of a subshell too, has a
/// pipeline; and no command has two redirections of one direction. Such a
/// complete command can be written, the scanner turns its text into its
/// tokens, and the parser turns those into the complete command itself.
pub proof fn lemma_round_trip(cc: CompleteCommandView)
    requires
        plain_complete(cc),
    ensures
        writable(cc),
        parse_spec(scan_spec(text_of_complete(cc))) == Ok::<CompleteCommandView, Seq<char>>(cc),
{
    lemma_plain_writable(cc);
    lemma_plain_ok(cc);
    lemma_scan_text(cc);
    lemma_parse_tokens(cc);
}

} // verus!
