//! The parentheses that the parser reads are balanced: it reads one `(`
//! and one `)` for every subshell of the syntax tree, and never a `)`
//! before the `(` that it closes.

use crate::lexer::{Kind, TokenView};
use crate::parser::{
    closes, is_redir, no_redirs, parse_spec, spec_command, spec_complete_command, spec_pipeline,
    spec_redirs, spec_subshell, spec_words, with_redir, CommandView, CompleteCommandView,
    PipelineView, RedirectListView,
};
use vstd::prelude::*;

verus! {

/// How many of the first `n` tokens are of the given kind.
pub open spec fn count_kind(ts: Seq<TokenView>, n: int, kind: Kind) -> int
    decreases n,
{
    if n <= 0 || n > ts.len() {
        0
    } else if ts[n - 1].kind == kind {
        count_kind(ts, n - 1, kind) + 1
    } else {
        count_kind(ts, n - 1, kind)
    }
}

/// The subshells of a command, at any depth, the command itself counted.
pub open spec fn subshells_of_command(command: CommandView) -> int
    decreases command, 0nat,
{
    match command {
        CommandView::SimpleCommand(sc) => 0,
        CommandView::Subshell(ss) => 1 + subshells_of_complete(ss.complete_command),
    }
}

/// The subshells of the first `n` commands, at any depth.
pub open spec fn subshells_of_commands(commands: Seq<CommandView>, n: int) -> int
    decreases commands, n,
{
    if n <= 0 || n > commands.len() {
        0
    } else {
        subshells_of_commands(commands, n - 1) + subshells_of_command(commands[n - 1])
    }
}

/// The subshells of a pipeline, at any depth.
pub open spec fn subshells_of_pipeline(pipeline: PipelineView) -> int
    decreases pipeline, 0nat,
{
    subshells_of_commands(pipeline.commands, pipeline.commands.len() as int)
}

/// The subshells of the first `n` pipelines, at any depth.
pub open spec fn subshells_of_pipelines(pipelines: Seq<PipelineView>, n: int) -> int
    decreases pipelines, n,
{
    if n <= 0 || n > pipelines.len() {
        0
    } else {
        subshells_of_pipelines(pipelines, n - 1) + subshells_of_pipeline(pipelines[n - 1])
    }
}

/// The subshells of a complete command, at any depth.
pub open spec fn subshells_of_complete(cc: CompleteCommandView) -> int
    decreases cc, 0nat,
{
    subshells_of_pipelines(cc.pipelines, cc.pipelines.len() as int)
}

/// `rest` is what is left of `ts` when some of its first tokens are taken,
/// and among the tokens taken there are `opens` opening and `closings`
/// closing parentheses.
pub open spec fn tally(ts: Seq<TokenView>, rest: Seq<TokenView>, opens: int, closings: int) -> bool {
    let n = ts.len() - rest.len();
    &&& 0 <= n
    &&& rest == ts.skip(n)
    &&& count_kind(ts, n, Kind::OpenBrace) == opens
    &&& count_kind(ts, n, Kind::CloseBrace) == closings
}

/// Among the first `n` tokens no run from the start closes more
/// parentheses than it opens and `slack` more.
pub open spec fn nested(ts: Seq<TokenView>, n: int, slack: int) -> bool {
    forall|k: int|
        0 <= k <= n ==> #[trigger] count_kind(ts, k, Kind::CloseBrace) <= count_kind(
            ts,
            k,
            Kind::OpenBrace,
        ) + slack
}

/// `rest` is what is left of `ts` when some of its first tokens are taken;
/// among the tokens taken there are `opens` opening and `closings` closing
/// parentheses, and no run of them from the start closes more than it
/// opens and `slack` more.
pub open spec fn reads(
    ts: Seq<TokenView>,
    rest: Seq<TokenView>,
    opens: int,
    closings: int,
    slack: int,
) -> bool {
    tally(ts, rest, opens, closings) && nested(ts, ts.len() - rest.len(), slack)
}

/// The tokens of a kind among the first `j + m` are those among the first
/// `j` and those among the `m` that follow.
pub proof fn lemma_count_split(ts: Seq<TokenView>, j: int, m: int, kind: Kind)
    requires
        0 <= j,
        0 <= m,
        j + m <= ts.len(),
    ensures
        count_kind(ts, j + m, kind) == count_kind(ts, j, kind) + count_kind(ts.skip(j), m, kind),
    decreases m,
{
    if m > 0 {
        lemma_count_split(ts, j, m - 1, kind);
        assert(ts.skip(j)[m - 1] == ts[j + m - 1]);
    }
}

/// Taking nothing leaves everything.
pub proof fn lemma_tally_nothing(ts: Seq<TokenView>)
    ensures
        reads(ts, ts, 0, 0, 0),
{
    assert(ts.skip(0) =~= ts);
}

/// Taking one token counts it if it is a parenthesis.
pub proof fn lemma_tally_one(ts: Seq<TokenView>)
    requires
        ts.len() > 0,
    ensures
        reads(
            ts,
            ts.skip(1),
            if ts[0].kind == Kind::OpenBrace {
                1
            } else {
                0
            },
            if ts[0].kind == Kind::CloseBrace {
                1
            } else {
                0
            },
            if ts[0].kind == Kind::CloseBrace {
                1
            } else {
                0
            },
        ),
{
    assert(count_kind(ts, 0, Kind::OpenBrace) == 0);
    assert(count_kind(ts, 0, Kind::CloseBrace) == 0);
    assert(count_kind(ts, 1, Kind::OpenBrace) >= 0);
}

/// Taking tokens and then taking more adds up. The tokens taken second
/// may close what those taken first left open, and no more than `slack`
/// beyond that.
pub proof fn lemma_tally_then(
    ts: Seq<TokenView>,
    mid: Seq<TokenView>,
    rest: Seq<TokenView>,
    o1: int,
    c1: int,
    o2: int,
    c2: int,
    slack: int,
)
    requires
        reads(ts, mid, o1, c1, slack),
        reads(mid, rest, o2, c2, slack + o1 - c1),
    ensures
        reads(ts, rest, o1 + o2, c1 + c2, slack),
{
    let j = ts.len() - mid.len();
    let m = mid.len() - rest.len();
    assert(rest =~= ts.skip(j + m));
    lemma_count_split(ts, j, m, Kind::OpenBrace);
    lemma_count_split(ts, j, m, Kind::CloseBrace);
    assert forall|k: int| 0 <= k <= j + m implies #[trigger] count_kind(
        ts,
        k,
        Kind::CloseBrace,
    ) <= count_kind(ts, k, Kind::OpenBrace) + slack by {
        if k > j {
            lemma_count_split(ts, j, k - j, Kind::OpenBrace);
            lemma_count_split(ts, j, k - j, Kind::CloseBrace);
            assert(count_kind(mid, k - j, Kind::CloseBrace) <= count_kind(
                mid,
                k - j,
                Kind::OpenBrace,
            ) + slack + o1 - c1);
        }
    }
}

/// The subshells of the first `n` commands depend on these commands only.
pub proof fn lemma_subshells_of_commands_prefix(a: Seq<CommandView>, b: Seq<CommandView>, n: int)
    requires
        0 <= n <= a.len(),
        n <= b.len(),
        forall|i: int| 0 <= i < n ==> a[i] == b[i],
    ensures
        subshells_of_commands(a, n) == subshells_of_commands(b, n),
    decreases n,
{
    if n > 0 {
        lemma_subshells_of_commands_prefix(a, b, n - 1);
    }
}

/// The subshells of the first `n` pipelines depend on these pipelines
/// only.
pub proof fn lemma_subshells_of_pipelines_prefix(a: Seq<PipelineView>, b: Seq<PipelineView>, n: int)
    requires
        0 <= n <= a.len(),
        n <= b.len(),
        forall|i: int| 0 <= i < n ==> a[i] == b[i],
    ensures
        subshells_of_pipelines(a, n) == subshells_of_pipelines(b, n),
    decreases n,
{
    if n > 0 {
        lemma_subshells_of_pipelines_prefix(a, b, n - 1);
    }
}

/// Words hold no parenthesis.
pub proof fn lemma_words_tally(ts: Seq<TokenView>, acc: Seq<Seq<char>>)
    ensures
        spec_words(ts, acc) matches Ok((words, rest)) ==> reads(ts, rest, 0, 0, 0),
    decreases ts.len(),
{
    if ts.len() > 0 && ts[0].kind == Kind::CommandOrArgument {
        lemma_words_tally(ts.skip(1), acc.push(ts[0].value));
        if let Ok((words, rest)) = spec_words(ts, acc) {
            lemma_tally_one(ts);
            lemma_tally_then(ts, ts.skip(1), rest, 0, 0, 0, 0, 0);
        }
    } else {
        lemma_tally_nothing(ts);
    }
}

/// Redirections hold no parenthesis.
pub proof fn lemma_redirs_tally(ts: Seq<TokenView>, acc: RedirectListView)
    ensures
        spec_redirs(ts, acc) matches Ok((redirs, rest)) ==> reads(ts, rest, 0, 0, 0),
    decreases ts.len(),
{
    if ts.len() >= 2 && is_redir(ts[0].kind) && ts[1].kind == Kind::CommandOrArgument {
        let after = ts.skip(2);
        lemma_redirs_tally(after, with_redir(acc, ts[0].kind, ts[1].value));
        if let Ok((redirs, rest)) = spec_redirs(ts, acc) {
            lemma_tally_one(ts);
            lemma_tally_one(ts.skip(1));
            assert(ts.skip(1).skip(1) =~= after);
            lemma_tally_then(ts, ts.skip(1), after, 0, 0, 0, 0, 0);
            lemma_tally_then(ts, after, rest, 0, 0, 0, 0, 0);
        }
    } else {
        lemma_tally_nothing(ts);
    }
}

/// A command is read with one `(` and one `)` for each of its subshells.
pub proof fn lemma_command_tally(ts: Seq<TokenView>)
    ensures
        spec_command(ts) matches Ok((command, rest)) ==> reads(
            ts,
            rest,
            subshells_of_command(command),
            subshells_of_command(command),
            0,
        ),
    decreases ts.len(), 0int,
{
    if ts.len() == 0 {
    } else if ts[0].kind == Kind::OpenBrace {
        lemma_subshell_tally(ts.skip(1));
        if let Ok((command, rest)) = spec_subshell(ts.skip(1)) {
            let k = subshells_of_command(command);
            lemma_tally_one(ts);
            lemma_tally_then(ts, ts.skip(1), rest, 1, 0, k - 1, k, 0);
        }
    } else {
        lemma_words_tally(ts, Seq::empty());
        if let Ok((arguments, mid)) = spec_words(ts, Seq::empty()) {
            lemma_redirs_tally(mid, no_redirs());
            if let Ok((redirs, rest)) = spec_redirs(mid, no_redirs()) {
                lemma_tally_then(ts, mid, rest, 0, 0, 0, 0, 0);
            }
        }
    }
}

/// What follows the `(` of a subshell is read with one `)` for the
/// subshell itself, and one `(` and one `)` for each subshell within.
pub proof fn lemma_subshell_tally(ts: Seq<TokenView>)
    ensures
        spec_subshell(ts) matches Ok((command, rest)) ==> reads(
            ts,
            rest,
            subshells_of_command(command) - 1,
            subshells_of_command(command),
            1,
        ),
    decreases ts.len(), 3int,
{
    lemma_complete_tally(ts, Seq::empty());
    if let Ok((complete_command, mid)) = spec_complete_command(ts, Seq::empty()) {
        if mid.len() > 0 && mid[0].kind == Kind::CloseBrace {
            let k = subshells_of_complete(complete_command);
            lemma_tally_one(mid);
            lemma_tally_then(ts, mid, mid.skip(1), k, k, 0, 1, 1);
            lemma_redirs_tally(mid.skip(1), no_redirs());
            if let Ok((redirs, rest)) = spec_redirs(mid.skip(1), no_redirs()) {
                lemma_tally_then(ts, mid.skip(1), rest, k, k + 1, 0, 0, 1);
            }
        }
    }
}

/// A pipeline is read with one `(` and one `)` for each subshell that it
/// adds to those of the commands before it.
pub proof fn lemma_pipeline_tally(ts: Seq<TokenView>, acc: Seq<CommandView>)
    ensures
        spec_pipeline(ts, acc) matches Ok((pipeline, rest)) ==> reads(
            ts,
            rest,
            subshells_of_pipeline(pipeline) - subshells_of_commands(acc, acc.len() as int),
            subshells_of_pipeline(pipeline) - subshells_of_commands(acc, acc.len() as int),
            0,
        ),
    decreases ts.len(), 1int,
{
    lemma_command_tally(ts);
    if let Ok((command, mid)) = spec_command(ts) {
        let k = subshells_of_command(command);
        let more = acc.push(command);
        lemma_subshells_of_commands_prefix(more, acc, acc.len() as int);
        assert(subshells_of_commands(more, more.len() as int) == subshells_of_commands(
            acc,
            acc.len() as int,
        ) + k);
        if mid.len() > 0 && mid[0].kind == Kind::Pipe {
            if mid.len() <= ts.len() {
                lemma_pipeline_tally(mid.skip(1), more);
                if let Ok((pipeline, rest)) = spec_pipeline(mid.skip(1), more) {
                    let j = subshells_of_pipeline(pipeline) - subshells_of_commands(
                        more,
                        more.len() as int,
                    );
                    lemma_tally_one(mid);
                    lemma_tally_then(ts, mid, mid.skip(1), k, k, 0, 0, 0);
                    lemma_tally_then(ts, mid.skip(1), rest, k, k, j, j, 0);
                }
            }
        }
    }
}

/// A complete command is read with one `(` and one `)` for each subshell
/// that it adds to those of the pipelines before it.
pub proof fn lemma_complete_tally(ts: Seq<TokenView>, acc: Seq<PipelineView>)
    ensures
        spec_complete_command(ts, acc) matches Ok((complete_command, rest)) ==> reads(
            ts,
            rest,
            subshells_of_complete(complete_command) - subshells_of_pipelines(acc, acc.len() as int),
            subshells_of_complete(complete_command) - subshells_of_pipelines(acc, acc.len() as int),
            0,
        ),
    decreases ts.len(), 2int,
{
    lemma_pipeline_tally(ts, Seq::empty());
    if let Ok((parsed, mid)) = spec_pipeline(ts, Seq::empty()) {
        let k = subshells_of_pipeline(parsed);
        assert(subshells_of_commands(Seq::<CommandView>::empty(), 0) == 0);
        if mid.len() > 0 {
            let pipeline = PipelineView {
                commands: parsed.commands,
                sync: mid[0].kind == Kind::Semicolon || closes(mid[0].kind),
            };
            assert(subshells_of_pipeline(pipeline) == k);
            let more = acc.push(pipeline);
            lemma_subshells_of_pipelines_prefix(more, acc, acc.len() as int);
            assert(subshells_of_pipelines(more, more.len() as int) == subshells_of_pipelines(
                acc,
                acc.len() as int,
            ) + k);
            if mid[0].kind == Kind::Semicolon || mid[0].kind == Kind::Ampersand {
                let after = mid.skip(1);
                lemma_tally_one(mid);
                lemma_tally_then(ts, mid, after, k, k, 0, 0, 0);
                if after.len() > 0 && closes(after[0].kind) {
                } else if mid.len() <= ts.len() {
                    lemma_complete_tally(after, more);
                    if let Ok((complete_command, rest)) = spec_complete_command(after, more) {
                        let j = subshells_of_complete(complete_command) - subshells_of_pipelines(
                            more,
                            more.len() as int,
                        );
                        lemma_tally_then(ts, after, rest, k, k, j, j, 0);
                    }
                }
            }
        }
    }
}

/// The number of tokens that the parser reads for the complete command
/// of a line, before the end of the line at which it stops; 0 where the
/// line does not parse.
pub open spec fn parsed_length(ts: Seq<TokenView>) -> int {
    match spec_complete_command(ts, Seq::empty()) {
        Ok((parsed, rest)) => ts.len() - rest.len(),
        Err(e) => 0,
    }
}

/// The tokens of a line that parses to `cc` hold, among those that the
/// parser reads for the complete command, one `(` and one `)` for each
/// subshell of `cc`, and no run of these tokens from the start closes more
/// parentheses than it opens.
pub open spec fn balanced(ts: Seq<TokenView>, cc: CompleteCommandView) -> bool {
    &&& count_kind(ts, parsed_length(ts), Kind::OpenBrace) == subshells_of_complete(cc)
    &&& count_kind(ts, parsed_length(ts), Kind::CloseBrace) == subshells_of_complete(cc)
    &&& nested(ts, parsed_length(ts), 0)
}

/// The parentheses that the parser reads are balanced.
///
/// Where a line parses, the tokens before the end of the line that the
/// parser stops at hold as many `(` as the syntax tree has subshells, and
/// as many `)`: one pair for each subshell. And whichever number of these
/// tokens is taken from the start, they never hold more `)` than `(`.
pub proof fn lemma_parse_balanced(ts: Seq<TokenView>)
    ensures
        parse_spec(ts) matches Ok(cc) ==> {
            &&& spec_complete_command(ts, Seq::empty()) matches Ok((parsed, rest))
            &&& parsed == cc
            &&& rest.len() > 0
            &&& rest[0].kind == Kind::EndOfLine
            &&& reads(ts, rest, subshells_of_complete(cc), subshells_of_complete(cc), 0)
        },
        parse_spec(ts) matches Ok(cc) ==> balanced(ts, cc),
{
    lemma_complete_tally(ts, Seq::empty());
    assert(subshells_of_pipelines(Seq::<PipelineView>::empty(), 0) == 0);
}

} // verus!
