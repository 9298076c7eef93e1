//! Interprets one input line, stage by stage.

use crate::interp::{initial, jobs_of, Interpreter, Session, SessionView};
use crate::lexer::{scan, scan_spec, token_views, Token, TokenView};
use crate::model::{exe_view, Error};
use crate::parser::{parse, parse_spec, CompleteCommand, CompleteCommandView};
use crate::process::{survivors, Manager, Polled};
use crate::translator::{translate, translate_spec, ListOfCommands, ListOfCommandsView};
use std::collections::VecDeque;
use vstd::prelude::*;
use vstd::string::StringExecFns;

verus! {

/// How far a line got, with what that stage made of it.
#[derive(Debug)]
pub enum Staged {
    /// The tokens of the line: the work stopped after the scanner.
    Tokens(VecDeque<Token>),
    /// The syntax tree of the line: the work stopped after the parser.
    Tree(CompleteCommand),
    /// The plan of the line: the work stopped after the translator.
    Plan(ListOfCommands),
    /// The session that runs the line, in its first state.
    Run(Session),
}

/// How far a line got, as a mathematical value.
#[verifier::ext_equal]
pub enum StagedView {
    Tokens(Seq<TokenView>),
    Tree(CompleteCommandView),
    Plan(ListOfCommandsView),
    Run(SessionView),
}

impl View for Staged {
    type V = StagedView;

    open spec fn view(&self) -> StagedView {
        match self {
            Staged::Tokens(tokens) => StagedView::Tokens(token_views(tokens@)),
            Staged::Tree(tree) => StagedView::Tree(tree@),
            Staged::Plan(plan) => StagedView::Plan(plan@),
            Staged::Run(session) => StagedView::Run(session@),
        }
    }
}

/// What a line comes to when the work stops after the stage named: the
/// tokens after `scan`, the syntax tree after `parse`, the plan after
/// `plan`; with any other name, the session that runs the plan. The first
/// stage that fails decides the error, and no later stage is reached.
pub open spec fn shrun_spec(
    cmd: Seq<char>,
    stage: Seq<char>,
    verbose: bool,
    exe: Result<Seq<char>, Seq<char>>,
) -> Result<StagedView, Seq<char>> {
    let tokens = scan_spec(cmd);
    if stage == "scan"@ {
        Ok(StagedView::Tokens(tokens))
    } else {
        match parse_spec(tokens) {
            Err(e) => Err(e),
            Ok(tree) => if stage == "parse"@ {
                Ok(StagedView::Tree(tree))
            } else {
                match translate_spec(tree, verbose, exe) {
                    Err(e) => Err(e),
                    Ok(plan) => if stage == "plan"@ {
                        Ok(StagedView::Plan(plan))
                    } else {
                        Ok(StagedView::Run(initial(jobs_of(plan), verbose)))
                    },
                }
            },
        }
    }
}

/// Interprets a single shell input line.
///
/// Before anything else the terminated children in the background are
/// collected: `polled` is what the tests for exit found of
/// `manager.procs()`, in that order. Then the line goes through the
/// stages. `current_exe` is the path of the shell's own executable, or the
/// reason why it could not be found.
pub fn shrun(
    manager: &mut Manager,
    polled: &Vec<Polled>,
    cmd: String,
    stage: &String,
    verbose: bool,
    current_exe: Result<String, Error>,
) -> (r: Result<Staged, Error>)
    ensures
        final(manager)@ == survivors(old(manager)@, polled@),
        match r {
            Ok(staged) => shrun_spec(cmd@, stage@, verbose, exe_view(current_exe)) == Ok::<
                StagedView,
                Seq<char>,
            >(staged@),
            Err(e) => shrun_spec(cmd@, stage@, verbose, exe_view(current_exe)) == Err::<
                StagedView,
                Seq<char>,
            >(e@),
        },
{
    manager.collect(polled);  // ensure we don't leave zombies around
    let tokens = scan(cmd);
    if *stage == String::from_str("scan") {
        return Ok(Staged::Tokens(tokens));
    }
    let tree = match parse(tokens) {
        Ok(tree) => tree,
        Err(e) => return Err(e),
    };
    if *stage == String::from_str("parse") {
        return Ok(Staged::Tree(tree));
    }
    let loc = match translate(tree, verbose, current_exe) {
        Ok(loc) => loc,
        Err(e) => return Err(e),
    };
    if *stage == String::from_str("plan") {
        return Ok(Staged::Plan(loc));
    }
    let interp = Interpreter::new(verbose);
    Ok(Staged::Run(interp.run(loc)))
}

} // verus!
