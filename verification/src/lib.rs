//! Core of a Unix v6-style command interpreter.
//!
//! A line of shell text goes through four stages, each of which takes
//! what the stage before it made:
//!
//! 1. `lexer` scans the line into tokens;
//! 2. `parser` parses the tokens into a syntax tree;
//! 3. `translator` checks the tree and flattens it into a plan, with the
//!    help of `serializer` for subshells, which run as the shell's own
//!    executable on the text of what they enclose;
//! 4. `interp` interprets the plan.
//!
//! `shell` takes one line through the stages. `process` holds the
//! children of the pipeline that is being started and those that run in
//! the background. `compiler` flattens a syntax tree straight into the
//! list of processes to start.
//!
//! This library touches neither processes nor files. The interpreter
//! names each thing to do as an `Action` and is told how it went by an
//! `Outcome`; whoever drives it starts the processes, opens the files
//! and makes the pipes.
//!
//! Every function here is verified against its contract. `balance`,
//! `unparse` and `roundtrip` hold laws that relate the stages to one
//! another.

pub mod balance;
pub mod compiler;
pub mod interp;
pub mod lexer;
pub mod model;
pub mod parser;
pub mod process;
pub mod roundtrip;
pub mod serializer;
pub mod shell;
pub mod translator;
pub mod unparse;
