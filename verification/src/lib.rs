//! A toolchain and execution engine for a small register-machine assembly
//! language that drives simulated robots on a rectangular grid.
//!
//! The pipeline is: source text -> [`lexer::lex`] -> tokens -> [`parser::parse`]
//! -> instruction list (labels resolved and stripped) -> one instruction per
//! robot per tick, executed by [`robot::step_game`] under a decide/apply
//! protocol that makes simultaneous movement and shooting well-defined.

pub mod lexer;
pub mod parser;
pub mod robot;
