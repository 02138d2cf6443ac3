//! A Brainfuck interpreter: tokenizer, bracket matching, program model and a
//! step-by-step execution engine, each with a machine-checked contract.

pub mod cli;
pub mod error;
pub mod interpreter;
pub mod program;
pub mod text;
pub mod token;
pub mod tokenizer;
