//! A line-numbered, BASIC-style interpreter.
//!
//! Numbered lines are kept sorted in a program store; a program-counter
//! driven engine runs them, turning the control-flow signals that statement
//! execution returns (GOTO, GOSUB/RETURN, FOR/NEXT, END) into jumps over an
//! explicit call stack and loop stack.

pub mod console;
pub mod errors;
pub mod executor;
pub mod expression;
pub mod fp;
pub mod function;
pub mod parser;
pub mod program;
pub mod statement;
pub mod text;
pub mod variables;
