//! An interpreter for a small statement language: semicolon-terminated statements,
//! infix integer arithmetic with parentheses, string literals, variables marked with
//! `$`, labels, and the keywords `PRINT`, `NEWL`, `GOTO`, `BZ`, `BG` and `END`.
//!
//! Statements are tokenized ([`lexer`]), reordered into postfix form by the
//! shunting-yard algorithm ([`postfix`]), compiled into instructions ([`instr`],
//! [`program`]) and run by a program-counter machine ([`exec`]) that evaluates
//! postfix expressions ([`eval`]) against the variables. Every step is specified by a
//! mathematical model and verified against it; [`infix`] and [`render`] hold the laws
//! that relate the conversion to conventional arithmetic and tokenizing to printing.
use vstd::prelude::*;

pub mod error;
pub mod eval;
pub mod exec;
pub mod infix;
pub mod instr;
pub mod lexer;
pub mod postfix;
pub mod program;
pub mod render;
pub mod table;
pub mod token;

verus! {

} // verus!
