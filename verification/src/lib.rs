//! An infix arithmetic expression evaluator.
//!
//! An expression such as `2*(12+6)` is lexed into a stream of tokens, the
//! stream is reordered into postfix (reverse Polish) order with the
//! shunting-yard algorithm, and the postfix stream is folded with a numeric
//! stack into a single value.  The token grammar, the reordering and the
//! stack discipline are fully specified and verified; the arithmetic on the
//! numeric payloads is supplied by the caller through the
//! [`calculator::Arithmetic`] trait, so the library itself never touches a
//! machine number.

pub mod calculator;
pub mod error;
pub mod lexer;
pub mod token;
