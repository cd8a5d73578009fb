//! A calculator for infix arithmetic expressions.
//!
//! An input string of whitespace-separated tokens is parsed into an
//! [`Expression`](expression::Expression), a sequence of numbers and
//! operators. Evaluation converts the infix sequence to postfix order with
//! the shunting-yard algorithm and then reduces the postfix sequence to a
//! single value.
//!
//! Numeric values travel through the library as IEEE-754 double-precision
//! bit patterns (`u64`). The two floating-point atoms — reading a numeral's
//! bit pattern out of its text, and applying one arithmetic operator to two
//! values — cannot be stated here, so the caller supplies them: parsing
//! takes the decoded bit patterns alongside the tokens, and evaluation is
//! a stepped machine that hands each pending operation to the caller and
//! takes the result back. Everything the library decides — how the input
//! splits into tokens, which token is which component, the order the
//! shunting yard emits, and the stack discipline of the reduction — is
//! verified.

pub mod expression;
pub mod operator;
pub mod rpn;
pub mod text;
pub mod wellformed;
