//! A calculator that evaluates arithmetic expression trees whose functions may
//! live outside: the built-in operators are answered by the arithmetic of the
//! machine, callbacks by whoever holds them, and functions defined by an
//! expression are evaluated here.
//!
//! The library decides and never waits. An evaluation does all it can, hands
//! out every question it needs an answer to, and takes the answers in
//! whatever order they come; sibling arguments of a call never wait for each
//! other. It computes on no number itself: a number is carried by its bit
//! pattern from where it comes to where it goes.
//!
//! - [`expression`]: the expression trees, functions and values.
//! - [`semantics`]: what an expression evaluates to, given what the outside
//!   answers.
//! - [`task`]: an evaluation under way as a mathematical value, and how it
//!   moves.
//! - [`evaluator`]: the evaluation that runs.
//! - [`service`], [`client`]: the calculator and the power function.
//! - [`questions`], [`soundness`], [`bound`], [`correctness`]: what is proved
//!   of all this.

pub mod number;
pub mod error;
pub mod expression;
pub mod semantics;
pub mod task;
pub mod evaluator;
pub mod service;
pub mod client;
pub mod questions;
pub mod soundness;
pub mod bound;
pub mod correctness;
