//! An interpreter for a small Lisp: expressions, a scoped environment, and
//! an evaluator whose behaviour is stated in contracts and proved.
//!
//! The values are in [`expression`], errors in [`exception`], lists in
//! [`list`], and the environment in [`context`]. [`eval`] and [`macros`]
//! evaluate; [`semantics`] says what they give, and [`laws`] and
//! [`scoping`] what follows from that. [`parser`] reads text as [`grammar`]
//! says. Numbers are IEEE
//! doubles that are carried as bits; whatever computes with them, and
//! whatever reaches outside the process, is the embedder's [`host`].

pub mod capture;
pub mod context;
pub mod display;
pub mod equality;
pub mod eval;
pub mod exception;
pub mod expression;
pub mod functions;
pub mod grammar;
pub mod host;
pub mod import;
pub mod interpolate;
pub mod intrinsics;
pub mod laws;
pub mod list;
pub mod macros;
pub mod number;
pub mod numeric;
pub mod parser;
pub mod prelude;
pub mod preprocessor;
pub mod pattern;
pub mod quat;
pub mod quat_text;
pub mod scoping;
pub mod semantics;
pub mod text;
pub mod util;
