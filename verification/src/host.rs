//! What the interpreter leaves to the program that embeds it: the
//! floating-point arithmetic behind numbers, and the operations that reach
//! outside the process.

use crate::context::Context;
use crate::expression::Expression;
use crate::quat::Quat;
use vstd::prelude::*;

verus! {

/// The embedder's side of the interpreter.
///
/// A number is an IEEE double that the interpreter carries as 64 bits and
/// never computes with; reading, printing and arithmetic are done here.
pub trait Host {
    /// Reads a real literal such as `4.73`; `None` where the text is none.
    fn parse_num(&self, text: &str) -> Option<u64>;

    /// Prints a number.
    fn show_num(&self, bits: u64) -> String;

    /// Prints a quaternion.
    fn show_quat(&self, q: &Quat) -> String;

    /// The text of the file `name`; `None` where it cannot be read.
    fn read_file(&mut self, name: &str) -> Option<String>;

    /// Performs the native operation registered under `op` on evaluated
    /// arguments, in the context of the call. Whatever it does to the
    /// context, the evaluator afterwards sees to it that there are as many
    /// scopes as before.
    fn call(&mut self, op: usize, args: &Vec<Expression>, ctx: &mut Context) -> Expression;
}

} // verus!
