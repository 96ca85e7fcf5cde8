//! Errors of the language: ordinary values that carry a code, a message and
//! the call sites they passed through.

use crate::expression::{ExprView, Expression};
use crate::list::ExprList;
use crate::text::{decimal, decimal_text};
use vstd::prelude::*;
use vstd::string::StringExecFns;

verus! {

/// The number that tells the kinds of errors apart.
pub type ErrorCode = u16;

/// What an error says.
#[derive(Debug)]
pub enum ExceptionData {
    /// A call with the wrong number of arguments: expected, found.
    Arity(usize, usize),
    /// Arguments of the wrong types: expected, found.
    Signature(String, String),
    /// Any error that fits no other kind.
    Custom(ErrorCode, String),
    /// A symbol that has no binding.
    Undefined(String),
    /// A malformed form.
    Syntax(ErrorCode, String),
}

/// An error: what it says, and the calls it passed through, the one it
/// passed last in front.
#[derive(Debug)]
pub struct Exception {
    pub stack: ExprList,
    pub data: ExceptionData,
}

/// The view of an [`ExceptionData`].
pub enum ExceptionDataView {
    Arity(usize, usize),
    Signature(Seq<char>, Seq<char>),
    Custom(ErrorCode, Seq<char>),
    Undefined(Seq<char>),
    Syntax(ErrorCode, Seq<char>),
}

/// The view of an [`Exception`].
pub struct ExceptionView {
    pub stack: Seq<ExprView>,
    pub data: ExceptionDataView,
}

impl View for ExceptionData {
    type V = ExceptionDataView;

    open spec fn view(&self) -> ExceptionDataView {
        match self {
            ExceptionData::Arity(e, f) => ExceptionDataView::Arity(*e, *f),
            ExceptionData::Signature(e, f) => ExceptionDataView::Signature(e@, f@),
            ExceptionData::Custom(c, d) => ExceptionDataView::Custom(*c, d@),
            ExceptionData::Undefined(s) => ExceptionDataView::Undefined(s@),
            ExceptionData::Syntax(c, d) => ExceptionDataView::Syntax(*c, d@),
        }
    }
}

impl View for Exception {
    type V = ExceptionView;

    open spec fn view(&self) -> ExceptionView {
        ExceptionView { stack: self.stack@, data: self.data@ }
    }
}

/// The code of each kind of error.
pub open spec fn code_of(data: ExceptionDataView) -> ErrorCode {
    match data {
        ExceptionDataView::Arity(_, _) => 4,
        ExceptionDataView::Signature(_, _) => 9,
        ExceptionDataView::Custom(code, _) => code,
        ExceptionDataView::Undefined(_) => 1,
        ExceptionDataView::Syntax(code, _) => code,
    }
}

/// What an error says, as text.
pub open spec fn message(data: ExceptionDataView) -> Seq<char> {
    match data {
        ExceptionDataView::Arity(expected, found) => "arity mismatch: expected "@ + decimal(
            expected as nat,
        ) + ", found "@ + decimal(found as nat),
        ExceptionDataView::Signature(expected, found) => "signature mismatch: expected "@
            + expected + ", found "@ + found,
        ExceptionDataView::Custom(_, description) => description,
        ExceptionDataView::Undefined(symbol) => "undefined symbol: `"@ + symbol + "`"@,
        ExceptionDataView::Syntax(_, description) => "syntax error: "@ + description,
    }
}

impl Clone for ExceptionData {
    fn clone(&self) -> (r: ExceptionData)
        ensures
            r@ == self@,
    {
        match self {
            ExceptionData::Arity(e, f) => ExceptionData::Arity(*e, *f),
            ExceptionData::Signature(e, f) => ExceptionData::Signature(e.clone(), f.clone()),
            ExceptionData::Custom(c, d) => ExceptionData::Custom(*c, d.clone()),
            ExceptionData::Undefined(s) => ExceptionData::Undefined(s.clone()),
            ExceptionData::Syntax(c, d) => ExceptionData::Syntax(*c, d.clone()),
        }
    }
}

impl Clone for Exception {
    fn clone(&self) -> (r: Exception)
        ensures
            r@ == self@,
    {
        Exception { stack: self.stack.clone(), data: self.data.clone() }
    }
}

impl ExceptionData {
    /// What the error says: the text of [`message`].
    pub fn to_string(&self) -> (s: String)
        ensures
            s@ == message(self@),
    {
        match self {
            ExceptionData::Arity(expected, found) => {
                let mut s = String::from_str("arity mismatch: expected ");
                s.append(decimal_text(*expected).as_str());
                s.append(", found ");
                s.append(decimal_text(*found).as_str());
                s
            },
            ExceptionData::Signature(expected, found) => {
                let mut s = String::from_str("signature mismatch: expected ");
                s.append(expected.as_str());
                s.append(", found ");
                s.append(found.as_str());
                s
            },
            ExceptionData::Custom(_, description) => description.clone(),
            ExceptionData::Undefined(symbol) => {
                let mut s = String::from_str("undefined symbol: `");
                s.append(symbol.as_str());
                s.append("`");
                s
            },
            ExceptionData::Syntax(_, description) => {
                let mut s = String::from_str("syntax error: ");
                s.append(description.as_str());
                s
            },
        }
    }

    /// The error's code: 4 for an arity mismatch, 9 for a signature
    /// mismatch, 1 for an undefined symbol, and the code it carries for a
    /// custom or a syntax error.
    pub fn error_code(&self) -> (code: ErrorCode)
        ensures
            code == code_of(self@),
    {
        match self {
            ExceptionData::Arity(_, _) => 4,
            ExceptionData::Signature(_, _) => 9,
            ExceptionData::Custom(code, _) => *code,
            ExceptionData::Undefined(_) => 1,
            ExceptionData::Syntax(code, _) => *code,
        }
    }
}

impl Exception {
    /// An arity mismatch with an empty trace.
    pub fn arity(expected: usize, found: usize) -> (e: Exception)
        ensures
            e@ == (ExceptionView {
                stack: Seq::empty(),
                data: ExceptionDataView::Arity(expected, found),
            }),
    {
        let stack = ExprList::new();
        assert(stack@ =~= Seq::empty());
        Exception { stack, data: ExceptionData::Arity(expected, found) }
    }

    /// A signature mismatch with an empty trace.
    pub fn signature(expected: &str, found: &str) -> (e: Exception)
        ensures
            e@ == (ExceptionView {
                stack: Seq::empty(),
                data: ExceptionDataView::Signature(expected@, found@),
            }),
    {
        let stack = ExprList::new();
        assert(stack@ =~= Seq::empty());
        Exception {
            stack,
            data: ExceptionData::Signature(String::from_str(expected), String::from_str(found)),
        }
    }

    /// A custom error with an empty trace.
    pub fn custom(code: ErrorCode, description: &str) -> (e: Exception)
        ensures
            e@ == (ExceptionView {
                stack: Seq::empty(),
                data: ExceptionDataView::Custom(code, description@),
            }),
    {
        let stack = ExprList::new();
        assert(stack@ =~= Seq::empty());
        Exception { stack, data: ExceptionData::Custom(code, String::from_str(description)) }
    }

    /// An undefined-symbol error with an empty trace.
    pub fn undefined(symbol: &str) -> (e: Exception)
        ensures
            e@ == (ExceptionView {
                stack: Seq::empty(),
                data: ExceptionDataView::Undefined(symbol@),
            }),
    {
        let stack = ExprList::new();
        assert(stack@ =~= Seq::empty());
        Exception { stack, data: ExceptionData::Undefined(String::from_str(symbol)) }
    }

    /// A syntax error with an empty trace.
    pub fn syntax(code: ErrorCode, description: &str) -> (e: Exception)
        ensures
            e@ == (ExceptionView {
                stack: Seq::empty(),
                data: ExceptionDataView::Syntax(code, description@),
            }),
    {
        let stack = ExprList::new();
        assert(stack@ =~= Seq::empty());
        Exception { stack, data: ExceptionData::Syntax(code, String::from_str(description)) }
    }

    /// The same error with `expr` put in front of its trace.
    pub fn extend(&self, expr: &Expression) -> (e: Exception)
        ensures
            e@ == (ExceptionView { stack: seq![expr@] + self@.stack, data: self@.data }),
    {
        Exception { stack: self.stack.cons(expr.clone()), data: self.data.clone() }
    }

    /// The error's code.
    pub fn error_code(&self) -> (code: ErrorCode)
        ensures
            code == code_of(self@.data),
    {
        self.data.error_code()
    }

    /// The trace: the calls the error passed through, the one it passed
    /// last in front.
    pub fn stack(&self) -> (s: ExprList)
        ensures
            s@ == self@.stack,
    {
        self.stack.clone()
    }

    /// What the error says: the text of [`message`].
    pub fn to_string(&self) -> (s: String)
        ensures
            s@ == message(self@.data),
    {
        self.data.to_string()
    }
}

} // verus!
