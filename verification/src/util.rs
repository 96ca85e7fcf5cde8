//! Small constructors that several modules share.

use crate::expression::{lemma_views_of, views_of, ExprView, Expression};
use crate::list::ExprList;
use vstd::prelude::*;
use vstd::string::StringExecFns;

verus! {

/// A string of the language.
pub type Str = String;

/// The styles that text can be printed in.
#[derive(Clone, Copy, Debug)]
pub enum Style {
    /// Bold text.
    Bold,
    /// Normal text.
    Normal,
}

/// The value `nil`: the empty list.
pub fn nil() -> (r: Expression)
    ensures
        r@ == ExprView::Cons(Seq::empty()),
{
    Expression::default()
}

/// The call `(begin e1 e2 ...)` of the given expressions.
pub fn wrap_begin(exprs: ExprList) -> (r: Expression)
    ensures
        r@ == ExprView::Cons(seq![ExprView::Symbol("begin"@)] + exprs@),
{
    Expression::Cons(exprs.cons(Expression::Symbol(String::from_str("begin"))))
}

/// The list `(head arg)`.
pub fn pair(head: Expression, arg: Expression) -> (r: Expression)
    ensures
        r@ == ExprView::Cons(seq![head@, arg@]),
{
    let l = ExprList::new().cons(arg).cons(head);
    assert(l@ =~= seq![head@, arg@]);
    Expression::Cons(l)
}

/// The colours that text can be printed in.
#[derive(Clone, Copy, Debug)]
pub enum Tint {
    Red,
    Yellow,
    Green,
    Blue,
}

/// What `display-pretty` is asked to print.
#[derive(Debug)]
pub struct Pretty {
    /// The colour; `None` for the terminal's own.
    pub color: Option<Tint>,
    /// The style.
    pub style: Style,
    /// The text.
    pub text: String,
}

/// The style of the name `style`: `bold` or `normal`; any other name gives
/// a custom error with code 35.
pub fn get_style(style: &str) -> (r: Result<Style, crate::exception::Exception>)
    ensures
        match style_named(style@) {
            Some(s) => r == Ok::<Style, crate::exception::Exception>(s),
            None => r is Err && ExprView::Error(r->Err_0@) == crate::eval::custom_error(
                35,
                "style not found: "@ + style@,
            ),
        },
{
    if crate::text::same_text(style, "bold") {
        Ok(Style::Bold)
    } else if crate::text::same_text(style, "normal") {
        Ok(Style::Normal)
    } else {
        Err(
            crate::exception::Exception::custom(
                35,
                crate::text::join2("style not found: ", style).as_str(),
            ),
        )
    }
}

/// The colour that a name stands for.
pub open spec fn color_named(name: Seq<char>) -> Option<Option<Tint>> {
    if name == "red"@ {
        Some(Some(Tint::Red))
    } else if name == "yellow"@ {
        Some(Some(Tint::Yellow))
    } else if name == "green"@ {
        Some(Some(Tint::Green))
    } else if name == "blue"@ {
        Some(Some(Tint::Blue))
    } else if name == "none"@ {
        Some(None)
    } else {
        None
    }
}

/// The colour of the name `color`: `red`, `yellow`, `green`, `blue`, or
/// `none` for no colour; any other name gives a custom error with code 34.
pub fn get_color(color: &str) -> (r: Result<Option<Tint>, crate::exception::Exception>)
    ensures
        match color_named(color@) {
            Some(c) => r == Ok::<Option<Tint>, crate::exception::Exception>(c),
            None => r is Err && ExprView::Error(r->Err_0@) == crate::eval::custom_error(
                34,
                "color not found: "@ + color@,
            ),
        },
{
    if crate::text::same_text(color, "red") {
        Ok(Some(Tint::Red))
    } else if crate::text::same_text(color, "yellow") {
        Ok(Some(Tint::Yellow))
    } else if crate::text::same_text(color, "green") {
        Ok(Some(Tint::Green))
    } else if crate::text::same_text(color, "blue") {
        Ok(Some(Tint::Blue))
    } else if crate::text::same_text(color, "none") {
        Ok(None)
    } else {
        Err(
            crate::exception::Exception::custom(
                34,
                crate::text::join2("color not found: ", color).as_str(),
            ),
        )
    }
}

/// The style that a name stands for.
pub open spec fn style_named(name: Seq<char>) -> Option<Style> {
    if name == "bold"@ {
        Some(Style::Bold)
    } else if name == "normal"@ {
        Some(Style::Normal)
    } else {
        None
    }
}

/// What `display-pretty` is asked to print, or the error of its arguments:
/// the colour and the style, as symbols, and the text. A colour that is not
/// known gives a custom error with code 34, then a style that is not known
/// one with code 35; arguments of other types a signature error that names
/// the three types; and another number of arguments than three an arity
/// error that expects two.
pub open spec fn pretty_result(args: Seq<ExprView>) -> Result<
    (Option<Tint>, Style, Seq<char>),
    ExprView,
> {
    if args.len() != 3 {
        Err(crate::eval::arity_error(2, args.len() as usize))
    } else {
        match (args[0], args[1], args[2]) {
            (ExprView::Symbol(color), ExprView::Symbol(style), ExprView::Str(text)) => match (
                color_named(color),
                style_named(style),
            ) {
                (None, _) => Err(crate::eval::custom_error(34, "color not found: "@ + color)),
                (Some(_), None) => Err(
                    crate::eval::custom_error(35, "style not found: "@ + style),
                ),
                (Some(c), Some(s)) => Ok((c, s, text)),
            },
            (x, y, z) => Err(
                crate::eval::signature_error(
                    "(symbol, symbol, any)"@,
                    "("@ + crate::expression::kind_name(x) + ", "@ + crate::expression::kind_name(
                        y,
                    ) + ", "@ + crate::expression::kind_name(z) + ")"@,
                ),
            ),
        }
    }
}

/// `display-pretty :: symbol symbol str -> nil`
///
/// Reads what is to be printed from the arguments, as [`pretty_result`]
/// says.
pub fn display_pretty(args: &Vec<Expression>) -> (r: Result<Pretty, Expression>)
    ensures
        match (r, pretty_result(views_of(args@))) {
            (Ok(p), Ok(q)) => p.color == q.0 && p.style == q.1 && p.text@ == q.2,
            (Err(e), Err(v)) => e@ == v,
            _ => false,
        },
{
    proof {
        lemma_views_of(args@);
    }
    if args.len() != 3 {
        return Err(crate::eval::fail(crate::exception::Exception::arity(2, args.len())));
    }
    match (&args[0], &args[1], &args[2]) {
        (Expression::Symbol(color), Expression::Symbol(style), Expression::Str(text)) => {
            match get_color(color.as_str()) {
                Err(e) => {
                    assert(e@.stack =~= Seq::empty());
                    Err(crate::eval::fail(e))
                },
                Ok(color) => match get_style(style.as_str()) {
                    Err(e) => {
                        assert(e@.stack =~= Seq::empty());
                        Err(crate::eval::fail(e))
                    },
                    Ok(style) => {
                        Ok(Pretty { color, style, text: text.clone() })
                    },
                },
            }
        },
        (x, y, z) => {
            let mut found = String::from_str("(");
            found.append(x.type_of().as_str());
            found.append(", ");
            found.append(y.type_of().as_str());
            found.append(", ");
            found.append(z.type_of().as_str());
            found.append(")");
            Err(
                crate::eval::fail(
                    crate::exception::Exception::signature(
                        "(symbol, symbol, any)",
                        found.as_str(),
                    ),
                ),
            )
        },
    }
}

} // verus!
