//! String interpolation: `(format "1 + 2 = #{(+ 1 2)}")` gives
//! `"1 + 2 = 3"`.

use crate::context::Context;
use crate::eval::{arity_error, eval_at, fail, frame, signature_error, syntax_error};
use crate::exception::Exception;
use crate::expression::{kind_name, lemma_views_of, views_of, ExprView, Expression};
use crate::host::Host;
use crate::parser::Parser;
use crate::text::{chars_of, string_of};
use vstd::prelude::*;
use vstd::string::StringExecFns;

verus! {

/// A part of an interpolated string.
#[derive(Debug)]
pub enum StrSection {
    /// Text that is taken as it is.
    Literal(String),
    /// The text of an expression whose value is put in.
    Expr(String),
}

/// The view of a [`StrSection`].
pub enum SectionView {
    Literal(Seq<char>),
    Expr(Seq<char>),
}

impl View for StrSection {
    type V = SectionView;

    open spec fn view(&self) -> SectionView {
        match self {
            StrSection::Literal(s) => SectionView::Literal(s@),
            StrSection::Expr(s) => SectionView::Expr(s@),
        }
    }
}

/// Where the splitting of a string stands.
pub struct SplitState {
    /// The sections found so far.
    pub done: Seq<SectionView>,
    /// Whether an expression is being read.
    pub in_expr: bool,
    /// Where the section that is being read begins.
    pub last: int,
    /// How many braces are open inside the expression.
    pub layers: nat,
}

/// The state after the character at position `i` of `s` was looked at.
///
/// `#{` begins an expression and ends the literal before it; inside an
/// expression braces nest, and the `}` that closes none of them ends it.
pub open spec fn split_step(s: Seq<char>, i: int, st: SplitState) -> SplitState {
    let c = s[i];
    if c == '{' && i > 0 && s[i - 1] == '#' {
        SplitState {
            done: st.done.push(
                SectionView::Literal(
                    if st.last <= i - 1 {
                        s.subrange(st.last, i - 1)
                    } else {
                        Seq::empty()
                    },
                ),
            ),
            in_expr: true,
            last: i + 1,
            layers: st.layers,
        }
    } else if c == '{' && st.in_expr {
        SplitState { layers: st.layers + 1, ..st }
    } else if c == '}' && st.in_expr {
        if st.layers == 0 {
            SplitState {
                done: st.done.push(
                    SectionView::Expr(
                        if st.last <= i {
                            s.subrange(st.last, i)
                        } else {
                            Seq::empty()
                        },
                    ),
                ),
                in_expr: false,
                last: i + 1,
                layers: 0,
            }
        } else {
            SplitState { layers: (st.layers - 1) as nat, ..st }
        }
    } else {
        st
    }
}

/// The state after the first `n` characters of `s`.
pub open spec fn split_state(s: Seq<char>, n: nat) -> SplitState
    decreases n,
{
    if n == 0 {
        SplitState { done: Seq::empty(), in_expr: false, last: 0, layers: 0 }
    } else {
        split_step(s, n - 1, split_state(s, (n - 1) as nat))
    }
}

/// The sections of `s`; `None` where an expression is not closed. What is
/// left behind the last section is a literal.
pub open spec fn sections_of(s: Seq<char>) -> Option<Seq<SectionView>> {
    let st = split_state(s, s.len());
    if st.in_expr {
        None
    } else if st.last != s.len() {
        Some(st.done.push(SectionView::Literal(s.subrange(st.last, s.len() as int))))
    } else {
        Some(st.done)
    }
}

/// The error of a string whose last expression is not closed.
pub open spec fn unclosed_error() -> ExprView {
    syntax_error(32, "unclosed expression while interpolating string"@)
}

fn slice(chars: &Vec<char>, from: usize, to: usize) -> (r: String)
    requires
        to <= chars@.len(),
    ensures
        r@ == (if from <= to {
            chars@.subrange(from as int, to as int)
        } else {
            Seq::empty()
        }),
{
    let mut out: Vec<char> = Vec::new();
    let mut i = from;
    while i < to
        invariant
            from <= i,
            from <= to ==> i <= to,
            to <= chars@.len(),
            out@ == (if from <= to {
                chars@.subrange(from as int, i as int)
            } else {
                Seq::empty()
            }),
        decreases to - i,
    {
        out.push(chars[i]);
        assert(out@ =~= chars@.subrange(from as int, i as int + 1));
        i += 1;
    }
    string_of(&out)
}

/// Splits a string into its literal parts and its expressions, as
/// [`sections_of`] says; an expression that is not closed gives a syntax
/// error with code 32.
pub fn split_str(s: &str) -> (r: Result<Vec<StrSection>, Exception>)
    ensures
        match sections_of(s@) {
            Some(sections) => r is Ok && r->Ok_0@.map_values(|x: StrSection| x@) == sections,
            None => r is Err && ExprView::Error(r->Err_0@) == unclosed_error(),
        },
{
    let chars = chars_of(s);
    let mut done: Vec<StrSection> = Vec::new();
    let mut in_expr = false;
    let mut last: usize = 0;
    let mut layers: usize = 0;
    let mut i: usize = 0;
    assert(done@.map_values(|x: StrSection| x@) =~= Seq::empty());
    while i < chars.len()
        invariant
            i <= chars.len(),
            chars@ == s@,
            last <= i,
            layers <= i,
            split_state(s@, i as nat) == (SplitState {
                done: done@.map_values(|x: StrSection| x@),
                in_expr,
                last: last as int,
                layers: layers as nat,
            }),
        decreases chars.len() - i,
    {
        let c = chars[i];
        let ghost before = done@.map_values(|x: StrSection| x@);
        if c == '{' && i > 0 && chars[i - 1] == '#' {
            let section = StrSection::Literal(slice(&chars, last, i - 1));
            let ghost sv = section@;
            done.push(section);
            assert(done@.map_values(|x: StrSection| x@) =~= before.push(sv));
            in_expr = true;
            last = i + 1;
        } else if c == '{' && in_expr {
            layers += 1;
        } else if c == '}' && in_expr {
            if layers == 0 {
                let section = StrSection::Expr(slice(&chars, last, i));
                let ghost sv = section@;
                done.push(section);
                assert(done@.map_values(|x: StrSection| x@) =~= before.push(sv));
                in_expr = false;
                last = i + 1;
            } else {
                layers -= 1;
            }
        }
        i += 1;
    }
    if in_expr {
        return Err(Exception::syntax(32, "unclosed expression while interpolating string"));
    }
    if last != chars.len() {
        let ghost before = done@.map_values(|x: StrSection| x@);
        let section = StrSection::Literal(slice(&chars, last, chars.len()));
        let ghost sv = section@;
        done.push(section);
        assert(done@.map_values(|x: StrSection| x@) =~= before.push(sv));
    }
    Ok(done)
}

/// The literal sections put together; `None` where one of the sections is
/// an expression.
pub open spec fn literal_text(sections: Seq<SectionView>) -> Option<Seq<char>>
    decreases sections.len(),
{
    if sections.len() == 0 {
        Some(Seq::empty())
    } else {
        match (literal_text(sections.drop_last()), sections.last()) {
            (Some(t), SectionView::Literal(s)) => Some(t + s),
            _ => None,
        }
    }
}

/// Puts the sections together: a literal as it is; for an expression its
/// first expression is read and evaluated in a scope of its own, and its
/// value is written out, a string without its quotes. An error ends the
/// formatting and is the result.
pub(crate) fn format_str<H: Host>(
    sections: &Vec<StrSection>,
    ctx: &mut Context,
    host: &mut H,
    depth: usize,
) -> (r: Expression)
    ensures
        frame(old(ctx)@, final(ctx)@),
        r@ is Str || r@ is Error,
        literal_text(sections@.map_values(|x: StrSection| x@)) matches Some(t) ==> r@
            == ExprView::Str(t) && final(ctx)@ == old(ctx)@,
    decreases depth, 2int,
{
    let mut buf = String::new();
    let mut i: usize = 0;
    let ghost all = sections@.map_values(|x: StrSection| x@);
    assert(all.subrange(0, 0) =~= Seq::empty());
    while i < sections.len()
        invariant
            i <= sections.len(),
            frame(old(ctx)@, ctx@),
            all == sections@.map_values(|x: StrSection| x@),
            literal_text(all) is Some ==> literal_text(all.subrange(0, i as int)) == Some(buf@)
                && ctx@ == old(ctx)@,
        decreases sections.len() - i,
    {
        proof {
            let ghost prefix = all.subrange(0, i as int + 1);
            assert(prefix.drop_last() =~= all.subrange(0, i as int));
            assert(prefix.last() == sections@[i as int]@);
            if literal_text(all) is Some {
                lemma_literal_prefix(all, i as int + 1);
            }
        }
        match &sections[i] {
            StrSection::Literal(s) => {
                buf.append(s.as_str());
            },
            StrSection::Expr(s) => {
                let mut parser = Parser::new(s.as_str());
                match parser.parse_expr(&*host) {
                    Some(expr) => {
                        ctx.ascend_scope();
                        let value = eval_at(&expr, ctx, host, depth);
                        ctx.descend_scope();
                        match &value {
                            Expression::Error(_) => {
                                return value;
                            },
                            Expression::Str(text) => {
                                buf.append(text.as_str());
                            },
                            other => {
                                buf.append(other.to_text(&*host).as_str());
                            },
                        }
                    },
                    None => {
                        return fail(
                            Exception::syntax(
                                31,
                                "format string must contain expression to interpolate",
                            ),
                        );
                    },
                }
            },
        }
        i += 1;
    }
    assert(all.subrange(0, i as int) =~= all);
    Expression::Str(buf)
}

/// Where all sections are literals, so are the first `n`.
pub proof fn lemma_literal_prefix(sections: Seq<SectionView>, n: int)
    requires
        0 <= n <= sections.len(),
        literal_text(sections) is Some,
    ensures
        literal_text(sections.subrange(0, n)) is Some,
    decreases sections.len(),
{
    if n < sections.len() {
        lemma_literal_prefix(sections.drop_last(), n);
        assert(sections.drop_last().subrange(0, n) =~= sections.subrange(0, n));
    } else {
        assert(sections.subrange(0, n) =~= sections);
    }
}

/// What `format` gives where nothing is evaluated: for another number of
/// arguments than one, for an argument that is no string, and for a string
/// with an expression that is not closed or with no expression at all,
/// which is taken as it stands.
pub open spec fn format_leaf(args: Seq<ExprView>) -> Option<ExprView> {
    if args.len() != 1 {
        Some(arity_error(1, args.len() as usize))
    } else {
        match args[0] {
            ExprView::Str(s) => match sections_of(s) {
                None => Some(unclosed_error()),
                Some(sections) => match literal_text(sections) {
                    Some(t) => Some(ExprView::Str(t)),
                    None => None,
                },
            },
            other => Some(signature_error("str"@, kind_name(other))),
        }
    }
}

/// `format :: string -> string`
///
/// Puts the values of the expressions between `#{` and `}` into its one
/// argument, a string.
pub fn format<H: Host>(args: &Vec<Expression>, ctx: &mut Context, host: &mut H) -> (r:
    Expression)
    ensures
        frame(old(ctx)@, final(ctx)@),
        format_leaf(views_of(args@)) matches Some(v) ==> r@ == v && final(ctx)@ == old(ctx)@,
{
    let depth = ctx.depth_limit();
    format_at(args, ctx, host, depth)
}

pub(crate) fn format_at<H: Host>(
    args: &Vec<Expression>,
    ctx: &mut Context,
    host: &mut H,
    depth: usize,
) -> (r: Expression)
    ensures
        frame(old(ctx)@, final(ctx)@),
        format_leaf(views_of(args@)) matches Some(v) ==> r@ == v && final(ctx)@ == old(ctx)@,
    decreases depth, 3int,
{
    proof {
        lemma_views_of(args@);
    }
    if args.len() == 1 {
        match &args[0] {
            Expression::Str(s) => match split_str(s.as_str()) {
                Ok(sections) => format_str(&sections, ctx, host, depth),
                Err(e) => fail(e),
            },
            other => fail(Exception::signature("str", other.type_of().as_str())),
        }
    } else {
        fail(Exception::arity(1, args.len()))
    }
}

} // verus!
