//! The evaluator: symbol lookup, calls, quoting, and the application of
//! lambdas and built-in functions.

use crate::context::{Context, ContextView};
use crate::display::{shows, text_of, written};
use crate::exception::{Exception, ExceptionDataView, ExceptionView};
use crate::expression::{
    bindings_of, lemma_bindings_of, lemma_views_of, lemma_views_of_push, views_of, Callable,
    CallableView, ExprView, Expression, Intrinsic, LambdaData, MacroView, SpecialForm,
};
use crate::host::Host;
use crate::list::ExprList;
use crate::macros::apply_macro;
use crate::semantics::{
    agrees, args_agree, args_spec, bind_all, bind_params, call_spec, eval_spec, head_value,
    intrinsic_spec, lambda_scope, mismatched, lambda_spec, quasi_all, quasi_spec, traced, uncallable_head,
};
use crate::util::nil;
use std::rc::Rc;
use vstd::prelude::*;
use vstd::string::StringExecFns;

verus! {

/// The code of the error that an evaluation nested too deep gives.
pub const DEPTH_ERROR: u16 = 41;

/// What every evaluation leaves as it found it: the number of scopes and
/// the depth limit; and the counter of struct types never goes back.
pub open spec fn frame(before: ContextView, after: ContextView) -> bool {
    &&& after.scopes.len() == before.scopes.len()
    &&& after.depth_limit == before.depth_limit
    &&& after.struct_count >= before.struct_count
}

/// An error value with an empty trace.
pub open spec fn error_of(data: ExceptionDataView) -> ExprView {
    ExprView::Error(ExceptionView { stack: Seq::empty(), data })
}

/// The error of a call with the wrong number of arguments.
pub open spec fn arity_error(expected: usize, found: usize) -> ExprView {
    error_of(ExceptionDataView::Arity(expected, found))
}

/// A syntax error with an empty trace.
pub open spec fn syntax_error(code: u16, text: Seq<char>) -> ExprView {
    error_of(ExceptionDataView::Syntax(code, text))
}

/// A custom error with an empty trace.
pub open spec fn custom_error(code: u16, text: Seq<char>) -> ExprView {
    error_of(ExceptionDataView::Custom(code, text))
}

/// A signature error with an empty trace.
pub open spec fn signature_error(expected: Seq<char>, found: Seq<char>) -> ExprView {
    error_of(ExceptionDataView::Signature(expected, found))
}

/// The value nil: the empty list.
pub open spec fn nil_view() -> ExprView {
    ExprView::Cons(Seq::empty())
}

/// The error of an evaluation that nested deeper than the limit.
pub open spec fn depth_error() -> ExprView {
    error_of(ExceptionDataView::Custom(DEPTH_ERROR, "evaluation nested too deep"@))
}

/// The error of an `unquote` that is called like a function.
pub open spec fn unquote_error() -> ExprView {
    error_of(
        ExceptionDataView::Syntax(33, "unquote expression must be contained in a quasiquote"@),
    )
}

/// The error of a call whose head is the value `f`, which is not callable.
pub open spec fn not_callable_error(f: ExprView) -> ExprView {
    error_of(ExceptionDataView::Custom(3, "not a callable value: `"@ + text_of(f) + "`"@))
}

/// The number of arguments of the call `list`: its items but the head.
pub open spec fn argc(list: Seq<ExprView>) -> usize {
    if list.len() == 0 {
        0
    } else {
        (list.len() - 1) as usize
    }
}

/// The value that stands for a failed evaluation.
pub fn fail(ex: Exception) -> (r: Expression)
    ensures
        r@ == ExprView::Error(ex@),
{
    Expression::Error(Rc::new(ex))
}

/// What the evaluation of the call `site` gives once the call itself has
/// given `value`: an error gets the call put in front of its trace, any
/// other value is the result as it is.
pub fn trace(value: Expression, site: &Expression) -> (r: Expression)
    ensures
        r@ == crate::semantics::traced(value@, site@),
{
    match &value {
        Expression::Error(ex) => fail(ex.extend(site)),
        _ => value,
    }
}

/// The number of arguments of the call `list`.
pub fn arg_count(list: &ExprList) -> (n: usize)
    ensures
        n == argc(list@),
        n == crate::semantics::rest(list@).len(),
{
    let len = list.len();
    if len == 0 {
        0
    } else {
        len - 1
    }
}

/// What a struct accessor gives: the field at `index` of its one argument.
pub open spec fn field_result(index: usize, args: Seq<ExprView>) -> ExprView {
    if args.len() == 1 {
        match args[0] {
            ExprView::Struct(d) => if index < d.data.len() {
                d.data[index as int]
            } else {
                error_of(ExceptionDataView::Custom(29, "struct does not contain specified field"@))
            },
            _ => error_of(ExceptionDataView::Custom(29, "struct does not contain specified field"@)),
        }
    } else {
        arity_error(1, args.len() as usize)
    }
}

/// Reads the field at `index` of the one argument, a struct. An argument
/// that is no struct, or a struct without that field, gives a custom error
/// with code 29; another number of arguments than one an arity error.
pub fn struct_field(index: usize, args: &Vec<Expression>) -> (r: Expression)
    ensures
        r@ == field_result(index, views_of(args@)),
{
    proof {
        lemma_views_of(args@);
    }
    if args.len() == 1 {
        match &args[0] {
            Expression::Struct(d) => {
                proof {
                    lemma_views_of(d.data@);
                }
                if index < d.data.len() {
                    d.data[index].clone()
                } else {
                    fail(Exception::custom(29, "struct does not contain specified field"))
                }
            },
            _ => fail(Exception::custom(29, "struct does not contain specified field")),
        }
    } else {
        fail(Exception::arity(1, args.len()))
    }
}

/// What a struct predicate gives: whether its one argument is a struct
/// whose type name has the id `id` in `ctx`.
pub open spec fn check_result(id: usize, args: Seq<ExprView>, ctx: ContextView) -> bool {
    args.len() == 1 && (args[0] matches ExprView::Struct(d) && ctx.struct_id(d.name) == Some(id))
}

/// Tells whether the one argument is a struct of the type with the id
/// `id`: its type name is looked up in `ctx` and the ids are compared.
pub fn struct_check(id: usize, args: &Vec<Expression>, ctx: &Context) -> (r: Expression)
    ensures
        r@ == ExprView::Bool(check_result(id, views_of(args@), ctx@)),
{
    proof {
        lemma_views_of(args@);
    }
    if args.len() == 1 {
        match &args[0] {
            Expression::Struct(d) => {
                match ctx.get_struct_id(d.name.as_str()) {
                    Some(found) => Expression::Bool(found == id),
                    None => Expression::Bool(false),
                }
            },
            _ => Expression::Bool(false),
        }
    } else {
        Expression::Bool(false)
    }
}

/// What `set!` gives.
pub open spec fn assign_result(args: Seq<ExprView>, ctx: ContextView) -> ExprView {
    if args.len() == 2 {
        match args[0] {
            ExprView::Symbol(name) => if ctx.lookup(name) is Some {
                ExprView::Cons(Seq::empty())
            } else {
                error_of(ExceptionDataView::Undefined(name))
            },
            other => error_of(
                ExceptionDataView::Signature("symbol"@, crate::expression::kind_name(other)),
            ),
        }
    } else {
        arity_error(2, args.len() as usize)
    }
}

/// The context that `set!` leaves.
pub open spec fn assign_effect(args: Seq<ExprView>, ctx: ContextView) -> ContextView {
    if args.len() == 2 {
        match args[0] {
            ExprView::Symbol(name) => ctx.assign(name, args[1]),
            _ => ctx,
        }
    } else {
        ctx
    }
}

/// `set!`: replaces the value of the symbol that is the first argument by
/// the second argument, in the innermost scope that binds the symbol, and
/// gives nil. An unbound symbol gives an undefined-symbol error, a first
/// argument that is no symbol a signature error, and another number of
/// arguments than two an arity error; none of these changes the context.
pub fn set(args: &Vec<Expression>, ctx: &mut Context) -> (r: Expression)
    ensures
        r@ == assign_result(views_of(args@), old(ctx)@),
        final(ctx)@ == assign_effect(views_of(args@), old(ctx)@),
{
    proof {
        lemma_views_of(args@);
    }
    if args.len() == 2 {
        match &args[0] {
            Expression::Symbol(name) => {
                if ctx.assign(name.as_str(), args[1].clone()) {
                    nil()
                } else {
                    fail(Exception::undefined(name.as_str()))
                }
            },
            other => fail(Exception::signature("symbol", other.type_of().as_str())),
        }
    } else {
        fail(Exception::arity(2, args.len()))
    }
}

/// Whether the intrinsic `f` gives its result from its arguments and from
/// how the host prints and reads numbers alone, and leaves the context as
/// it is.
pub open spec fn textual(f: Intrinsic) -> bool {
    f is Compare || f is Quaternion || f is Concat || f is Parse
}

/// Whether `r` is what the intrinsic `f` gives for the arguments `args`,
/// as far as that goes by how the host prints and reads numbers: the
/// signature error of a comparison or of `quaternion` shows the arguments as
/// the host prints them, `string-concat` runs together what the host
/// prints, and `parse` gives a reading of the first expression of its text.
pub open spec fn applied<H: Host>(host: &H, f: Intrinsic, args: Seq<ExprView>, r: ExprView) -> bool {
    match f {
        Intrinsic::Compare(_) => args.len() == 2 && !(args[0] is Num && args[1] is Num)
            ==> exists|parts: Seq<Seq<char>>|
            #![trigger written(host, args, parts)]
            written(host, args, parts) && r == signature_error(
                "(num, num)"@,
                "("@ + parts[0] + ", "@ + parts[1] + ")"@,
            ),
        Intrinsic::Quaternion => crate::numeric::quaternion_result(args) is None ==> exists|
            parts: Seq<Seq<char>>,
        |
            #![trigger written(host, args, parts)]
            written(host, args, parts) && r == signature_error(
                "(num, num, num, num)"@,
                "("@ + parts[0] + ", "@ + parts[1] + ", "@ + parts[2] + ", "@ + parts[3] + ")"@,
            ),
        Intrinsic::Concat => exists|parts: Seq<Seq<char>>|
            #![trigger written(host, args, parts)]
            written(host, args, parts) && r == ExprView::Str(
                crate::intrinsics::run_together(parts),
            ),
        Intrinsic::Parse => args.len() == 1 && args[0] is Str ==> (crate::grammar::read_expr(
            args[0]->Str_0,
        ) matches Some(rd) ==> match rd.tree {
            Some(t) => crate::grammar::reads_as(host, t, r),
            None => r == crate::parser::quoted_nil(),
        }),
        _ => true,
    }
}

/// Whether `r` and `after` are what calling `f` on the call list `list` in
/// the context `c` gives, as far as the arguments are evaluated without the
/// host:
/// - an intrinsic gives what [`applied`] says of the evaluated arguments;
/// - a lambda with another number of parameters than arguments gives an
///   error; where no argument gives one, it is the arity error of the two
///   numbers, in the context that the arguments left, and the body is not
///   evaluated;
/// - a pattern macro whose pattern the call does not match gives what
///   [`mismatched`] says;
/// - `let` with a malformed binding and `try` with a handler that is no
///   callable give what [`crate::macros::let_stopped`] and
///   [`crate::macros::try_refused`] say;
/// - a value that is neither callable nor an error gives the custom error
///   with code 3 that shows the value, in the context as it was.
pub open spec fn called<H: Host>(
    host: &H,
    f: ExprView,
    list: Seq<ExprView>,
    c: ContextView,
    depth: usize,
    r: ExprView,
    after: ContextView,
) -> bool {
    let args = args_spec(crate::semantics::rest(list), 0, Seq::empty(), c, depth);
    match f {
        ExprView::Error(_) => true,
        ExprView::Callable(callable) => match callable {
            CallableView::Intrinsic(i) => args matches Some((Ok(values), c1)) ==> applied(
                host,
                i,
                values,
                r,
            ) && (textual(i) ==> after == c1),
            CallableView::Lambda(l) => l.params.len() != argc(list) ==> r is Error && (
            args matches Some((Ok(_), c1)) ==> r == arity_error(l.params.len() as usize, argc(list))
                && after == c1),
            CallableView::Macro(m) => match m {
                MacroView::Rule(rule) => mismatched(host, rule, list, c, r, after),
                MacroView::Form(SpecialForm::Let) => crate::macros::let_stopped(
                    host,
                    list,
                    c,
                    depth,
                    r,
                    after,
                ),
                MacroView::Form(SpecialForm::Try) => crate::macros::try_refused(
                    host,
                    list,
                    c,
                    depth,
                    r,
                    after,
                ),
                _ => true,
            },
            _ => true,
        },
        other => after == c && exists|t: Seq<char>|
            #![trigger shows(host, other, t)]
            shows(host, other, t) && r == custom_error(3, "not a callable value: `"@ + t + "`"@),
    }
}

/// Whether a lambda with these parameters can be applied to `found`
/// arguments.
pub open spec fn arity_matches(params: Seq<ExprView>, found: nat) -> bool {
    params.len() == found
}

impl Expression {
    /// Evaluates the expression in `ctx`.
    ///
    /// A symbol gives the value it is bound to, or an undefined-symbol
    /// error. The empty list, and every value that is neither a symbol nor a
    /// list, gives itself. A list is a call: its head is evaluated and then
    /// called on the list. An error that a call gives has the call put in
    /// front of its trace. Calls nest no deeper than the context's depth
    /// limit; one that would gives a custom error with code 41.
    ///
    /// Whatever is evaluated, the context ends with as many scopes as it
    /// began with; and where the evaluation asks nothing of the host, the
    /// result and the context are those of [`eval_spec`]. A call whose head
    /// has a value that is neither callable nor an error gives the custom
    /// error with code 3 that shows the value, and none of its arguments is
    /// evaluated. Of a call whose result shows or reads a number as the
    /// host does, [`called`] says what it gives.
    pub fn eval<H: Host>(&self, ctx: &mut Context, host: &mut H) -> (r: Expression)
        ensures
            frame(old(ctx)@, final(ctx)@),
            agrees(eval_spec(self@, old(ctx)@, old(ctx)@.depth_limit), r@, final(ctx)@),
            head_value(self@, old(ctx)@, old(ctx)@.depth_limit) matches Some(head) ==> exists|
                v: ExprView,
            |
                #![trigger traced(v, self@)]
                called(
                    &*final(host),
                    head.0,
                    self@->Cons_0,
                    head.1,
                    (old(ctx)@.depth_limit - 1) as usize,
                    v,
                    final(ctx)@,
                ) && r@ == traced(v, self@),
            uncallable_head(self@, old(ctx)@, old(ctx)@.depth_limit) matches Some(head) ==> final(ctx)@ == head.1 && exists|t: Seq<char>|
                #![trigger shows(&*final(host), head.0, t)]
                shows(&*final(host), head.0, t) && r@ == traced(
                    custom_error(3, "not a callable value: `"@ + t + "`"@),
                    self@,
                ),
    {
        let depth = ctx.depth_limit();
        eval_at(self, ctx, host, depth)
    }

    /// Calls the value on the call list `list`, whose head stands for the
    /// value itself and whose other items are the arguments.
    ///
    /// `quote` and `quasiquote` take one argument; `quote` gives it as it
    /// is. `unquote` gives a syntax error with code 33. A macro receives the
    /// list unevaluated. For an intrinsic or a lambda the arguments are
    /// evaluated from left to right, and the first error among them is the
    /// result. An error that is called gives itself, and any other value a
    /// custom error with code 3. A lambda gives an error unless it has as
    /// many arguments as parameters. Where the call asks nothing of the
    /// host, the result and the context are those of [`call_spec`]; where
    /// the result shows or reads a number as the host does, [`called`] says
    /// what it is.
    pub fn call<H: Host>(&self, list: &ExprList, ctx: &mut Context, host: &mut H) -> (r:
        Expression)
        ensures
            frame(old(ctx)@, final(ctx)@),
            self@ matches ExprView::Callable(_) || r@ is Error,
            agrees(call_spec(self@, list@, old(ctx)@, old(ctx)@.depth_limit), r@, final(ctx)@),
            called(
                &*final(host),
                self@,
                list@,
                old(ctx)@,
                old(ctx)@.depth_limit,
                r@,
                final(ctx)@,
            ),
            self@ matches ExprView::Callable(CallableView::Lambda(l)) && l.params.len() != argc(list@)
            ==> r@ is Error,
        !(self@ is Callable) && !(self@ is Error) ==> final(ctx)@ == old(ctx)@ && *final(host) == *old(host) && exists|
                t: Seq<char>,
            |
                #![trigger shows(&*old(host), self@, t)]
                shows(&*old(host), self@, t) && r@ == custom_error(
                    3,
                    "not a callable value: `"@ + t + "`"@,
                ),
    {
        let depth = ctx.depth_limit();
        call_at(self, list, ctx, host, depth)
    }
}

/// Evaluates `expr` with calls nested at most `depth` deep.
pub(crate) fn eval_at<H: Host>(
    expr: &Expression,
    ctx: &mut Context,
    host: &mut H,
    depth: usize,
) -> (r: Expression)
    ensures
        frame(old(ctx)@, final(ctx)@),
        agrees(eval_spec(expr@, old(ctx)@, depth), r@, final(ctx)@),
        head_value(expr@, old(ctx)@, depth) matches Some(head) ==> exists|v: ExprView|
            #![trigger traced(v, expr@)]
            called(
                &*final(host),
                head.0,
                expr@->Cons_0,
                head.1,
                (depth - 1) as usize,
                v,
                final(ctx)@,
            ) && r@ == traced(v, expr@),
        uncallable_head(expr@, old(ctx)@, depth) matches Some(head) ==> final(ctx)@ == head.1
            && exists|t: Seq<char>|
            #![trigger shows(&*final(host), head.0, t)]
            shows(&*final(host), head.0, t) && r@ == traced(
                custom_error(3, "not a callable value: `"@ + t + "`"@),
                expr@,
            ),
    decreases depth, 0int,
{
    match expr {
        Expression::Symbol(name) => {
            match ctx.get(name.as_str()) {
                Some(value) => value.clone(),
                None => fail(Exception::undefined(name.as_str())),
            }
        },
        Expression::Cons(list) => {
            match list.head() {
                None => expr.clone(),
                Some(head) => {
                    if depth == 0 {
                        return fail(Exception::custom(DEPTH_ERROR, "evaluation nested too deep"));
                    }
                    let func = eval_at(&head, ctx, host, depth - 1);
                    let r = call_at(&func, list, ctx, host, depth - 1);
                    proof {
                        if head_value(expr@, old(ctx)@, depth) is Some {
                            assert(called(
                                &*host,
                                func@,
                                list@,
                                head_value(expr@, old(ctx)@, depth).unwrap().1,
                                (depth - 1) as usize,
                                r@,
                                ctx@,
                            ) && traced(r@, expr@) == traced(r@, expr@));
                        }
                    }
                    trace(r, expr)
                },
            }
        },
        _ => expr.clone(),
    }
}

/// Calls `func` on the call list `list` with calls nested at most `depth`
/// deep.
pub(crate) fn call_at<H: Host>(
    func: &Expression,
    list: &ExprList,
    ctx: &mut Context,
    host: &mut H,
    depth: usize,
) -> (r: Expression)
    ensures
        frame(old(ctx)@, final(ctx)@),
        func@ matches ExprView::Callable(_) || r@ is Error,
        agrees(call_spec(func@, list@, old(ctx)@, depth), r@, final(ctx)@),
        called(&*final(host), func@, list@, old(ctx)@, depth, r@, final(ctx)@),
        func@ matches ExprView::Callable(CallableView::Lambda(l)) && l.params.len() != argc(list@)
            ==> r@ is Error,
        !(func@ is Callable) && !(func@ is Error) ==> final(ctx)@ == old(ctx)@ && *final(host) == *old(host) && exists|
            t: Seq<char>,
        |
            #![trigger shows(&*old(host), func@, t)]
            shows(&*old(host), func@, t) && r@ == custom_error(
                3,
                "not a callable value: `"@ + t + "`"@,
            ),
    decreases depth, 5int,
{
    match func {
        Expression::Error(_) => func.clone(),
        Expression::Callable(c) => {
            match c {
                Callable::Quote => {
                    let n = arg_count(list);
                    if n == 1 {
                        match list.nth(1) {
                            Some(arg) => (*arg).clone(),
                            None => nil(),
                        }
                    } else {
                        fail(Exception::arity(1, n))
                    }
                },
                Callable::Quasiquote => {
                    let n = arg_count(list);
                    if n == 1 {
                        match list.nth(1) {
                            Some(arg) => quasiquote_at(&arg, ctx, host, depth),
                            None => nil(),
                        }
                    } else {
                        fail(Exception::arity(1, n))
                    }
                },
                Callable::Unquote => fail(
                    Exception::syntax(33, "unquote expression must be contained in a quasiquote"),
                ),
                Callable::Macro(m) => apply_macro(m, list, ctx, host, depth),
                Callable::Intrinsic(i) => {
                    let rest = list.skip(1);
                    assert(rest@ =~= crate::semantics::rest(list@));
                    match eval_args(&rest, ctx, host, depth) {
                        Ok(args) => apply_intrinsic(*i, &args, ctx, host, depth),
                        Err(e) => e,
                    }
                },
                Callable::Lambda(data) => {
                    let rest = list.skip(1);
                    assert(rest@ =~= crate::semantics::rest(list@));
                    let given = arg_count(list);
                    match eval_args(&rest, ctx, host, depth) {
                        Ok(args) => eval_lambda(data, args, ctx, host, depth),
                        Err(e) => e,
                    }
                },
            }
        },
        other => {
            let mut msg = String::from_str("not a callable value: `");
            let t = other.to_text(&*host);
            msg.append(t.as_str());
            msg.append("`");
            assert(shows(&*old(host), func@, t@));
            fail(Exception::custom(3, msg.as_str()))
        },
    }
}

/// Evaluates the items of `list` from left to right, with calls nested at
/// most `depth` deep. The first error stops the evaluation and is the
/// result. These are the arguments that an intrinsic or a lambda is handed.
pub fn eval_args<H: Host>(
    list: &ExprList,
    ctx: &mut Context,
    host: &mut H,
    depth: usize,
) -> (r: Result<Vec<Expression>, Expression>)
    ensures
        frame(old(ctx)@, final(ctx)@),
        match r {
            Ok(args) => args@.len() == list@.len() && forall|i: int|
                0 <= i < args@.len() ==> !((#[trigger] args@[i])@ is Error),
            Err(e) => e@ is Error && list@.len() > 0,
        },
        list@.len() == 0 ==> final(ctx)@ == old(ctx)@,
        args_agree(
            args_spec(list@, 0, Seq::empty(), old(ctx)@, depth),
            match r {
                Ok(args) => Ok(views_of(args@)),
                Err(e) => Err(e@),
            },
            final(ctx)@,
        ),
    decreases depth, 1int,
{
    let items = list.to_vec();
    let mut args: Vec<Expression> = Vec::new();
    let mut i: usize = 0;
    let ghost whole = args_spec(list@, 0, Seq::empty(), old(ctx)@, depth);
    assert(views_of(args@) =~= Seq::empty());
    while i < items.len()
        invariant
            i <= items.len(),
            items@.len() == list@.len(),
            forall|j: int| 0 <= j < items@.len() ==> (#[trigger] items@[j])@ == list@[j],
            args@.len() == i,
            frame(old(ctx)@, ctx@),
            list@.len() == 0 ==> ctx@ == old(ctx)@,
            forall|j: int| 0 <= j < args@.len() ==> !((#[trigger] args@[j])@ is Error),
            whole == args_spec(list@, 0, Seq::empty(), old(ctx)@, depth),
            whole is Some ==> whole == args_spec(list@, i as nat, views_of(args@), ctx@, depth),
        decreases items.len() - i,
    {
        let ghost before = args@;
        let value = eval_at(&items[i], ctx, host, depth);
        if value.is_exception() {
            return Err(value);
        }
        args.push(value);
        proof {
            lemma_views_of_push(before, value);
        }
        i += 1;
    }
    Ok(args)
}

/// Applies a lambda to evaluated arguments.
///
/// With another number of arguments than parameters the result is an arity
/// error, and nothing is bound. Otherwise a new scope is entered, the
/// captured bindings are made in it, then each parameter is bound to its
/// argument, the body is evaluated, and the scope is left again.
pub fn eval_lambda<H: Host>(
    data: &LambdaData,
    args: Vec<Expression>,
    ctx: &mut Context,
    host: &mut H,
    depth: usize,
) -> (r: Expression)
    ensures
        frame(old(ctx)@, final(ctx)@),
        !arity_matches(data@.params, args@.len()) ==> r@ == arity_error(
            data@.params.len() as usize,
            args@.len() as usize,
        ) && final(ctx)@ == old(ctx)@ && *final(host) == *old(host),
        agrees(lambda_spec(data@, views_of(args@), old(ctx)@, depth), r@, final(ctx)@),
    decreases depth, 4int,
{
    proof {
        lemma_views_of(args@);
    }
    let params = data.params.to_vec();
    if params.len() != args.len() {
        return fail(Exception::arity(params.len(), args.len()));
    }
    ctx.ascend_scope();
    let ghost captured = match data@.capture {
        Some(bindings) => bind_all(old(ctx)@.push(), bindings, bindings.len()),
        None => old(ctx)@.push(),
    };
    match &data.capture {
        Some(capture) => {
            proof {
                lemma_bindings_of(capture@);
            }
            let mut i: usize = 0;
            while i < capture.len()
                invariant
                    i <= capture.len(),
                    bindings_of(capture@).len() == capture@.len(),
                    forall|j: int|
                        0 <= j < capture@.len() ==> #[trigger] bindings_of(capture@)[j] == (
                            capture@[j].0@,
                            capture@[j].1@,
                        ),
                    ctx@ == bind_all(old(ctx)@.push(), bindings_of(capture@), i as nat),
                    ctx@.scopes.len() == old(ctx)@.scopes.len() + 1,
                    ctx@.depth_limit == old(ctx)@.depth_limit,
                    ctx@.struct_count == old(ctx)@.struct_count,
                decreases capture.len() - i,
            {
                ctx.insert(capture[i].0.as_str(), capture[i].1.clone());
                i += 1;
            }
        },
        None => {},
    }
    assert(ctx@ == captured);
    let mut k: usize = 0;
    while k < params.len()
        invariant
            k <= params.len(),
            params@.len() == args@.len(),
            params@.len() == data@.params.len(),
            forall|j: int| 0 <= j < params@.len() ==> (#[trigger] params@[j])@ == data@.params[j],
            views_of(args@).len() == args@.len(),
            forall|j: int| 0 <= j < args@.len() ==> #[trigger] views_of(args@)[j] == args@[j]@,
            ctx@ == bind_params(captured, data@.params, views_of(args@), k as nat),
            ctx@.scopes.len() == old(ctx)@.scopes.len() + 1,
            ctx@.depth_limit == old(ctx)@.depth_limit,
            ctx@.struct_count == old(ctx)@.struct_count,
        decreases params.len() - k,
    {
        match &*params[k] {
            Expression::Symbol(name) => {
                ctx.insert(name.as_str(), args[k].clone());
            },
            _ => {},
        }
        k += 1;
    }
    assert(ctx@ == lambda_scope(data@, views_of(args@), old(ctx)@));
    let r = eval_at(&data.body, ctx, host, depth);
    ctx.descend_scope();
    r
}

/// Evaluates under `quasiquote`: a list of two items whose head is
/// `unquote` gives the value of its second item; any other list gives the
/// list of its items treated the same way; everything else gives itself.
pub(crate) fn quasiquote_at<H: Host>(
    expr: &Expression,
    ctx: &mut Context,
    host: &mut H,
    depth: usize,
) -> (r: Expression)
    ensures
        frame(old(ctx)@, final(ctx)@),
        !(expr@ is Cons) ==> r@ == expr@ && final(ctx)@ == old(ctx)@,
        agrees(quasi_spec(expr@, old(ctx)@, depth), r@, final(ctx)@),
    decreases depth, 1int, expr@,
{
    match expr {
        Expression::Cons(list) => {
            let items = list.to_vec();
            if items.len() == 2 {
                match &*items[0] {
                    Expression::Callable(Callable::Unquote) => {
                        assert(list@[0] == ExprView::Callable(CallableView::Unquote));
                        return eval_at(&items[1], ctx, host, depth);
                    },
                    _ => {
                        assert(list@[0] != ExprView::Callable(CallableView::Unquote));
                    },
                }
            }
            let mut out: Vec<Expression> = Vec::new();
            let mut i: usize = 0;
            let ghost whole = quasi_all(list@, 0, Seq::empty(), old(ctx)@, depth);
            assert(views_of(out@) =~= Seq::empty());
            while i < items.len()
                invariant
                    i <= items.len(),
                    items@.len() == list@.len(),
                    forall|j: int| 0 <= j < items@.len() ==> (#[trigger] items@[j])@ == list@[j],
                    expr@ == ExprView::Cons(list@),
                    frame(old(ctx)@, ctx@),
                    whole == quasi_all(list@, 0, Seq::empty(), old(ctx)@, depth),
                    whole is Some ==> whole == quasi_all(
                        list@,
                        i as nat,
                        views_of(out@),
                        ctx@,
                        depth,
                    ),
                decreases items.len() - i,
            {
                proof {
                    let ghost ev = expr@;
                    assert(decreases_to!(ev => ev->Cons_0));
                    assert(decreases_to!(list@ => list@[i as int]));
                }
                let ghost before = out@;
                let item = quasiquote_at(&items[i], ctx, host, depth);
                out.push(item);
                proof {
                    lemma_views_of_push(before, item);
                }
                i += 1;
            }
            Expression::Cons(ExprList::from_vec(out))
        },
        other => other.clone(),
    }
}

/// Applies a built-in function to evaluated arguments. A native operation
/// of the host is handed its number, these arguments and the context; what
/// it gives is the result, and the context is then brought back to the
/// number of scopes, the depth limit and at least the counter of struct
/// types that it had.
pub fn apply_intrinsic<H: Host>(
    f: Intrinsic,
    args: &Vec<Expression>,
    ctx: &mut Context,
    host: &mut H,
    depth: usize,
) -> (r: Expression)
    ensures
        frame(old(ctx)@, final(ctx)@),
        f matches Intrinsic::Field(index) ==> r@ == field_result(index, views_of(args@))
            && final(ctx)@ == old(ctx)@,
        f matches Intrinsic::IsStruct(id) ==> r@ == ExprView::Bool(
            check_result(id, views_of(args@), old(ctx)@),
        ) && final(ctx)@ == old(ctx)@,
        f is Assign ==> r@ == assign_result(views_of(args@), old(ctx)@) && final(ctx)@
            == assign_effect(views_of(args@), old(ctx)@),
        f matches Intrinsic::Pure(b) ==> r@ == crate::functions::builtin_result(b, views_of(args@))
            && final(ctx)@ == old(ctx)@,
        textual(f) ==> final(ctx)@ == old(ctx)@ && *final(host) == *old(host),
        applied(&*old(host), f, views_of(args@), r@),
        agrees(intrinsic_spec(f, views_of(args@), old(ctx)@, depth), r@, final(ctx)@),
        f is Repeat ==> (crate::intrinsics::repeat_leaf(views_of(args@)) matches Some(v) ==> r@ == v
            && final(ctx)@ == old(ctx)@),
    decreases depth, 4int,
{
    proof {
        lemma_views_of(args@);
    }
    match f {
        Intrinsic::Field(index) => struct_field(index, args),
        Intrinsic::IsStruct(id) => struct_check(id, args, ctx),
        Intrinsic::Eval => {
            proof {
                lemma_views_of(args@);
            }
            if args.len() == 1 {
                eval_at(&args[0], ctx, host, depth)
            } else {
                fail(Exception::arity(1, args.len()))
            }
        },
        Intrinsic::Assign => {
            proof {
                lemma_assign_frame(views_of(args@), ctx@);
            }
            set(args, ctx)
        },
        Intrinsic::Pure(b) => crate::functions::apply_builtin(b, args),
        Intrinsic::Compare(kind) => crate::numeric::compare(kind, args, &*host),
        Intrinsic::Quaternion => crate::numeric::quaternion(args, &*host),
        Intrinsic::Parse => crate::intrinsics::parse(args, &*host),
        Intrinsic::Concat => crate::intrinsics::string_concat(args, &*host),
        Intrinsic::Format => crate::interpolate::format_at(args, ctx, host, depth),
        Intrinsic::Import => crate::import::import_at(args, ctx, host, depth),
        Intrinsic::Repeat => crate::intrinsics::repeat_at(args, ctx, host, depth),
        Intrinsic::Native(op) => {
            let scopes = ctx.depth();
            let count = ctx.struct_count();
            let limit = ctx.depth_limit();
            let r = host.call(op, args, ctx);
            ctx.settle(scopes, count, limit);
            r
        },
    }
}

/// `set!` changes neither the number of scopes nor anything but bindings.
pub proof fn lemma_assign_frame(args: Seq<ExprView>, ctx: ContextView)
    ensures
        frame(ctx, assign_effect(args, ctx)),
{
    if args.len() == 2 {
        match args[0] {
            ExprView::Symbol(name) => {
                crate::context::lemma_holder_in_range(ctx.scopes, name);
            },
            _ => {},
        }
    }
}

} // verus!
