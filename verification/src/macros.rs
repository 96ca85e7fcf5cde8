//! The special forms: built-in macros that receive their arguments
//! unevaluated.

use crate::capture::{capture_into, capture_of};
use crate::context::{
    law_inner_binding_shadows_and_outer_returns, law_push_pop, Context, ContextView,
};
use crate::display::{number_free, shows, text_of};
use crate::eval::{
    arg_count, argc, arity_error, custom_error, eval_args, eval_at, fail, frame,
    nil_view, signature_error, syntax_error,
};
use crate::exception::{code_of, message, Exception, ExceptionView};
use crate::expression::{
    bindings_of, is_reserved, kind_name, lemma_bindings_of, lemma_views_of, views_of, Callable,
    CallableView, ExprView, Expression, Intrinsic, LambdaData, LambdaView, Macro, MacroView,
    RuleView, SpecialForm, StructData, StructShape, StructView, SyntaxRule, ValidIdentifier,
};
use crate::host::Host;
use crate::list::ExprList;
use crate::number::{double_from_u16, double_of};
use crate::pattern::{pattern_match, replace_symbols};
use crate::semantics::{
    agrees, begin_spec, cond_from, cond_spec, construct_spec, define_spec, env_spec,
    eval_spec, if_spec, let_from, let_spec, let_walk, macro_spec, mismatched, rest, rule_spec,
    try_spec,
};
use crate::text::join2;
use crate::util::{nil, pair, wrap_begin};
use std::rc::Rc;
use std::sync::Arc;
use vstd::prelude::*;
use vstd::string::StringExecFns;

verus! {

/// The first of `items` that is no symbol.
pub open spec fn first_other(items: Seq<ExprView>) -> Option<ExprView>
    decreases items.len(),
{
    if items.len() == 0 {
        None
    } else if items[0] is Symbol {
        first_other(items.subrange(1, items.len() as int))
    } else {
        Some(items[0])
    }
}

/// Whether every one of `items` is a symbol.
pub open spec fn all_symbols(items: Seq<ExprView>) -> bool {
    first_other(items) is None
}

/// The body of a function: the one expression, or several wrapped in
/// `begin`.
pub open spec fn body_of(body: Seq<ExprView>) -> ExprView {
    if body.len() == 1 {
        body[0]
    } else {
        ExprView::Cons(seq![ExprView::Symbol("begin"@)] + body)
    }
}

/// The error of a malformed `lambda`.
pub open spec fn lambda_error() -> ExprView {
    syntax_error(17, "(lambda [args...] body)"@)
}

/// The lambda with the given parameters and body expressions, made in
/// `ctx`: it captures from `ctx` what its body refers to; or the error of a
/// parameter that is no symbol.
pub open spec fn lambda_of(params: Seq<ExprView>, body: Seq<ExprView>, ctx: ContextView) -> ExprView {
    if all_symbols(params) {
        ExprView::Callable(
            CallableView::Lambda(
                LambdaView {
                    params,
                    body: Box::new(body_of(body)),
                    capture: Some(capture_of(body_of(body), ctx, params)),
                },
            ),
        )
    } else {
        lambda_error()
    }
}

/// What `(lambda [params...] body...)` gives in `ctx`.
pub open spec fn lambda_result(list: Seq<ExprView>, ctx: ContextView) -> ExprView {
    if list.len() >= 2 {
        match list[1] {
            ExprView::Cons(params) => lambda_of(params, list.subrange(2, list.len() as int), ctx),
            _ => lambda_error(),
        }
    } else {
        lambda_error()
    }
}

/// The first of the items that is no symbol, if there is one.
pub fn find_other(items: &ExprList) -> (r: Option<Arc<Expression>>)
    ensures
        match r {
            Some(e) => first_other(items@) == Some(e@),
            None => first_other(items@) is None,
        },
{
    let v = items.to_vec();
    let mut i: usize = 0;
    assert(items@.subrange(0, items@.len() as int) =~= items@);
    while i < v.len()
        invariant
            i <= v.len(),
            v@.len() == items@.len(),
            forall|j: int| 0 <= j < v@.len() ==> (#[trigger] v@[j])@ == items@[j],
            first_other(items@) == first_other(items@.subrange(i as int, items@.len() as int)),
        decreases v.len() - i,
    {
        let ghost rest = items@.subrange(i as int, items@.len() as int);
        assert(rest[0] == items@[i as int]);
        assert(rest.subrange(1, rest.len() as int) =~= items@.subrange(
            i as int + 1,
            items@.len() as int,
        ));
        match &*v[i] {
            Expression::Symbol(_) => {},
            _ => {
                return Some(v[i].clone());
            },
        }
        i += 1;
    }
    None
}

/// The one expression of `body`, or all of them wrapped in `begin`.
pub fn body_expr(body: &ExprList) -> (r: Expression)
    ensures
        r@ == body_of(body@),
{
    if body.len() == 1 {
        match body.nth(0) {
            Some(e) => (*e).clone(),
            None => nil(),
        }
    } else {
        wrap_begin(body.clone())
    }
}

/// Makes the lambda with the given parameters and body in `ctx`. Every
/// parameter must be a symbol; the lambda captures the bindings of `ctx`
/// that its body refers to, its own parameters left out.
pub fn create_lambda(params: &ExprList, body: &ExprList, ctx: &Context) -> (r: Expression)
    ensures
        r@ == lambda_of(params@, body@, ctx@),
{
    match find_other(params) {
        Some(_) => fail(Exception::syntax(17, "(lambda [args...] body)")),
        None => {
            let body = body_expr(body);
            let mut capture: Vec<(String, Expression)> = Vec::new();
            proof {
                lemma_bindings_of(capture@);
                assert(bindings_of(capture@) =~= Seq::empty());
            }
            capture_into(&body, ctx, params, &mut capture);
            let data = LambdaData { params: params.clone(), body: Rc::new(body), capture: Some(capture) };
            Expression::Callable(Callable::Lambda(Rc::new(data)))
        },
    }
}

/// `(lambda [<param> ...] <body> ...)`
///
/// Gives the lambda with these parameters and this body; a syntax error
/// with code 17 where the parameters are no list of symbols. Nothing is
/// evaluated and the context stays as it is.
pub fn lambda(list: &ExprList, ctx: &mut Context) -> (r: Expression)
    ensures
        r@ == lambda_result(list@, old(ctx)@),
        final(ctx)@ == old(ctx)@,
{
    match list.nth(1) {
        Some(params) => match &*params {
            Expression::Cons(params) => {
                let body = list.skip(2);
                create_lambda(params, &body, ctx)
            },
            _ => fail(Exception::syntax(17, "(lambda [args...] body)")),
        },
        None => fail(Exception::syntax(17, "(lambda [args...] body)")),
    }
}

/// The error of a definition of a reserved word.
pub open spec fn reserved_error(name: Seq<char>) -> ExprView {
    custom_error(28, "reserved identifier: "@ + name)
}

fn reserved(name: &str) -> (r: Expression)
    ensures
        r@ == reserved_error(name@),
{
    fail(Exception::custom(28, join2("reserved identifier: ", name).as_str()))
}

/// What `define` gives, and the context it leaves, where that needs no
/// evaluation: every malformed definition, and the definition of a
/// function. `None` for `(define symbol value)` with a symbol that may be
/// bound.
pub open spec fn define_leaf(list: Seq<ExprView>, ctx: ContextView) -> Option<
    (ExprView, ContextView),
> {
    if list.len() < 2 {
        Some((arity_error(2, argc(list)), ctx))
    } else {
        match list[1] {
            ExprView::Symbol(name) => if list.len() != 3 {
                Some((arity_error(3, list.len() as usize), ctx))
            } else if is_reserved(name) {
                Some((reserved_error(name), ctx))
            } else {
                None
            },
            ExprView::Cons(func) => if func.len() == 0 {
                Some((arity_error(2, 0), ctx))
            } else {
                match func[0] {
                    ExprView::Symbol(name) => if is_reserved(name) {
                        Some((reserved_error(name), ctx))
                    } else if !all_symbols(func.subrange(1, func.len() as int)) {
                        Some((syntax_error(27, "function parameters must be symbols"@), ctx))
                    } else {
                        Some(
                            (
                                nil_view(),
                                ctx.bind(
                                    name,
                                    lambda_of(
                                        func.subrange(1, func.len() as int),
                                        list.subrange(2, list.len() as int),
                                        ctx,
                                    ),
                                ),
                            ),
                        )
                    },
                    other => Some((signature_error("symbol"@, kind_name(other)), ctx)),
                }
            },
            _ => Some(
                (syntax_error(26, "define must bind either a function or a symbol"@), ctx),
            ),
        }
    }
}

/// Finishes `(define name value)` once the value is evaluated: an error is
/// handed on and binds nothing; any other value is bound to `name` in the
/// innermost scope, and the result is nil.
pub fn define_value(name: &str, value: Expression, ctx: &mut Context) -> (r: Expression)
    ensures
        value@ is Error ==> r@ == value@ && final(ctx)@ == old(ctx)@,
        !(value@ is Error) ==> r@ == nil_view() && final(ctx)@ == old(ctx)@.bind(name@, value@),
{
    if value.is_exception() {
        value
    } else {
        ctx.insert(name, value);
        nil()
    }
}

/// `(define <name> <value>)` or `(define (<name> <param> ...) <body> ...)`
///
/// The first form evaluates the value and binds it to the name in the
/// innermost scope; the second binds the name to a lambda. Both give nil. A
/// reserved word gives a custom error with code 28; a malformed definition
/// its arity, signature or syntax error.
pub fn define<H: Host>(list: &ExprList, ctx: &mut Context, host: &mut H) -> (r: Expression)
    ensures
        frame(old(ctx)@, final(ctx)@),
        define_leaf(list@, old(ctx)@) matches Some(leaf) ==> r@ == leaf.0 && final(ctx)@ == leaf.1,
        agrees(define_spec(list@, old(ctx)@, old(ctx)@.depth_limit), r@, final(ctx)@),
{
    let depth = ctx.depth_limit();
    define_at(list, ctx, host, depth)
}

pub(crate) fn define_at<H: Host>(
    list: &ExprList,
    ctx: &mut Context,
    host: &mut H,
    depth: usize,
) -> (r: Expression)
    ensures
        frame(old(ctx)@, final(ctx)@),
        define_leaf(list@, old(ctx)@) matches Some(leaf) ==> r@ == leaf.0 && final(ctx)@ == leaf.1,
            agrees(define_spec(list@, old(ctx)@, depth), r@, final(ctx)@),
    decreases depth, 3int,
{
    let head = match list.nth(1) {
        Some(head) => head,
        None => {
            return fail(Exception::arity(2, arg_count(list)));
        },
    };
    match &*head {
        Expression::Symbol(name) => {
            if list.len() != 3 {
                return fail(Exception::arity(3, list.len()));
            }
            if !name.is_valid_identifier() {
                return reserved(name.as_str());
            }
            match list.nth(2) {
                Some(expr) => {
                    let value = eval_at(&expr, ctx, host, depth);
                    let ghost mid = ctx@;
                    let r = define_value(name.as_str(), value, ctx);
                    r
                },
                None => nil(),
            }
        },
        Expression::Cons(func) => {
            let ident = match func.head() {
                Some(ident) => ident,
                None => {
                    return fail(Exception::arity(2, 0));
                },
            };
            match &*ident {
                Expression::Symbol(name) => {
                    if !name.is_valid_identifier() {
                        return reserved(name.as_str());
                    }
                    let params = func.skip(1);
                    match find_other(&params) {
                        Some(_) => fail(Exception::syntax(27, "function parameters must be symbols")),
                        None => {
                            let body = list.skip(2);
                            let lambda = create_lambda(&params, &body, ctx);
                            ctx.insert(name.as_str(), lambda);
                            nil()
                        },
                    }
                },
                other => fail(Exception::signature("symbol", other.type_of().as_str())),
            }
        },
        _ => fail(Exception::syntax(26, "define must bind either a function or a symbol")),
    }
}

/// What `(env x)` gives once `x` is evaluated to `value`: the binding of
/// the symbol, nil where it has none, and a signature error for whatever is
/// no symbol.
pub open spec fn env_result(value: ExprView, ctx: ContextView) -> ExprView {
    match value {
        ExprView::Symbol(name) => match ctx.lookup(name) {
            Some(v) => v,
            None => nil_view(),
        },
        other => signature_error("symbol"@, kind_name(other)),
    }
}

/// Looks up the symbol that `value` is.
pub fn env_lookup(value: &Expression, ctx: &Context) -> (r: Expression)
    ensures
        r@ == env_result(value@, ctx@),
{
    match value {
        Expression::Symbol(name) => match ctx.get(name.as_str()) {
            Some(v) => v.clone(),
            None => nil(),
        },
        other => fail(Exception::signature("symbol", other.type_of().as_str())),
    }
}

/// `(env <expr>)`
///
/// Evaluates the argument, which must give a symbol, and looks that symbol
/// up. Without an argument the result is the arity error `(1, 99)`.
pub fn env<H: Host>(list: &ExprList, ctx: &mut Context, host: &mut H) -> (r: Expression)
    ensures
        frame(old(ctx)@, final(ctx)@),
        list@.len() < 2 ==> r@ == arity_error(1, 99) && final(ctx)@ == old(ctx)@,
        agrees(env_spec(list@, old(ctx)@, old(ctx)@.depth_limit), r@, final(ctx)@),
{
    let depth = ctx.depth_limit();
    env_at(list, ctx, host, depth)
}

pub(crate) fn env_at<H: Host>(
    list: &ExprList,
    ctx: &mut Context,
    host: &mut H,
    depth: usize,
) -> (r: Expression)
    ensures
        frame(old(ctx)@, final(ctx)@),
        list@.len() < 2 ==> r@ == arity_error(1, 99) && final(ctx)@ == old(ctx)@,
            agrees(env_spec(list@, old(ctx)@, depth), r@, final(ctx)@),
    decreases depth, 3int,
{
    match list.nth(1) {
        Some(arg) => {
            let value = eval_at(&arg, ctx, host, depth);
            env_lookup(&value, ctx)
        },
        None => fail(Exception::arity(1, 99)),
    }
}

/// What `if` does once its condition is evaluated.
pub enum Choice {
    /// Evaluate the branch for true.
    Then,
    /// Evaluate the branch for false.
    Else,
    /// Evaluate neither; this is the result.
    Stop(Expression),
}

/// The result of an `if` whose condition is no truth value.
pub open spec fn if_error(cond: ExprView, then_branch: ExprView, else_branch: ExprView) -> ExprView {
    match cond {
        ExprView::Error(_) => cond,
        _ => signature_error(
            "bool, any, any"@,
            kind_name(cond) + ", "@ + kind_name(then_branch) + ", "@ + kind_name(else_branch),
        ),
    }
}

/// Decides an `if` from the value of its condition: true takes the first
/// branch, false the second; an error is the result itself; anything else
/// gives a signature error that names the types of the three.
pub fn if_choice(cond: &Expression, then_branch: &Expression, else_branch: &Expression) -> (c:
    Choice)
    ensures
        match c {
            Choice::Then => cond@ == ExprView::Bool(true),
            Choice::Else => cond@ == ExprView::Bool(false),
            Choice::Stop(r) => !(cond@ is Bool) && r@ == if_error(
                cond@,
                then_branch@,
                else_branch@,
            ),
        },
{
    match cond {
        Expression::Bool(b) => if *b {
            Choice::Then
        } else {
            Choice::Else
        },
        Expression::Error(_) => Choice::Stop(cond.clone()),
        other => {
            let mut found = other.type_of();
            found.append(", ");
            found.append(then_branch.type_of().as_str());
            found.append(", ");
            found.append(else_branch.type_of().as_str());
            Choice::Stop(fail(Exception::signature("bool, any, any", found.as_str())))
        },
    }
}

/// `(if <cond> <then> <else>)`
///
/// Takes exactly three arguments; otherwise the result is an arity error
/// that expects 3 and reports the length of the whole form. The condition
/// is evaluated first, then only the branch it selects.
pub fn if_expr<H: Host>(list: &ExprList, ctx: &mut Context, host: &mut H) -> (r: Expression)
    ensures
        frame(old(ctx)@, final(ctx)@),
        list@.len() != 4 ==> r@ == arity_error(3, list@.len() as usize) && final(ctx)@ == old(
            ctx,
        )@,
        agrees(if_spec(list@, old(ctx)@, old(ctx)@.depth_limit), r@, final(ctx)@),
{
    let depth = ctx.depth_limit();
    if_at(list, ctx, host, depth)
}

pub(crate) fn if_at<H: Host>(
    list: &ExprList,
    ctx: &mut Context,
    host: &mut H,
    depth: usize,
) -> (r: Expression)
    ensures
        frame(old(ctx)@, final(ctx)@),
        list@.len() != 4 ==> r@ == arity_error(3, list@.len() as usize) && final(ctx)@ == old(
            ctx,
        )@,
            agrees(if_spec(list@, old(ctx)@, depth), r@, final(ctx)@),
    decreases depth, 3int,
{
    if list.len() != 4 {
        return fail(Exception::arity(3, list.len()));
    }
    match (list.nth(1), list.nth(2), list.nth(3)) {
        (Some(cond), Some(then_branch), Some(else_branch)) => {
            let value = eval_at(&cond, ctx, host, depth);
            match if_choice(&value, &then_branch, &else_branch) {
                Choice::Then => eval_at(&then_branch, ctx, host, depth),
                Choice::Else => eval_at(&else_branch, ctx, host, depth),
                Choice::Stop(r) => r,
            }
        },
        _ => nil(),
    }
}

/// `(begin <expr> ...)`
///
/// Evaluates the expressions in order and gives the value of the last; the
/// first error ends it and is the result. Without any expression the
/// result is nil.
pub fn begin<H: Host>(list: &ExprList, ctx: &mut Context, host: &mut H) -> (r: Expression)
    ensures
        frame(old(ctx)@, final(ctx)@),
        list@.len() <= 1 ==> r@ == nil_view() && final(ctx)@ == old(ctx)@,
        agrees(begin_spec(rest(list@), 0, nil_view(), old(ctx)@, old(ctx)@.depth_limit), r@, final(ctx)@),
{
    let depth = ctx.depth_limit();
    begin_at(list, ctx, host, depth)
}

pub(crate) fn begin_at<H: Host>(
    list: &ExprList,
    ctx: &mut Context,
    host: &mut H,
    depth: usize,
) -> (r: Expression)
    ensures
        frame(old(ctx)@, final(ctx)@),
        list@.len() <= 1 ==> r@ == nil_view() && final(ctx)@ == old(ctx)@,
            agrees(begin_spec(rest(list@), 0, nil_view(), old(ctx)@, depth), r@, final(ctx)@),
    decreases depth, 3int,
{
    let tail = list.skip(1);
    assert(tail@ =~= rest(list@));
    let items = tail.to_vec();
    let mut last = nil();
    let mut i: usize = 0;
    let ghost whole = begin_spec(rest(list@), 0, nil_view(), old(ctx)@, depth);
    while i < items.len()
        invariant
            i <= items.len(),
            frame(old(ctx)@, ctx@),
            items@.len() == rest(list@).len(),
            forall|j: int| 0 <= j < items@.len() ==> (#[trigger] items@[j])@ == rest(list@)[j],
            list@.len() <= 1 ==> items@.len() == 0,
            items@.len() == 0 ==> ctx@ == old(ctx)@ && last@ == nil_view(),
            whole == begin_spec(rest(list@), 0, nil_view(), old(ctx)@, depth),
            whole is Some ==> whole == begin_spec(rest(list@), i as nat, last@, ctx@, depth),
        decreases items.len() - i,
    {
        let value = eval_at(&items[i], ctx, host, depth);
        if value.is_exception() {
            return value;
        }
        last = value;
        i += 1;
    }
    last
}

/// What `cond` does once a predicate is evaluated.
pub enum Step {
    /// Go on with the next clause.
    Next,
    /// Take this clause: leave the scope and evaluate its value.
    Take,
    /// Leave the scope; this is the result.
    Stop(Expression),
}

/// The error of a predicate that gives no truth value.
pub open spec fn condition_error() -> ExprView {
    syntax_error(18, "condition must be a boolean value"@)
}

/// The error of a clause that is no list of two items.
pub open spec fn clause_error() -> ExprView {
    syntax_error(20, "condition case must be a list"@)
}

/// Decides a clause of `cond` from the value of its predicate: true takes
/// the clause, false goes on; an error is the result itself; anything else
/// gives a syntax error with code 18.
pub fn cond_step(value: &Expression) -> (s: Step)
    ensures
        match s {
            Step::Next => value@ == ExprView::Bool(false),
            Step::Take => value@ == ExprView::Bool(true),
            Step::Stop(r) => !(value@ is Bool) && r@ == (if value@ is Error {
                value@
            } else {
                condition_error()
            }),
        },
{
    match value {
        Expression::Bool(b) => if *b {
            Step::Take
        } else {
            Step::Next
        },
        Expression::Error(_) => Step::Stop(value.clone()),
        _ => Step::Stop(fail(Exception::syntax(18, "condition must be a boolean value"))),
    }
}

/// `(cond [<pred> <expr>] ...)`
///
/// Enters a scope in which `else` is bound to true and evaluates the
/// predicates in order. The first that gives true ends the search: the
/// scope is left and the clause's expression is evaluated. A clause that is
/// no list of two items gives a syntax error with code 20. Without a clause
/// that matches, the result is nil. Before anything is returned the scope is
/// left.
pub fn cond<H: Host>(list: &ExprList, ctx: &mut Context, host: &mut H) -> (r: Expression)
    ensures
        frame(old(ctx)@, final(ctx)@),
        list@.len() <= 1 ==> r@ == nil_view() && final(ctx)@ == old(ctx)@,
        list@.len() > 1 && !(list@[1] matches ExprView::Cons(c) && c.len() == 2) ==> r@
            == clause_error() && final(ctx)@ == old(ctx)@,
        agrees(cond_spec(list@, old(ctx)@, old(ctx)@.depth_limit), r@, final(ctx)@),
{
    let depth = ctx.depth_limit();
    cond_at(list, ctx, host, depth)
}

pub(crate) fn cond_at<H: Host>(
    list: &ExprList,
    ctx: &mut Context,
    host: &mut H,
    depth: usize,
) -> (r: Expression)
    ensures
        frame(old(ctx)@, final(ctx)@),
        list@.len() <= 1 ==> r@ == nil_view() && final(ctx)@ == old(ctx)@,
        list@.len() > 1 && !(list@[1] matches ExprView::Cons(c) && c.len() == 2) ==> r@
            == clause_error() && final(ctx)@ == old(ctx)@,
            agrees(cond_spec(list@, old(ctx)@, depth), r@, final(ctx)@),
    decreases depth, 3int,
{
    let tail = list.skip(1);
    assert(tail@ =~= rest(list@));
    let clauses = tail.to_vec();
    assert(list@.len() > 1 ==> clauses@[0]@ == list@[1]);
    ctx.ascend_scope();
    ctx.insert("else", Expression::Bool(true));
    let ghost whole = cond_spec(list@, old(ctx)@, depth);
    proof {
        law_inner_binding_shadows_and_outer_returns(old(ctx)@, "else"@, ExprView::Bool(true));
    }
    let mut i: usize = 0;
    while i < clauses.len()
        invariant
            i <= clauses.len(),
            list@.len() <= 1 ==> clauses@.len() == 0,
            list@.len() > 1 ==> clauses@.len() > 0 && clauses@[0]@ == list@[1],
            ctx@.scopes.len() == old(ctx)@.scopes.len() + 1,
            ctx@.depth_limit == old(ctx)@.depth_limit,
            ctx@.struct_count >= old(ctx)@.struct_count,
            i == 0 ==> ctx@.pop() == old(ctx)@,
            i > 0 ==> list@.len() > 1 && (list@[1] matches ExprView::Cons(c) && c.len() == 2),
            clauses@.len() == rest(list@).len(),
            forall|j: int| 0 <= j < clauses@.len() ==> (#[trigger] clauses@[j])@ == rest(list@)[j],
            whole == cond_spec(list@, old(ctx)@, depth),
            whole is Some ==> whole == cond_from(rest(list@), i as nat, ctx@, depth),
        decreases clauses.len() - i,
    {
        let pair = match &*clauses[i] {
            Expression::Cons(clause) => {
                if clause.len() == 2 {
                    match (clause.nth(0), clause.nth(1)) {
                        (Some(pred), Some(value)) => Some((pred, value)),
                        _ => None,
                    }
                } else {
                    None
                }
            },
            _ => None,
        };
        match pair {
            Some((pred, value)) => {
                let p = eval_at(&pred, ctx, host, depth);
                match cond_step(&p) {
                    Step::Next => {},
                    Step::Take => {
                        ctx.descend_scope();
                        return eval_at(&value, ctx, host, depth);
                    },
                    Step::Stop(r) => {
                        ctx.descend_scope();
                        return r;
                    },
                }
            },
            None => {
                ctx.descend_scope();
                return fail(Exception::syntax(20, "condition case must be a list"));
            },
        }
        i += 1;
    }
    ctx.descend_scope();
    nil()
}

/// The error of a `let` whose second item is no list.
pub open spec fn bindings_error() -> ExprView {
    syntax_error(21, "binding list must be a list of bindings"@)
}

/// What a binding of `let` does.
pub enum Binding {
    /// Evaluate the value and bind it to the name.
    Bind(String, Arc<Expression>),
    /// The binding is malformed; this is the error.
    Stop(Expression),
}

/// The error of a binding whose name is no symbol.
pub open spec fn binding_name_error(found: ExprView) -> ExprView {
    syntax_error(22, "identifier in binding must be a symbol, found "@ + text_of(found))
}

/// The error of a binding that is no list.
pub open spec fn binding_shape_error(found: ExprView) -> ExprView {
    syntax_error(
        23,
        "binding must be a list containing a symbol and a value, found "@ + text_of(found),
    )
}

/// Whether a binding of `let` is a list of a symbol and a value.
pub open spec fn well_bound(binding: ExprView) -> bool {
    binding matches ExprView::Cons(items) && items.len() == 2 && items[0] is Symbol
}

/// Whether `r` is the error of a binding of `let` that is no list of a
/// symbol and a value: an arity error for a list of another length; a
/// syntax error with code 22 that shows the name where that is no symbol;
/// and one with code 23 that shows the binding where it is no list.
pub open spec fn binding_error<H: Host>(host: &H, binding: ExprView, r: ExprView) -> bool {
    match binding {
        ExprView::Cons(items) => if items.len() == 2 {
            exists|t: Seq<char>|
                #![trigger shows(host, items[0], t)]
                shows(host, items[0], t) && r == syntax_error(
                    22,
                    "identifier in binding must be a symbol, found "@ + t,
                )
        } else {
            r == arity_error(2, items.len() as usize)
        },
        other => exists|t: Seq<char>|
            #![trigger shows(host, other, t)]
            shows(host, other, t) && r == syntax_error(
                23,
                "binding must be a list containing a symbol and a value, found "@ + t,
            ),
    }
}

/// Reads one binding of a `let`: a list of a symbol and an expression.
/// Anything else gives the error that [`binding_error`] describes.
pub fn read_binding<H: Host>(binding: &Expression, host: &H) -> (b: Binding)
    ensures
        match b {
            Binding::Bind(n, e) => binding@ matches ExprView::Cons(items) && items.len() == 2
                && items[0] == ExprView::Symbol(n@) && e@ == items[1],
            Binding::Stop(r) => !well_bound(binding@) && binding_error(host, binding@, r@) && (
            match binding@ {
                ExprView::Cons(items) => items.len() == 2 && number_free(items[0]) ==> r@
                    == binding_name_error(items[0]),
                other => number_free(other) ==> r@ == binding_shape_error(other),
            }),
        },
{
    match binding {
        Expression::Cons(items) => {
            if items.len() == 2 {
                match (items.nth(0), items.nth(1)) {
                    (Some(ident), Some(value)) => match &*ident {
                        Expression::Symbol(name) => Binding::Bind(name.clone(), value),
                        other => {
                            let t = other.to_text(host);
                            let msg = join2(
                                "identifier in binding must be a symbol, found ",
                                t.as_str(),
                            );
                            assert(shows(host, other@, t@));
                            Binding::Stop(fail(Exception::syntax(22, msg.as_str())))
                        },
                    },
                    _ => Binding::Stop(fail(Exception::arity(2, 2))),
                }
            } else {
                Binding::Stop(fail(Exception::arity(2, items.len())))
            }
        },
        other => {
            let t = other.to_text(host);
            let msg = join2(
                "binding must be a list containing a symbol and a value, found ",
                t.as_str(),
            );
            assert(shows(host, other@, t@));
            Binding::Stop(fail(Exception::syntax(23, msg.as_str())))
        },
    }
}

/// Whether `r` and `after` are what a `let` gives where one of its bindings
/// is no list of a symbol and a value, as far as the bindings before it are
/// evaluated without the host: the error that [`binding_error`] describes,
/// and the context that the bindings before it left, outside the scope of
/// the `let`; which is the context as it was where the first binding is the
/// one.
pub open spec fn let_stopped<H: Host>(
    host: &H,
    list: Seq<ExprView>,
    c: ContextView,
    depth: usize,
    r: ExprView,
    after: ContextView,
) -> bool {
    let bindings = list[1]->Cons_0;
    &&& list.len() >= 2 && list[1] is Cons && (let_walk(bindings, 0, c.push(), depth) matches Some(
        stop,
    ) && stop.0 < bindings.len()) ==> {
        let stop = let_walk(bindings, 0, c.push(), depth).unwrap();
        after == stop.1.pop() && binding_error(host, bindings[stop.0 as int], r)
    }
    &&& list.len() >= 2 && list[1] is Cons && bindings.len() > 0 && !well_bound(bindings[0])
        ==> after == c
}

/// `(let ([<name> <value>] ...) <body> ...)`
///
/// Enters a scope, evaluates the values in order and binds each to its
/// name, so that a later value sees the earlier names; a value that gives an
/// error binds nothing and the next binding is taken. Then the body is
/// evaluated in that scope, several expressions as in `begin`, and the scope
/// is left. A binding that is no list of a symbol and a value ends the
/// form with the error that [`binding_error`] describes: the bindings
/// behind it and the body are not evaluated, and the scope is left, so that
/// the context is what the bindings before it left outside that scope.
pub fn let_expr<H: Host>(list: &ExprList, ctx: &mut Context, host: &mut H) -> (r: Expression)
    ensures
        frame(old(ctx)@, final(ctx)@),
        list@.len() < 2 ==> r@ == arity_error(2, 0) && final(ctx)@ == old(ctx)@,
        list@.len() >= 2 && !(list@[1] is Cons) ==> r@ == bindings_error() && final(ctx)@ == old(
            ctx,
        )@,
        agrees(let_spec(list@, old(ctx)@, old(ctx)@.depth_limit), r@, final(ctx)@),
        let_stopped(
            &*final(host),
            list@,
            old(ctx)@,
            old(ctx)@.depth_limit,
            r@,
            final(ctx)@,
        ),
{
    let depth = ctx.depth_limit();
    let_at(list, ctx, host, depth)
}

pub(crate) fn let_at<H: Host>(
    list: &ExprList,
    ctx: &mut Context,
    host: &mut H,
    depth: usize,
) -> (r: Expression)
    ensures
        frame(old(ctx)@, final(ctx)@),
        list@.len() < 2 ==> r@ == arity_error(2, 0) && final(ctx)@ == old(ctx)@,
        list@.len() >= 2 && !(list@[1] is Cons) ==> r@ == bindings_error() && final(ctx)@ == old(
            ctx,
        )@,
        agrees(let_spec(list@, old(ctx)@, depth), r@, final(ctx)@),
        let_stopped(&*final(host), list@, old(ctx)@, depth, r@, final(ctx)@),
    decreases depth, 3int,
{
    let bindings = match list.nth(1) {
        Some(b) => b,
        None => {
            return fail(Exception::arity(2, 0));
        },
    };
    let bindings = match &*bindings {
        Expression::Cons(b) => b.to_vec(),
        _ => {
            return fail(Exception::syntax(21, "binding list must be a list of bindings"));
        },
    };
    let tail = list.skip(2);
    assert(tail@ =~= list@.subrange(2, list@.len() as int));
    let body = body_expr(&tail);
    ctx.ascend_scope();
    let mut i: usize = 0;
    let ghost whole = let_spec(list@, old(ctx)@, depth);
    let ghost walk = let_walk(list@[1]->Cons_0, 0, old(ctx)@.push(), depth);
    proof {
        law_push_pop(old(ctx)@);
    }
    while i < bindings.len()
        invariant
            walk == let_walk(list@[1]->Cons_0, 0, old(ctx)@.push(), depth),
            walk is Some ==> walk == let_walk(list@[1]->Cons_0, i as nat, ctx@, depth),
            i == 0 ==> ctx@.pop() == old(ctx)@,
            i > 0 ==> well_bound(list@[1]->Cons_0[0]),
            i <= bindings.len(),
            list@.len() >= 2,
            list@[1] is Cons,
            bindings@.len() == list@[1]->Cons_0.len(),
            forall|j: int|
                0 <= j < bindings@.len() ==> (#[trigger] bindings@[j])@ == list@[1]->Cons_0[j],
            body@ == body_of(list@.subrange(2, list@.len() as int)),
            whole == let_spec(list@, old(ctx)@, depth),
            whole is Some ==> whole == let_from(list@[1]->Cons_0, i as nat, body@, ctx@, depth),
            ctx@.scopes.len() == old(ctx)@.scopes.len() + 1,
            ctx@.depth_limit == old(ctx)@.depth_limit,
            ctx@.struct_count >= old(ctx)@.struct_count,
        decreases bindings.len() - i,
    {
        match read_binding(&bindings[i], &*host) {
            Binding::Bind(name, expr) => {
                let value = eval_at(&expr, ctx, host, depth);
                if !value.is_exception() {
                    ctx.insert(name.as_str(), value);
                }
            },
            Binding::Stop(r) => {
                ctx.descend_scope();
                return r;
            },
        }
        i += 1;
    }
    let r = eval_at(&body, ctx, host, depth);
    ctx.descend_scope();
    r
}

/// What a handler of `try` receives for an error: a struct named `error`
/// with the error's code as a number, its message as a string, and its
/// trace as a list.
pub open spec fn report_of(e: ExceptionView) -> ExprView {
    ExprView::Struct(
        StructView {
            name: "error"@,
            data: seq![
                ExprView::Num(double_of(code_of(e.data) as nat) as u64),
                ExprView::Str(message(e.data)),
                ExprView::Cons(e.stack),
            ],
        },
    )
}

/// Makes the struct that describes an error to a handler.
pub fn error_report(e: &Exception) -> (r: Expression)
    ensures
        r@ == report_of(e@),
{
    let mut data: Vec<Expression> = Vec::new();
    data.push(Expression::Num(double_from_u16(e.error_code())));
    data.push(Expression::Str(e.to_string()));
    data.push(Expression::Cons(e.stack()));
    proof {
        lemma_views_of(data@);
        assert(views_of(data@) =~= seq![
            ExprView::Num(double_of(code_of(e@.data) as nat) as u64),
            ExprView::Str(message(e@.data)),
            ExprView::Cons(e@.stack),
        ]);
    }
    Expression::Struct(Rc::new(StructData { name: String::from_str("error"), data }))
}

/// The error of a handler that cannot be called.
pub open spec fn handler_error(handler: ExprView) -> ExprView {
    custom_error(2, "not a callable value: `"@ + text_of(handler) + "`"@)
}

/// Whether `r` and `after` are what a `try` gives where its handler, once
/// evaluated without the host, is no callable: the custom error with code 2
/// that shows the handler's value, and the context that the handler's
/// evaluation left. The expression is not evaluated.
pub open spec fn try_refused<H: Host>(
    host: &H,
    list: Seq<ExprView>,
    c: ContextView,
    depth: usize,
    r: ExprView,
    after: ContextView,
) -> bool {
    (argc(list) == 2 && (eval_spec(list[2], c, depth) matches Some(handler) && !(handler.0
        is Callable))) ==> {
        let handler = eval_spec(list[2], c, depth).unwrap();
        after == handler.1 && exists|t: Seq<char>|
            #![trigger shows(host, handler.0, t)]
            shows(host, handler.0, t) && r == custom_error(
                2,
                "not a callable value: `"@ + t + "`"@,
            )
    }
}

/// `(try <expr> <handler>)`
///
/// Takes two arguments. The handler is evaluated first and must be
/// callable, else the result is a custom error with code 2. Then the
/// expression is evaluated. If it gives an error, the handler is called on
/// the struct that [`report_of`] describes and its result is the result;
/// any other value is the result itself.
pub fn try_expr<H: Host>(list: &ExprList, ctx: &mut Context, host: &mut H) -> (r: Expression)
    ensures
        frame(old(ctx)@, final(ctx)@),
        argc(list@) != 2 ==> r@ == arity_error(2, argc(list@)) && final(ctx)@ == old(ctx)@,
        agrees(try_spec(list@, old(ctx)@, old(ctx)@.depth_limit), r@, final(ctx)@),
        try_refused(
            &*final(host),
            list@,
            old(ctx)@,
            old(ctx)@.depth_limit,
            r@,
            final(ctx)@,
        ),
{
    let depth = ctx.depth_limit();
    try_at(list, ctx, host, depth)
}

pub(crate) fn try_at<H: Host>(
    list: &ExprList,
    ctx: &mut Context,
    host: &mut H,
    depth: usize,
) -> (r: Expression)
    ensures
        frame(old(ctx)@, final(ctx)@),
        argc(list@) != 2 ==> r@ == arity_error(2, argc(list@)) && final(ctx)@ == old(ctx)@,
        agrees(try_spec(list@, old(ctx)@, depth), r@, final(ctx)@),
        try_refused(&*final(host), list@, old(ctx)@, depth, r@, final(ctx)@),
    decreases depth, 3int,
{
    let n = arg_count(list);
    if n != 2 {
        return fail(Exception::arity(2, n));
    }
    match (list.nth(1), list.nth(2)) {
        (Some(expr), Some(handler)) => {
            let handler = eval_at(&handler, ctx, host, depth);
            if !handler.is_callable() {
                let mut msg = String::from_str("not a callable value: `");
                let t = handler.to_text(&*host);
                msg.append(t.as_str());
                msg.append("`");
                assert(shows(&*host, handler@, t@));
                return fail(Exception::custom(2, msg.as_str()));
            }
            let value = eval_at(&expr, ctx, host, depth);
            match &value {
                Expression::Error(ex) => {
                    let call = pair(handler, error_report(ex));
                    eval_at(&call, ctx, host, depth)
                },
                _ => value,
            }
        },
        _ => nil(),
    }
}

/// The name of the accessor of the field `member` of the struct `name`.
pub open spec fn accessor_name(name: Seq<char>, member: Seq<char>) -> Seq<char> {
    name + "-"@ + member
}

/// The name of the predicate of the struct `name`.
pub open spec fn predicate_name(name: Seq<char>) -> Seq<char> {
    "is-"@ + name + "?"@
}

/// The name of the constructor of the struct `name`.
pub open spec fn constructor_name(name: Seq<char>) -> Seq<char> {
    "make-"@ + name
}

/// The value of the accessor of the field at `index`.
pub open spec fn accessor(index: usize) -> ExprView {
    ExprView::Callable(CallableView::Intrinsic(Intrinsic::Field(index)))
}

/// `c` with the accessors of the first `k` of `members` bound, each to the
/// intrinsic that reads its position.
pub open spec fn bind_accessors(
    c: ContextView,
    name: Seq<char>,
    members: Seq<ExprView>,
    k: nat,
) -> ContextView
    decreases k,
{
    if k == 0 {
        c
    } else {
        bind_accessors(c, name, members, (k - 1) as nat).bind(
            accessor_name(name, members[k - 1]->Symbol_0),
            accessor((k - 1) as usize),
        )
    }
}

/// `c` with the accessors, the predicate and the constructor of the struct
/// `name` bound, in that order.
pub open spec fn bind_struct(
    c: ContextView,
    name: Seq<char>,
    members: Seq<ExprView>,
    id: usize,
) -> ContextView {
    bind_accessors(c, name, members, members.len()).bind(
        predicate_name(name),
        ExprView::Callable(CallableView::Intrinsic(Intrinsic::IsStruct(id))),
    ).bind(
        constructor_name(name),
        ExprView::Callable(
            CallableView::Macro(MacroView::Construct(name, members.len() as usize)),
        ),
    )
}

/// What `(define-struct name [field ...])` gives, and the context it
/// leaves.
///
/// The form takes two arguments. The name must be a symbol; the struct type
/// is declared under the next id as soon as that is known, before the fields
/// are looked at. The fields must be a list of symbols. Then the accessors
/// `name-field`, the predicate `is-name?` and the constructor `make-name`
/// are bound in the innermost scope, and the result is nil.
pub open spec fn define_struct_leaf(list: Seq<ExprView>, ctx: ContextView) -> (
    ExprView,
    ContextView,
) {
    if argc(list) != 2 {
        (arity_error(2, argc(list)), ctx)
    } else {
        match list[1] {
            ExprView::Symbol(name) => if !ctx.can_declare() {
                (custom_error(31, "could not define struct"@), ctx)
            } else {
                let declared = ctx.declare(name);
                match list[2] {
                    ExprView::Cons(members) => match first_other(members) {
                        Some(other) => (signature_error("symbol"@, kind_name(other)), declared),
                        None => (
                            nil_view(),
                            bind_struct(declared, name, members, declared.struct_count),
                        ),
                    },
                    _ => (signature_error("cons"@, "symbol"@), declared),
                }
            },
            other => (signature_error("symbol"@, kind_name(other)), ctx),
        }
    }
}

/// Where no item is something else, every item is a symbol.
pub proof fn lemma_all_symbols(items: Seq<ExprView>)
    requires
        first_other(items) is None,
    ensures
        forall|i: int| 0 <= i < items.len() ==> #[trigger] items[i] is Symbol,
    decreases items.len(),
{
    if items.len() > 0 {
        let rest = items.subrange(1, items.len() as int);
        lemma_all_symbols(rest);
        assert forall|i: int| 0 <= i < items.len() implies #[trigger] items[i] is Symbol by {
            if i > 0 {
                assert(rest[i - 1] == items[i]);
            }
        }
    }
}

/// Binding changes neither the number of scopes nor the counter of struct
/// types.
pub proof fn lemma_bind_accessors_frame(
    c: ContextView,
    name: Seq<char>,
    members: Seq<ExprView>,
    k: nat,
)
    ensures
        frame(c, bind_accessors(c, name, members, k)),
        bind_accessors(c, name, members, k).struct_count == c.struct_count,
    decreases k,
{
    if k > 0 {
        lemma_bind_accessors_frame(c, name, members, (k - 1) as nat);
    }
}

/// `(define-struct <name> [<field> ...])`
///
/// Declares a struct type and binds its accessors, predicate and
/// constructor, as [`define_struct_leaf`] says. Nothing is evaluated.
pub fn define_struct(list: &ExprList, ctx: &mut Context) -> (r: Expression)
    ensures
        r@ == define_struct_leaf(list@, old(ctx)@).0,
        final(ctx)@ == define_struct_leaf(list@, old(ctx)@).1,
        frame(old(ctx)@, final(ctx)@),
{
    let n = arg_count(list);
    if n != 2 {
        return fail(Exception::arity(2, n));
    }
    let (name_expr, members_expr) = match (list.nth(1), list.nth(2)) {
        (Some(a), Some(b)) => (a, b),
        _ => {
            return nil();
        },
    };
    let name = match &*name_expr {
        Expression::Symbol(name) => name,
        other => {
            return fail(Exception::signature("symbol", other.type_of().as_str()));
        },
    };
    let id = match ctx.define_struct(name.as_str()) {
        Some(id) => id,
        None => {
            return fail(Exception::custom(31, "could not define struct"));
        },
    };
    let ghost declared = ctx@;
    let members = match &*members_expr {
        Expression::Cons(members) => members,
        _ => {
            return fail(Exception::signature("cons", name_expr.type_of().as_str()));
        },
    };
    match find_other(members) {
        Some(other) => {
            return fail(Exception::signature("symbol", other.type_of().as_str()));
        },
        None => {},
    }
    proof {
        lemma_all_symbols(members@);
    }
    let fields = members.to_vec();
    let mut i: usize = 0;
    while i < fields.len()
        invariant
            i <= fields.len(),
            fields@.len() == members@.len(),
            forall|j: int| 0 <= j < fields@.len() ==> (#[trigger] fields@[j])@ == members@[j],
            forall|j: int| 0 <= j < members@.len() ==> #[trigger] members@[j] is Symbol,
            ctx@ == bind_accessors(declared, name@, members@, i as nat),
        decreases fields.len() - i,
    {
        match &*fields[i] {
            Expression::Symbol(member) => {
                let mut key = name.clone();
                key.append("-");
                key.append(member.as_str());
                ctx.insert(key.as_str(), Expression::Callable(Callable::Intrinsic(Intrinsic::Field(i))));
            },
            _ => {},
        }
        i += 1;
    }
    proof {
        lemma_bind_accessors_frame(declared, name@, members@, members@.len());
    }
    let mut check = String::from_str("is-");
    check.append(name.as_str());
    check.append("?");
    ctx.insert(check.as_str(), Expression::Callable(Callable::Intrinsic(Intrinsic::IsStruct(id))));
    let make = join2("make-", name.as_str());
    let shape = StructShape { name: name.clone(), fields: fields.len() };
    ctx.insert(
        make.as_str(),
        Expression::Callable(Callable::Macro(Macro::Construct(Rc::new(shape)))),
    );
    nil()
}

/// What the constructor of a struct gives for evaluated arguments.
pub open spec fn construct_result(name: Seq<char>, fields: usize, args: Seq<ExprView>) -> ExprView {
    if args.len() == fields {
        ExprView::Struct(StructView { name, data: args })
    } else {
        arity_error(fields, args.len() as usize)
    }
}

/// Makes an instance of the struct `shape` from evaluated arguments: as
/// many as the struct has fields, in the order of the fields; with another
/// number the result is an arity error.
pub fn construct(shape: &StructShape, args: Vec<Expression>) -> (r: Expression)
    ensures
        r@ == construct_result(shape.name@, shape.fields, views_of(args@)),
{
    proof {
        lemma_views_of(args@);
    }
    if args.len() == shape.fields {
        Expression::Struct(Rc::new(StructData { name: shape.name.clone(), data: args }))
    } else {
        fail(Exception::arity(shape.fields, args.len()))
    }
}

/// Calls the constructor of a struct: the arguments are evaluated from left
/// to right, the first error among them being the result, and then handed
/// to [`construct`].
pub(crate) fn construct_at<H: Host>(
    shape: &StructShape,
    list: &ExprList,
    ctx: &mut Context,
    host: &mut H,
    depth: usize,
) -> (r: Expression)
    ensures
        frame(old(ctx)@, final(ctx)@),
            agrees(construct_spec(shape.name@, shape.fields, list@, old(ctx)@, depth), r@, final(ctx)@),
    decreases depth, 3int,
{
    let tail = list.skip(1);
    assert(tail@ =~= rest(list@));
    match eval_args(&tail, ctx, host, depth) {
        Ok(args) => construct(shape, args),
        Err(e) => e,
    }
}

/// What `(define-macro-rule (name pattern ...) body)` gives, and the
/// context it leaves.
///
/// The form takes two arguments. The first must be a list that begins with
/// a symbol, the macro's name; the name is then bound, in the innermost
/// scope, to the macro with this pattern and body, and the result is nil.
pub open spec fn define_rule_leaf(list: Seq<ExprView>, ctx: ContextView) -> (ExprView, ContextView) {
    if argc(list) != 2 {
        (arity_error(2, argc(list)), ctx)
    } else {
        match list[1] {
            ExprView::Cons(pattern) => if pattern.len() == 0 {
                (syntax_error(37, "macro definition must include a name"@), ctx)
            } else {
                match pattern[0] {
                    ExprView::Symbol(name) => (
                        nil_view(),
                        ctx.bind(
                            name,
                            ExprView::Callable(
                                CallableView::Macro(
                                    MacroView::Rule(
                                        RuleView {
                                            name,
                                            pattern: Box::new(list[1]),
                                            body: Box::new(list[2]),
                                        },
                                    ),
                                ),
                            ),
                        ),
                    ),
                    _ => (custom_error(38, "macro name must be a symbol"@), ctx),
                }
            },
            _ => (syntax_error(40, "syntax rule must be a list"@), ctx),
        }
    }
}

/// `(define-macro-rule (<name> <pattern> ...) <body>)`
///
/// Defines a pattern macro, as [`define_rule_leaf`] says. Nothing is
/// evaluated.
pub fn define_syntax_rule(list: &ExprList, ctx: &mut Context) -> (r: Expression)
    ensures
        r@ == define_rule_leaf(list@, old(ctx)@).0,
        final(ctx)@ == define_rule_leaf(list@, old(ctx)@).1,
        frame(old(ctx)@, final(ctx)@),
{
    let n = arg_count(list);
    if n != 2 {
        return fail(Exception::arity(2, n));
    }
    let (pattern, body) = match (list.nth(1), list.nth(2)) {
        (Some(a), Some(b)) => (a, b),
        _ => {
            return nil();
        },
    };
    match &*pattern {
        Expression::Cons(items) => {
            match items.head() {
                None => fail(Exception::syntax(37, "macro definition must include a name")),
                Some(first) => match &*first {
                    Expression::Symbol(name) => {
                        let rule = SyntaxRule {
                            name: name.clone(),
                            pattern: (*pattern).clone(),
                            body: (*body).clone(),
                        };
                        let ghost rv = RuleView {
                            name: name@,
                            pattern: Box::new(list@[1]),
                            body: Box::new(list@[2]),
                        };
                        assert(rule@ == rv);
                        let m = Macro::Rule(Rc::new(rule));
                        assert(m@ == MacroView::Rule(rv));
                        let c = Callable::Macro(m);
                        assert(c@ == CallableView::Macro(MacroView::Rule(rv)));
                        let value = Expression::Callable(c);
                        ctx.insert(name.as_str(), value);
                        nil()
                    },
                    _ => fail(Exception::custom(38, "macro name must be a symbol")),
                },
            }
        },
        _ => fail(Exception::syntax(40, "syntax rule must be a list")),
    }
}

/// Expands a call of a pattern macro: the call is matched against the
/// macro's pattern, with the macro's name as the one literal keyword, and
/// what the pattern's symbols matched is put into the body. A call that
/// does not match gives the error of the first mismatch.
pub fn expand<H: Host>(rule: &SyntaxRule, list: &ExprList, host: &H) -> (r: Result<
    Expression,
    Exception,
>)
    ensures
        match crate::pattern::match_walk(
            seq![rule.name@],
            rule.pattern@,
            ExprView::Cons(list@),
            Map::empty(),
        ) {
            crate::pattern::MatchOutcome::Bound(b) => r is Ok && r->Ok_0@
                == crate::pattern::replace_walk(rule.body@, b),
            crate::pattern::MatchOutcome::Mismatch(x, y) => r is Err
                && crate::pattern::is_mismatch(host, r->Err_0@, x, y),
        },
{
    let mut syntax: Vec<String> = Vec::new();
    syntax.push(rule.name.clone());
    assert(crate::pattern::names_of(syntax@) =~= seq![rule.name@]);
    let input = Expression::Cons(list.clone());
    match pattern_match(&syntax, &rule.pattern, &input, host) {
        Ok(matches) => Ok(replace_symbols(&rule.body, &matches)),
        Err(e) => Err(e),
    }
}

/// Calls a pattern macro: the call is expanded and the expansion evaluated.
pub(crate) fn rule_at<H: Host>(
    rule: &SyntaxRule,
    list: &ExprList,
    ctx: &mut Context,
    host: &mut H,
    depth: usize,
) -> (r: Expression)
    ensures
        frame(old(ctx)@, final(ctx)@),
        agrees(rule_spec(rule@, list@, old(ctx)@, depth), r@, final(ctx)@),
        mismatched(&*final(host), rule@, list@, old(ctx)@, r@, final(ctx)@),
    decreases depth, 3int,
{
    match expand(rule, list, &*host) {
        Ok(expansion) => eval_at(&expansion, ctx, host, depth),
        Err(e) => {
            assert(e@.stack =~= Seq::empty());
            fail(e)
        },
    }
}

/// Applies a macro to the call list `list`, head included.
pub(crate) fn apply_macro<H: Host>(
    m: &Macro,
    list: &ExprList,
    ctx: &mut Context,
    host: &mut H,
    depth: usize,
) -> (r: Expression)
    ensures
        frame(old(ctx)@, final(ctx)@),
        agrees(macro_spec(m@, list@, old(ctx)@, depth), r@, final(ctx)@),
        m@ matches MacroView::Rule(rule) ==> mismatched(
            &*final(host),
            rule,
            list@,
            old(ctx)@,
            r@,
            final(ctx)@,
        ),
        m@ == MacroView::Form(SpecialForm::Let) ==> let_stopped(
            &*final(host),
            list@,
            old(ctx)@,
            depth,
            r@,
            final(ctx)@,
        ),
        m@ == MacroView::Form(SpecialForm::Try) ==> try_refused(
            &*final(host),
            list@,
            old(ctx)@,
            depth,
            r@,
            final(ctx)@,
        ),
    decreases depth, 4int,
{
    match m {
        Macro::Form(form) => match form {
            SpecialForm::Define => define_at(list, ctx, host, depth),
            SpecialForm::Lambda => lambda(list, ctx),
            SpecialForm::Env => env_at(list, ctx, host, depth),
            SpecialForm::If => if_at(list, ctx, host, depth),
            SpecialForm::Begin => begin_at(list, ctx, host, depth),
            SpecialForm::Cond => cond_at(list, ctx, host, depth),
            SpecialForm::Let => let_at(list, ctx, host, depth),
            SpecialForm::Try => try_at(list, ctx, host, depth),
            SpecialForm::DefineStruct => define_struct(list, ctx),
            SpecialForm::DefineSyntaxRule => define_syntax_rule(list, ctx),
        },
        Macro::Construct(shape) => construct_at(shape, list, ctx, host, depth),
        Macro::Rule(rule) => rule_at(rule, list, ctx, host, depth),
    }
}

} // verus!
