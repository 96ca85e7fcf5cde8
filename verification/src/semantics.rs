//! What evaluation gives: the meaning of every expression whose
//! evaluation asks nothing of the host.
//!
//! Each function gives the value and the context that the evaluator of the
//! same name leaves, or `None` where the result depends on the host: on a
//! native operation, on how the host prints a number, or on what it reads.

use crate::context::ContextView;
use crate::display::number_free;
use crate::eval::{
    argc, arity_error, assign_effect, assign_result, check_result, custom_error, depth_error,
    error_of, field_result, nil_view, not_callable_error, unquote_error,
};
use crate::exception::{ExceptionDataView, ExceptionView};
use crate::expression::{
    CallableView, ExprView, Intrinsic, LambdaView, MacroView, RuleView, SpecialForm,
};
use crate::functions::builtin_result;
use crate::host::Host;
use crate::macros::{
    binding_name_error, binding_shape_error, bindings_error, body_of, clause_error,
    condition_error, construct_result, define_leaf, define_rule_leaf, define_struct_leaf,
    env_result, handler_error, if_error, lambda_result, report_of,
};
use crate::pattern::{match_walk, mismatch_text, replace_walk, MatchOutcome};
use vstd::prelude::*;

verus! {

/// A value and the context that its evaluation left.
pub type Outcome = Option<(ExprView, ContextView)>;

/// The evaluated arguments of a call, or the error that ended their
/// evaluation; and the context that was left.
pub type ArgsOutcome = Option<(Result<Seq<ExprView>, ExprView>, ContextView)>;

/// Whether a result and the context left agree with what the semantics
/// gives, where it gives something.
pub open spec fn agrees(spec: Outcome, r: ExprView, after: ContextView) -> bool {
    spec matches Some(out) ==> r == out.0 && after == out.1
}

/// Whether evaluated arguments and the context left agree with what the
/// semantics gives, where it gives something.
pub open spec fn args_agree(
    spec: ArgsOutcome,
    r: Result<Seq<ExprView>, ExprView>,
    after: ContextView,
) -> bool {
    spec matches Some(out) ==> r == out.0 && after == out.1
}

/// The items of a call list but the head.
pub open spec fn rest(list: Seq<ExprView>) -> Seq<ExprView> {
    if list.len() == 0 {
        list
    } else {
        list.subrange(1, list.len() as int)
    }
}

/// An error with `site` put in front of its trace; any other value as it
/// is.
pub open spec fn traced(value: ExprView, site: ExprView) -> ExprView {
    match value {
        ExprView::Error(e) => ExprView::Error(
            ExceptionView { stack: seq![site] + e.stack, data: e.data },
        ),
        _ => value,
    }
}

/// The context with the first `k` of `bindings` made, in order.
pub open spec fn bind_all(c: ContextView, bindings: Seq<(Seq<char>, ExprView)>, k: nat) -> ContextView
    decreases k,
{
    if k == 0 {
        c
    } else {
        bind_all(c, bindings, (k - 1) as nat).bind(bindings[k - 1].0, bindings[k - 1].1)
    }
}

/// The context with the first `k` of `params` bound to the arguments at
/// their positions. A parameter that is no symbol binds nothing.
pub open spec fn bind_params(
    c: ContextView,
    params: Seq<ExprView>,
    args: Seq<ExprView>,
    k: nat,
) -> ContextView
    decreases k,
{
    if k == 0 {
        c
    } else {
        let before = bind_params(c, params, args, (k - 1) as nat);
        match params[k - 1] {
            ExprView::Symbol(name) => before.bind(name, args[k - 1]),
            _ => before,
        }
    }
}

/// The scope in which the body of a lambda is evaluated: a new scope with
/// the captured bindings made first and the parameters bound after them.
pub open spec fn lambda_scope(l: LambdaView, args: Seq<ExprView>, c: ContextView) -> ContextView {
    let captured = match l.capture {
        Some(bindings) => bind_all(c.push(), bindings, bindings.len()),
        None => c.push(),
    };
    bind_params(captured, l.params, args, l.params.len())
}

/// What `e` evaluates to in `c`, with calls nested at most `depth` deep.
pub open spec fn eval_spec(e: ExprView, c: ContextView, depth: usize) -> Outcome
    decreases depth, 0int,
{
    match e {
        ExprView::Symbol(name) => Some(
            (
                match c.lookup(name) {
                    Some(v) => v,
                    None => error_of(ExceptionDataView::Undefined(name)),
                },
                c,
            ),
        ),
        ExprView::Cons(items) => if items.len() == 0 {
            Some((e, c))
        } else if depth == 0 {
            Some((depth_error(), c))
        } else {
            match eval_spec(items[0], c, (depth - 1) as usize) {
                None => None,
                Some((f, c1)) => match call_spec(f, items, c1, (depth - 1) as usize) {
                    None => None,
                    Some((r, c2)) => Some((traced(r, e), c2)),
                },
            }
        },
        _ => Some((e, c)),
    }
}

/// The value of the head of the call `e`, and the context that its
/// evaluation left, where that value can be neither called nor handed on as
/// an error.
pub open spec fn uncallable_head(e: ExprView, c: ContextView, depth: usize) -> Outcome {
    match e {
        ExprView::Cons(items) => if items.len() > 0 && depth > 0 {
            match eval_spec(items[0], c, (depth - 1) as usize) {
                Some((f, c1)) => if f is Callable || f is Error {
                    None
                } else {
                    Some((f, c1))
                },
                None => None,
            }
        } else {
            None
        },
        _ => None,
    }
}

/// The value of the head of the call `e` and the context that its
/// evaluation left, where the head is evaluated without the host.
pub open spec fn head_value(e: ExprView, c: ContextView, depth: usize) -> Outcome {
    match e {
        ExprView::Cons(items) => if items.len() > 0 && depth > 0 {
            eval_spec(items[0], c, (depth - 1) as usize)
        } else {
            None
        },
        _ => None,
    }
}

/// Whether `r` and `after` are what the pattern macro `rule` gives for a
/// call list that its pattern does not match: the error of the first
/// mismatch, which shows what the pattern has there and what the call has,
/// and the context as it was.
pub open spec fn mismatched<H: Host>(
    host: &H,
    rule: RuleView,
    list: Seq<ExprView>,
    c: ContextView,
    r: ExprView,
    after: ContextView,
) -> bool {
    match_walk(seq![rule.name], *rule.pattern, ExprView::Cons(list), Map::empty())
        matches MatchOutcome::Mismatch(x, y) ==> after == c && (r matches ExprView::Error(e)
        && crate::pattern::is_mismatch(host, e, x, y))
}

/// What calling `f` on the call list `list` gives.
pub open spec fn call_spec(f: ExprView, list: Seq<ExprView>, c: ContextView, depth: usize) -> Outcome
    decreases depth, 5int,
{
    match f {
        ExprView::Error(_) => Some((f, c)),
        ExprView::Callable(callable) => match callable {
            CallableView::Quote => if argc(list) == 1 {
                Some((list[1], c))
            } else {
                Some((arity_error(1, argc(list)), c))
            },
            CallableView::Quasiquote => if argc(list) == 1 {
                quasi_spec(list[1], c, depth)
            } else {
                Some((arity_error(1, argc(list)), c))
            },
            CallableView::Unquote => Some((unquote_error(), c)),
            CallableView::Macro(m) => macro_spec(m, list, c, depth),
            CallableView::Intrinsic(i) => match args_spec(rest(list), 0, Seq::empty(), c, depth) {
                None => None,
                Some((Ok(args), c1)) => intrinsic_spec(i, args, c1, depth),
                Some((Err(e), c1)) => Some((e, c1)),
            },
            CallableView::Lambda(l) => match args_spec(rest(list), 0, Seq::empty(), c, depth) {
                None => None,
                Some((Ok(args), c1)) => lambda_spec(l, args, c1, depth),
                Some((Err(e), c1)) => Some((e, c1)),
            },
        },
        other => if number_free(other) {
            Some((not_callable_error(other), c))
        } else {
            None
        },
    }
}

/// What the evaluation of the arguments from position `i` on gives, with
/// `acc` the values of those before: the values of all, or the first
/// error, behind which nothing is evaluated.
pub open spec fn args_spec(
    items: Seq<ExprView>,
    i: nat,
    acc: Seq<ExprView>,
    c: ContextView,
    depth: usize,
) -> ArgsOutcome
    decreases depth, 1int, items.len() - i,
{
    if i >= items.len() {
        Some((Ok(acc), c))
    } else {
        match eval_spec(items[i as int], c, depth) {
            None => None,
            Some((v, c1)) => if v is Error {
                Some((Err(v), c1))
            } else {
                args_spec(items, i + 1, acc.push(v), c1, depth)
            },
        }
    }
}

/// What applying a lambda to evaluated arguments gives.
pub open spec fn lambda_spec(l: LambdaView, args: Seq<ExprView>, c: ContextView, depth: usize) -> Outcome
    decreases depth, 4int,
{
    if l.params.len() != args.len() {
        Some((arity_error(l.params.len() as usize, args.len() as usize), c))
    } else {
        match eval_spec(*l.body, lambda_scope(l, args, c), depth) {
            None => None,
            Some((r, c1)) => Some((r, c1.pop())),
        }
    }
}

/// What `e` gives under `quasiquote`.
pub open spec fn quasi_spec(e: ExprView, c: ContextView, depth: usize) -> Outcome
    decreases depth, 1int, e, 0nat,
{
    match e {
        ExprView::Cons(items) => if items.len() == 2 && items[0] == ExprView::Callable(
            CallableView::Unquote,
        ) {
            eval_spec(items[1], c, depth)
        } else {
            match quasi_all(items, 0, Seq::empty(), c, depth) {
                None => None,
                Some((out, c1)) => Some((ExprView::Cons(out), c1)),
            }
        },
        _ => Some((e, c)),
    }
}

/// The items from position `i` on under `quasiquote`, behind `acc`.
pub open spec fn quasi_all(
    items: Seq<ExprView>,
    i: nat,
    acc: Seq<ExprView>,
    c: ContextView,
    depth: usize,
) -> Option<(Seq<ExprView>, ContextView)>
    decreases depth, 1int, items, items.len() - i,
{
    if i >= items.len() {
        Some((acc, c))
    } else {
        match quasi_spec(items[i as int], c, depth) {
            None => None,
            Some((v, c1)) => quasi_all(items, i + 1, acc.push(v), c1, depth),
        }
    }
}

/// What a built-in function gives for evaluated arguments.
pub open spec fn intrinsic_spec(
    f: Intrinsic,
    args: Seq<ExprView>,
    c: ContextView,
    depth: usize,
) -> Outcome
    decreases depth, 4int,
{
    match f {
        Intrinsic::Field(index) => Some((field_result(index, args), c)),
        Intrinsic::IsStruct(id) => Some((ExprView::Bool(check_result(id, args, c)), c)),
        Intrinsic::Eval => if args.len() == 1 {
            eval_spec(args[0], c, depth)
        } else {
            Some((arity_error(1, args.len() as usize), c))
        },
        Intrinsic::Assign => Some((assign_result(args, c), assign_effect(args, c))),
        Intrinsic::Pure(b) => Some((builtin_result(b, args), c)),
        Intrinsic::Compare(kind) => match crate::numeric::compare_result(kind, args) {
            Some(v) => Some((v, c)),
            None => None,
        },
        Intrinsic::Quaternion => match crate::numeric::quaternion_result(args) {
            Some(v) => Some((v, c)),
            None => None,
        },
        Intrinsic::Repeat => repeat_spec(args, c, depth),
        Intrinsic::Concat => match crate::intrinsics::concat_result(args) {
            Some(v) => Some((v, c)),
            None => None,
        },
        Intrinsic::Parse => match crate::intrinsics::parse_result(args) {
            Some(v) => Some((v, c)),
            None => None,
        },
        Intrinsic::Format => match crate::interpolate::format_leaf(args) {
            Some(v) => Some((v, c)),
            None => None,
        },
        Intrinsic::Import => match crate::import::import_leaf(args) {
            Some(v) => Some((v, c)),
            None => None,
        },
        _ => None,
    }
}

/// What `repeat` gives.
pub open spec fn repeat_spec(args: Seq<ExprView>, c: ContextView, depth: usize) -> Outcome
    decreases depth, 3int,
{
    match crate::intrinsics::repeat_leaf(args) {
        Some(v) => Some((v, c)),
        None => if depth == 0 {
            Some((depth_error(), c))
        } else if args.len() == 2 && args[0] is Num {
            match crate::intrinsics::count_of(args[0]->Num_0) {
                Some(count) => repeat_from(args[1], count, 0, c, (depth - 1) as usize),
                None => None,
            }
        } else {
            None
        },
    }
}

/// What `repeat` gives from the call `i` on: the procedure is called
/// without arguments until `count` calls are made or one gives an error.
pub open spec fn repeat_from(f: ExprView, count: u32, i: nat, c: ContextView, depth: usize) -> Outcome
    decreases depth, 6int, count - i,
{
    if i >= count {
        Some((nil_view(), c))
    } else {
        match call_spec(f, Seq::empty(), c, depth) {
            None => None,
            Some((r, c1)) => if r is Error {
                Some((r, c1))
            } else {
                repeat_from(f, count, i + 1, c1, depth)
            },
        }
    }
}

/// What a macro gives for the call list `list`.
pub open spec fn macro_spec(m: MacroView, list: Seq<ExprView>, c: ContextView, depth: usize) -> Outcome
    decreases depth, 4int,
{
    match m {
        MacroView::Form(form) => match form {
            SpecialForm::Define => define_spec(list, c, depth),
            SpecialForm::Lambda => Some((lambda_result(list, c), c)),
            SpecialForm::Env => env_spec(list, c, depth),
            SpecialForm::If => if_spec(list, c, depth),
            SpecialForm::Cond => cond_spec(list, c, depth),
            SpecialForm::Let => let_spec(list, c, depth),
            SpecialForm::Try => try_spec(list, c, depth),
            SpecialForm::DefineStruct => Some(define_struct_leaf(list, c)),
            SpecialForm::Begin => begin_spec(rest(list), 0, nil_view(), c, depth),
            SpecialForm::DefineSyntaxRule => Some(define_rule_leaf(list, c)),
        },
        MacroView::Construct(name, fields) => construct_spec(name, fields, list, c, depth),
        MacroView::Rule(rule) => rule_spec(rule, list, c, depth),
    }
}

/// What `define` gives.
pub open spec fn define_spec(list: Seq<ExprView>, c: ContextView, depth: usize) -> Outcome
    decreases depth, 3int,
{
    match define_leaf(list, c) {
        Some(leaf) => Some(leaf),
        None => match eval_spec(list[2], c, depth) {
            None => None,
            Some((v, c1)) => if v is Error {
                Some((v, c1))
            } else {
                Some((nil_view(), c1.bind(list[1]->Symbol_0, v)))
            },
        },
    }
}

/// What `env` gives.
pub open spec fn env_spec(list: Seq<ExprView>, c: ContextView, depth: usize) -> Outcome
    decreases depth, 3int,
{
    if list.len() < 2 {
        Some((arity_error(1, 99), c))
    } else {
        match eval_spec(list[1], c, depth) {
            None => None,
            Some((v, c1)) => Some((env_result(v, c1), c1)),
        }
    }
}

/// What `if` gives: only the branch that the condition selects is
/// evaluated.
pub open spec fn if_spec(list: Seq<ExprView>, c: ContextView, depth: usize) -> Outcome
    decreases depth, 3int,
{
    if list.len() != 4 {
        Some((arity_error(3, list.len() as usize), c))
    } else {
        match eval_spec(list[1], c, depth) {
            None => None,
            Some((v, c1)) => match v {
                ExprView::Bool(b) => if b {
                    eval_spec(list[2], c1, depth)
                } else {
                    eval_spec(list[3], c1, depth)
                },
                _ => Some((if_error(v, list[2], list[3]), c1)),
            },
        }
    }
}

/// What `begin` gives for the expressions from position `i` on, with
/// `last` the value of the one before.
pub open spec fn begin_spec(
    items: Seq<ExprView>,
    i: nat,
    last: ExprView,
    c: ContextView,
    depth: usize,
) -> Outcome
    decreases depth, 3int, items.len() - i,
{
    if i >= items.len() {
        Some((last, c))
    } else {
        match eval_spec(items[i as int], c, depth) {
            None => None,
            Some((v, c1)) => if v is Error {
                Some((v, c1))
            } else {
                begin_spec(items, i + 1, v, c1, depth)
            },
        }
    }
}

/// What `cond` gives.
pub open spec fn cond_spec(list: Seq<ExprView>, c: ContextView, depth: usize) -> Outcome
    decreases depth, 3int,
{
    cond_from(rest(list), 0, c.push().bind("else"@, ExprView::Bool(true)), depth)
}

/// What `cond` gives for the clauses from position `i` on, in the scope
/// `c` that it entered.
pub open spec fn cond_from(clauses: Seq<ExprView>, i: nat, c: ContextView, depth: usize) -> Outcome
    decreases depth, 2int, clauses.len() - i,
{
    if i >= clauses.len() {
        Some((nil_view(), c.pop()))
    } else {
        match clauses[i as int] {
            ExprView::Cons(clause) => if clause.len() == 2 {
                match eval_spec(clause[0], c, depth) {
                    None => None,
                    Some((p, c1)) => match p {
                        ExprView::Bool(b) => if b {
                            eval_spec(clause[1], c1.pop(), depth)
                        } else {
                            cond_from(clauses, i + 1, c1, depth)
                        },
                        ExprView::Error(_) => Some((p, c1.pop())),
                        _ => Some((condition_error(), c1.pop())),
                    },
                }
            } else {
                Some((clause_error(), c.pop()))
            },
            _ => Some((clause_error(), c.pop())),
        }
    }
}

/// What `let` gives.
pub open spec fn let_spec(list: Seq<ExprView>, c: ContextView, depth: usize) -> Outcome
    decreases depth, 3int,
{
    if list.len() < 2 {
        Some((arity_error(2, 0), c))
    } else {
        match list[1] {
            ExprView::Cons(bindings) => let_from(
                bindings,
                0,
                body_of(list.subrange(2, list.len() as int)),
                c.push(),
                depth,
            ),
            _ => Some((bindings_error(), c)),
        }
    }
}

/// What `let` gives for the bindings from position `i` on and the body, in
/// the scope `c` that it entered.
pub open spec fn let_from(
    bindings: Seq<ExprView>,
    i: nat,
    body: ExprView,
    c: ContextView,
    depth: usize,
) -> Outcome
    decreases depth, 2int, bindings.len() - i,
{
    if i >= bindings.len() {
        match eval_spec(body, c, depth) {
            None => None,
            Some((r, c1)) => Some((r, c1.pop())),
        }
    } else {
        match bindings[i as int] {
            ExprView::Cons(items) => if items.len() == 2 {
                match items[0] {
                    ExprView::Symbol(name) => match eval_spec(items[1], c, depth) {
                        None => None,
                        Some((v, c1)) => let_from(
                            bindings,
                            i + 1,
                            body,
                            if v is Error {
                                c1
                            } else {
                                c1.bind(name, v)
                            },
                            depth,
                        ),
                    },
                    other => if number_free(other) {
                        Some((binding_name_error(other), c.pop()))
                    } else {
                        None
                    },
                }
            } else {
                Some((arity_error(2, items.len() as usize), c.pop()))
            },
            other => if number_free(other) {
                Some((binding_shape_error(other), c.pop()))
            } else {
                None
            },
        }
    }
}

/// Where the reading of the bindings of a `let` ends, from position `i` on
/// in the scope `c`: the position of the first binding that is no list of a
/// symbol and a value, or the number of bindings where all are; and the
/// context that the bindings before it left.
pub open spec fn let_walk(bindings: Seq<ExprView>, i: nat, c: ContextView, depth: usize) -> Option<
    (nat, ContextView),
>
    decreases bindings.len() - i,
{
    if i >= bindings.len() {
        Some((i, c))
    } else {
        match bindings[i as int] {
            ExprView::Cons(items) => if items.len() == 2 && items[0] is Symbol {
                match eval_spec(items[1], c, depth) {
                    None => None,
                    Some((v, c1)) => let_walk(
                        bindings,
                        i + 1,
                        if v is Error {
                            c1
                        } else {
                            c1.bind(items[0]->Symbol_0, v)
                        },
                        depth,
                    ),
                }
            } else {
                Some((i, c))
            },
            _ => Some((i, c)),
        }
    }
}

/// What `try` gives.
pub open spec fn try_spec(list: Seq<ExprView>, c: ContextView, depth: usize) -> Outcome
    decreases depth, 3int,
{
    if argc(list) != 2 {
        Some((arity_error(2, argc(list)), c))
    } else {
        match eval_spec(list[2], c, depth) {
            None => None,
            Some((handler, c1)) => if !(handler is Callable) {
                if number_free(handler) {
                    Some((handler_error(handler), c1))
                } else {
                    None
                }
            } else {
                match eval_spec(list[1], c1, depth) {
                    None => None,
                    Some((v, c2)) => match v {
                        ExprView::Error(e) => eval_spec(
                            ExprView::Cons(seq![handler, report_of(e)]),
                            c2,
                            depth,
                        ),
                        _ => Some((v, c2)),
                    },
                }
            },
        }
    }
}

/// What the constructor of a struct gives.
pub open spec fn construct_spec(
    name: Seq<char>,
    fields: usize,
    list: Seq<ExprView>,
    c: ContextView,
    depth: usize,
) -> Outcome
    decreases depth, 3int,
{
    match args_spec(rest(list), 0, Seq::empty(), c, depth) {
        None => None,
        Some((Ok(args), c1)) => Some((construct_result(name, fields, args), c1)),
        Some((Err(e), c1)) => Some((e, c1)),
    }
}

/// What a pattern macro gives.
pub open spec fn rule_spec(rule: RuleView, list: Seq<ExprView>, c: ContextView, depth: usize) -> Outcome
    decreases depth, 3int,
{
    match match_walk(seq![rule.name], *rule.pattern, ExprView::Cons(list), Map::empty()) {
        MatchOutcome::Bound(b) => eval_spec(replace_walk(*rule.body, b), c, depth),
        MatchOutcome::Mismatch(x, y) => if number_free(x) && number_free(y) {
            Some((custom_error(42, mismatch_text(x, y)), c))
        } else {
            None
        },
    }
}

} // verus!
