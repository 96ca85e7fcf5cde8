//! Laws of evaluation, proved from the semantics.

use crate::context::ContextView;
use crate::eval::{argc, arity_error, check_result, nil_view, unquote_error};
use crate::expression::{CallableView, ExprView, Intrinsic, LambdaView};
use crate::expression::StructView;
use crate::macros::body_of;
use crate::semantics::{
    args_spec, bind_all, bind_params, call_spec, cond_from, cond_spec, eval_spec, lambda_scope,
    lambda_spec, let_from, let_spec, quasi_spec, rest, traced,
};
use vstd::prelude::*;

verus! {

/// Binding in a context that has a scope changes nothing below the
/// innermost scope.
pub proof fn lemma_bind_keeps_outer(c: ContextView, key: Seq<char>, value: ExprView)
    requires
        c.depth() > 0,
    ensures
        c.bind(key, value).depth() == c.depth(),
        c.bind(key, value).pop() == c.pop(),
{
    assert(c.bind(key, value).pop().scopes =~= c.pop().scopes);
}

/// Making bindings changes nothing below the innermost scope.
pub proof fn lemma_bind_all_keeps_outer(
    c: ContextView,
    bindings: Seq<(Seq<char>, ExprView)>,
    k: nat,
)
    requires
        c.depth() > 0,
    ensures
        bind_all(c, bindings, k).depth() == c.depth(),
        bind_all(c, bindings, k).pop() == c.pop(),
    decreases k,
{
    if k > 0 {
        lemma_bind_all_keeps_outer(c, bindings, (k - 1) as nat);
        lemma_bind_keeps_outer(
            bind_all(c, bindings, (k - 1) as nat),
            bindings[k - 1].0,
            bindings[k - 1].1,
        );
    }
}

/// Binding parameters changes nothing below the innermost scope.
pub proof fn lemma_bind_params_keeps_outer(
    c: ContextView,
    params: Seq<ExprView>,
    args: Seq<ExprView>,
    k: nat,
)
    requires
        c.depth() > 0,
    ensures
        bind_params(c, params, args, k).depth() == c.depth(),
        bind_params(c, params, args, k).pop() == c.pop(),
    decreases k,
{
    if k > 0 {
        lemma_bind_params_keeps_outer(c, params, args, (k - 1) as nat);
        match params[k - 1] {
            ExprView::Symbol(name) => {
                lemma_bind_keeps_outer(
                    bind_params(c, params, args, (k - 1) as nat),
                    name,
                    args[k - 1],
                );
            },
            _ => {},
        }
    }
}

/// The scope of a lambda's body lies on top of the context of the call:
/// leaving it gives that context back, whatever was captured and bound.
pub proof fn law_lambda_scope_lies_on_top(l: LambdaView, args: Seq<ExprView>, c: ContextView)
    ensures
        lambda_scope(l, args, c).depth() == c.depth() + 1,
        lambda_scope(l, args, c).pop() == c,
{
    crate::context::law_push_pop(c);
    let captured = match l.capture {
        Some(bindings) => bind_all(c.push(), bindings, bindings.len()),
        None => c.push(),
    };
    match l.capture {
        Some(bindings) => {
            lemma_bind_all_keeps_outer(c.push(), bindings, bindings.len());
        },
        None => {},
    }
    lemma_bind_params_keeps_outer(captured, l.params, args, l.params.len());
}

/// Lexical scoping in a call: a lambda whose body is its one parameter
/// gives its argument, whatever the name is bound to outside and whatever
/// was captured; and the call leaves the context as it was.
pub proof fn law_parameter_shadows_outer_binding(
    l: LambdaView,
    name: Seq<char>,
    arg: ExprView,
    c: ContextView,
    depth: usize,
)
    requires
        l.params == seq![ExprView::Symbol(name)],
        *l.body == ExprView::Symbol(name),
    ensures
        lambda_spec(l, seq![arg], c, depth) == Some((arg, c)),
{
    let args = seq![arg];
    law_lambda_scope_lies_on_top(l, args, c);
    let captured = match l.capture {
        Some(bindings) => bind_all(c.push(), bindings, bindings.len()),
        None => c.push(),
    };
    match l.capture {
        Some(bindings) => {
            lemma_bind_all_keeps_outer(c.push(), bindings, bindings.len());
        },
        None => {},
    }
    assert(bind_params(captured, l.params, args, 0) == captured);
    assert(bind_params(captured, l.params, args, 1) == captured.bind(name, arg));
    crate::context::law_bind_lookup(captured, name, arg, name);
}

/// Lexical scoping in `let`: in `(let ([name value]) name)`, where the
/// value is a number, a string or a truth value, the body sees that value,
/// whatever the name is bound to outside; and the form leaves the context as
/// it was, so that outside the name has its outer value again.
pub proof fn law_let_binding_shadows_outer_binding(
    name: Seq<char>,
    value: ExprView,
    head: ExprView,
    c: ContextView,
    depth: usize,
)
    requires
        value is Num || value is Str || value is Bool,
    ensures
        let_spec(
            seq![
                head,
                ExprView::Cons(seq![ExprView::Cons(seq![ExprView::Symbol(name), value])]),
                ExprView::Symbol(name),
            ],
            c,
            depth,
        ) == Some((value, c)),
{
    let binding = ExprView::Cons(seq![ExprView::Symbol(name), value]);
    let bindings = seq![binding];
    let list = seq![head, ExprView::Cons(bindings), ExprView::Symbol(name)];
    let body = body_of(list.subrange(2, list.len() as int));
    assert(list.subrange(2, list.len() as int) =~= seq![ExprView::Symbol(name)]);
    assert(body == ExprView::Symbol(name));
    let inner = c.push();
    assert(eval_spec(value, inner, depth) == Some((value, inner)));
    let bound = inner.bind(name, value);
    assert(let_from(bindings, 1, body, bound, depth) == Some((value, bound.pop()))) by {
        crate::context::law_bind_lookup(inner, name, value, name);
        assert(eval_spec(body, bound, depth) == Some((value, bound)));
    }
    assert(let_from(bindings, 0, body, inner, depth) == let_from(bindings, 1, body, bound, depth));
    crate::context::law_inner_binding_shadows_and_outer_returns(c, name, value);
}

/// Capture is a snapshot: a lambda without parameters whose body is a
/// symbol that it captured gives the captured value, whatever the symbol is
/// bound to where the lambda is called.
pub proof fn law_capture_is_a_snapshot(
    l: LambdaView,
    name: Seq<char>,
    captured: ExprView,
    c: ContextView,
    depth: usize,
)
    requires
        l.params.len() == 0,
        *l.body == ExprView::Symbol(name),
        l.capture == Some(seq![(name, captured)]),
    ensures
        lambda_spec(l, Seq::empty(), c, depth) == Some((captured, c)),
{
    let args = Seq::<ExprView>::empty();
    law_lambda_scope_lies_on_top(l, args, c);
    let bindings = seq![(name, captured)];
    assert(bind_all(c.push(), bindings, 0) == c.push());
    assert(bind_all(c.push(), bindings, 1) == c.push().bind(name, captured));
    crate::context::law_bind_lookup(c.push(), name, captured, name);
}

/// The captured bindings are seen as they were made: after the first `m` of
/// them, a name that one of them binds last at position `k` has the value
/// bound there.
proof fn lemma_bind_all_binds(
    c: ContextView,
    bindings: Seq<(Seq<char>, ExprView)>,
    m: nat,
    k: int,
)
    requires
        c.depth() > 0,
        0 <= k < m <= bindings.len(),
        forall|j: int| k < j < bindings.len() ==> (#[trigger] bindings[j]).0 != bindings[k].0,
    ensures
        bind_all(c, bindings, m).lookup(bindings[k].0) == Some(bindings[k].1),
    decreases m,
{
    let before = bind_all(c, bindings, (m - 1) as nat);
    lemma_bind_all_keeps_outer(c, bindings, (m - 1) as nat);
    crate::context::law_bind_lookup(before, bindings[m - 1].0, bindings[m - 1].1, bindings[k].0);
    if m - 1 != k {
        lemma_bind_all_binds(c, bindings, (m - 1) as nat, k);
    }
}

/// Binding parameters leaves every name alone that is no parameter.
proof fn lemma_bind_params_keeps_others(
    c: ContextView,
    params: Seq<ExprView>,
    args: Seq<ExprView>,
    m: nat,
    name: Seq<char>,
)
    requires
        c.depth() > 0,
        m <= params.len(),
        forall|i: int| 0 <= i < params.len() ==> #[trigger] params[i] != ExprView::Symbol(name),
    ensures
        bind_params(c, params, args, m).lookup(name) == c.lookup(name),
    decreases m,
{
    if m > 0 {
        lemma_bind_params_keeps_others(c, params, args, (m - 1) as nat, name);
        lemma_bind_params_keeps_outer(c, params, args, (m - 1) as nat);
        match params[m - 1] {
            ExprView::Symbol(other) => {
                crate::context::law_bind_lookup(
                    bind_params(c, params, args, (m - 1) as nat),
                    other,
                    args[m - 1],
                    name,
                );
            },
            _ => {},
        }
    }
}

/// Capture is a snapshot, of every lambda: in the scope in which the body
/// is evaluated, a name that the lambda captured and that is none of its
/// parameters has the captured value, whatever the name is bound to where
/// the lambda is called and whatever the arguments are.
pub proof fn law_captured_value_is_seen(
    l: LambdaView,
    args: Seq<ExprView>,
    k: int,
    c: ContextView,
)
    requires
        l.capture matches Some(bindings) && 0 <= k < bindings.len() && (forall|j: int|
            k < j < bindings.len() ==> (#[trigger] bindings[j]).0 != bindings[k].0) && (forall|
            i: int,
        |
            0 <= i < l.params.len() ==> #[trigger] l.params[i] != ExprView::Symbol(bindings[k].0)),
    ensures
        lambda_scope(l, args, c).lookup(l.capture->Some_0[k].0) == Some(l.capture->Some_0[k].1),
{
    let bindings = l.capture->Some_0;
    let captured = bind_all(c.push(), bindings, bindings.len());
    lemma_bind_all_binds(c.push(), bindings, bindings.len(), k);
    lemma_bind_all_keeps_outer(c.push(), bindings, bindings.len());
    lemma_bind_params_keeps_others(captured, l.params, args, l.params.len(), bindings[k].0);
}

/// Capture is a snapshot of the context in which the lambda was made: in
/// the scope in which its body is evaluated, every name that it captured has
/// the value that it had where the lambda was made, whatever the name is
/// bound to where the lambda is called.
pub proof fn law_capture_outlives_rebinding(
    l: LambdaView,
    made_in: ContextView,
    args: Seq<ExprView>,
    k: int,
    c: ContextView,
)
    requires
        l.capture == Some(crate::capture::capture_of(*l.body, made_in, l.params)),
        0 <= k < l.capture->Some_0.len(),
    ensures
        lambda_scope(l, args, c).lookup(l.capture->Some_0[k].0) == made_in.lookup(
            l.capture->Some_0[k].0,
        ),
{
    let bindings = l.capture->Some_0;
    crate::capture::law_capture_is_taken_once(*l.body, made_in, l.params);
    assert forall|i: int| 0 <= i < l.params.len() implies #[trigger] l.params[i]
        != ExprView::Symbol(bindings[k].0) by {
        assert(!crate::capture::is_param(l.params, bindings[k].0));
    }
    law_captured_value_is_seen(l, args, k, c);
}

/// After the first `m` parameters are bound, a name that is the parameter
/// at position `k` and none behind it has the argument at that position.
proof fn lemma_bind_params_binds(
    c: ContextView,
    params: Seq<ExprView>,
    args: Seq<ExprView>,
    m: nat,
    k: int,
    name: Seq<char>,
)
    requires
        c.depth() > 0,
        0 <= k < m <= params.len(),
        params[k] == ExprView::Symbol(name),
        forall|j: int| k < j < params.len() ==> #[trigger] params[j] != ExprView::Symbol(name),
    ensures
        bind_params(c, params, args, m).lookup(name) == Some(args[k]),
    decreases m,
{
    let before = bind_params(c, params, args, (m - 1) as nat);
    lemma_bind_params_keeps_outer(c, params, args, (m - 1) as nat);
    if m - 1 == k {
        crate::context::law_bind_lookup(before, name, args[k], name);
    } else {
        lemma_bind_params_binds(c, params, args, (m - 1) as nat, k, name);
        match params[m - 1] {
            ExprView::Symbol(other) => {
                crate::context::law_bind_lookup(before, other, args[m - 1], name);
            },
            _ => {},
        }
    }
}

/// Lexical scoping in a call, of every lambda: in the scope in which the
/// body is evaluated, a parameter has the value of its argument, whatever
/// the name is bound to where the lambda is called and whatever was
/// captured under that name.
pub proof fn law_parameter_is_seen(
    l: LambdaView,
    args: Seq<ExprView>,
    k: int,
    name: Seq<char>,
    c: ContextView,
)
    requires
        0 <= k < l.params.len() == args.len(),
        l.params[k] == ExprView::Symbol(name),
        forall|j: int| k < j < l.params.len() ==> #[trigger] l.params[j] != ExprView::Symbol(name),
    ensures
        lambda_scope(l, args, c).lookup(name) == Some(args[k]),
{
    let captured = match l.capture {
        Some(bindings) => bind_all(c.push(), bindings, bindings.len()),
        None => c.push(),
    };
    match l.capture {
        Some(bindings) => {
            lemma_bind_all_keeps_outer(c.push(), bindings, bindings.len());
        },
        None => {},
    }
    lemma_bind_params_binds(captured, l.params, args, l.params.len(), k, name);
}

/// Arity is exact: a lambda applied to another number of arguments than it
/// has parameters gives the arity error of the two numbers, and binds
/// nothing.
pub proof fn law_arity_is_exact(l: LambdaView, args: Seq<ExprView>, c: ContextView, depth: usize)
    requires
        l.params.len() != args.len(),
    ensures
        lambda_spec(l, args, c, depth) == Some(
            (arity_error(l.params.len() as usize, args.len() as usize), c),
        ),
{
}

/// Arity is exact in a call: where the arguments of a call of a lambda
/// each give a value that is no error, and there are more or fewer of them
/// than the lambda has parameters, the call gives the arity error of the two
/// numbers, and the context is as the arguments left it: nothing is bound
/// and the body is not evaluated.
pub proof fn law_call_arity_is_exact(
    l: LambdaView,
    list: Seq<ExprView>,
    c: ContextView,
    depth: usize,
)
    requires
        args_spec(rest(list), 0, Seq::empty(), c, depth) matches Some((Ok(args), _))
            && args.len() != l.params.len(),
    ensures
        ({
            let (args, after) = args_spec(rest(list), 0, Seq::empty(), c, depth).unwrap();
            call_spec(ExprView::Callable(CallableView::Lambda(l)), list, c, depth) == Some(
                (arity_error(l.params.len() as usize, args->Ok_0.len() as usize), after),
            )
        }),
{
}

/// An argument that gives an error ends the evaluation of the arguments:
/// the error is the result, and what stands behind it is not evaluated, so
/// that any other arguments behind it give the same.
pub proof fn law_argument_error_ends_the_call(
    items: Seq<ExprView>,
    others: Seq<ExprView>,
    i: nat,
    acc: Seq<ExprView>,
    c: ContextView,
    depth: usize,
)
    requires
        i < items.len(),
        i < others.len(),
        others[i as int] == items[i as int],
        eval_spec(items[i as int], c, depth) matches Some(out) && out.0 is Error,
    ensures
        ({
            let (error, after) = eval_spec(items[i as int], c, depth).unwrap();
            args_spec(items, i, acc, c, depth) == Some(
                (Err::<Seq<ExprView>, ExprView>(error), after),
            )
        }),
        args_spec(others, i, acc, c, depth) == args_spec(items, i, acc, c, depth),
{
}

/// Quoting: `(quote x)` evaluates to `x` as it stands and leaves the
/// context as it was. (An `x` that is itself an error value comes back with
/// the call in front of its trace, as every error does.)
pub proof fn law_quote_gives_its_argument(x: ExprView, c: ContextView, depth: usize)
    requires
        depth > 0,
        !(x is Error),
    ensures
        eval_spec(
            ExprView::Cons(seq![ExprView::Callable(CallableView::Quote), x]),
            c,
            depth,
        ) == Some((x, c)),
{
    let items = seq![ExprView::Callable(CallableView::Quote), x];
    assert(eval_spec(items[0], c, (depth - 1) as usize) == Some((items[0], c)));
    assert(argc(items) == 1);
    assert(call_spec(items[0], items, c, (depth - 1) as usize) == Some((x, c)));
}

/// Quoting and evaluating are inverse: `(eval (quote x))` gives what `x`
/// itself evaluates to, and leaves the context that the evaluation of `x`
/// leaves. (An error that `x` gives comes back with the call in front of its
/// trace, as every error does.)
pub proof fn law_eval_of_quote_evaluates(x: ExprView, c: ContextView, depth: usize)
    requires
        depth >= 2,
        !(x is Error),
    ensures
        ({
            let quoted = ExprView::Cons(seq![ExprView::Callable(CallableView::Quote), x]);
            let whole = ExprView::Cons(
                seq![ExprView::Callable(CallableView::Intrinsic(Intrinsic::Eval)), quoted],
            );
            match eval_spec(x, c, (depth - 1) as usize) {
                Some((v, after)) => eval_spec(whole, c, depth) == Some((traced(v, whole), after)),
                None => eval_spec(whole, c, depth) is None,
            }
        }),
{
    let quoted = ExprView::Cons(seq![ExprView::Callable(CallableView::Quote), x]);
    let head = ExprView::Callable(CallableView::Intrinsic(Intrinsic::Eval));
    let items = seq![head, quoted];
    let d = (depth - 1) as usize;
    law_quote_gives_its_argument(x, c, d);
    assert(rest(items) =~= seq![quoted]);
    let one = Seq::<ExprView>::empty().push(x);
    assert(args_spec(rest(items), 1, one, c, d) == Some((Ok::<Seq<ExprView>, ExprView>(one), c)));
    assert(args_spec(rest(items), 0, Seq::empty(), c, d) == args_spec(rest(items), 1, one, c, d));
    assert(eval_spec(head, c, d) == Some((head, c)));
    assert(call_spec(head, items, c, d) == eval_spec(x, c, d));
}

/// Under `quasiquote`, `(unquote x)` gives what `x` evaluates to.
pub proof fn law_unquote_is_evaluated(x: ExprView, c: ContextView, depth: usize)
    ensures
        quasi_spec(
            ExprView::Cons(seq![ExprView::Callable(CallableView::Unquote), x]),
            c,
            depth,
        ) == eval_spec(x, c, depth),
{
}

/// Whether `e` holds no `(unquote x)`.
pub open spec fn unquote_free(e: ExprView) -> bool
    decreases e, 1int,
{
    match e {
        ExprView::Cons(items) => !(items.len() == 2 && items[0] == ExprView::Callable(
            CallableView::Unquote,
        )) && unquote_free_from(items, 0),
        _ => true,
    }
}

/// Whether the items from position `i` on hold no `(unquote x)`.
pub open spec fn unquote_free_from(items: Seq<ExprView>, i: nat) -> bool
    decreases items, 0int, items.len() - i,
{
    i >= items.len() || (unquote_free(items[i as int]) && unquote_free_from(items, i + 1))
}

/// Under `quasiquote`, what holds no `unquote` is given back as it stands,
/// and nothing is evaluated.
pub proof fn law_quasiquote_gives_the_rest_literally(e: ExprView, c: ContextView, depth: usize)
    requires
        unquote_free(e),
    ensures
        quasi_spec(e, c, depth) == Some((e, c)),
    decreases e, 1int,
{
    match e {
        ExprView::Cons(items) => {
            assert(items.subrange(0, 0) =~= Seq::<ExprView>::empty());
            lemma_quasi_all_literal(items, 0, c, depth);
        },
        _ => {},
    }
}

/// Under `quasiquote`, items that hold no `unquote` are given back as they
/// stand.
proof fn lemma_quasi_all_literal(items: Seq<ExprView>, i: nat, c: ContextView, depth: usize)
    requires
        i <= items.len(),
        unquote_free_from(items, i),
    ensures
        crate::semantics::quasi_all(items, i, items.subrange(0, i as int), c, depth) == Some(
            (items, c),
        ),
    decreases items, 0int, items.len() - i,
{
    if i < items.len() {
        law_quasiquote_gives_the_rest_literally(items[i as int], c, depth);
        assert(items.subrange(0, i as int).push(items[i as int]) =~= items.subrange(
            0,
            i as int + 1,
        ));
        lemma_quasi_all_literal(items, i + 1, c, depth);
    } else {
        assert(items.subrange(0, i as int) =~= items);
    }
}

/// Outside a `quasiquote`, calling `unquote` is a syntax error, whatever
/// its arguments are.
pub proof fn law_unquote_alone_is_an_error(list: Seq<ExprView>, c: ContextView, depth: usize)
    ensures
        call_spec(ExprView::Callable(CallableView::Unquote), list, c, depth) == Some(
            (unquote_error(), c),
        ),
{
}

/// A struct predicate holds only of a struct whose type name has the
/// predicate's id: a value of a type that was declared under another id is
/// not taken for it, whatever its fields are.
pub proof fn law_struct_predicate_goes_by_id(id: usize, args: Seq<ExprView>, c: ContextView)
    requires
        check_result(id, args, c),
    ensures
        args.len() == 1,
        args[0] is Struct,
        c.struct_id(args[0]->Struct_0.name) == Some(id),
{
}

/// Struct identity: the predicate of one struct type does not hold of an
/// instance of another that was declared under another id, whatever fields
/// the two have.
pub proof fn law_distinct_structs_are_told_apart(
    id: usize,
    other_id: usize,
    other: StructView,
    c: ContextView,
)
    requires
        c.struct_id(other.name) == Some(other_id),
        id != other_id,
    ensures
        !check_result(id, seq![ExprView::Struct(other)], c),
{
}

/// A binding changes what no struct name stands for.
proof fn lemma_bind_keeps_struct_ids(c: ContextView, key: Seq<char>, value: ExprView, name: Seq<char>)
    ensures
        c.bind(key, value).struct_id(name) == c.struct_id(name),
        c.bind(key, value).struct_count == c.struct_count,
{
    if c.scopes.len() > 0 {
        assert(c.bind(key, value).scopes.drop_last() =~= c.scopes.drop_last());
    }
}

/// Binding accessors changes what no struct name stands for.
proof fn lemma_bind_accessors_keeps_struct_ids(
    c: ContextView,
    of: Seq<char>,
    members: Seq<ExprView>,
    k: nat,
    name: Seq<char>,
)
    ensures
        crate::macros::bind_accessors(c, of, members, k).struct_id(name) == c.struct_id(name),
        crate::macros::bind_accessors(c, of, members, k).struct_count == c.struct_count,
    decreases k,
{
    if k > 0 {
        lemma_bind_accessors_keeps_struct_ids(c, of, members, (k - 1) as nat, name);
        lemma_bind_keeps_struct_ids(
            crate::macros::bind_accessors(c, of, members, (k - 1) as nat),
            crate::macros::accessor_name(of, members[k - 1]->Symbol_0),
            crate::macros::accessor((k - 1) as usize),
            name,
        );
    }
}

/// Struct identity, of every struct type: once `(define-struct name
/// [field ...])` has given nil, any struct of that name passes the predicate
/// that the form bound, in the context that the form left.
pub proof fn law_struct_passes_its_own_predicate(
    list: Seq<ExprView>,
    c: ContextView,
    data: Seq<ExprView>,
)
    requires
        crate::macros::define_struct_leaf(list, c).0 == nil_view(),
    ensures
        ({
            let after = crate::macros::define_struct_leaf(list, c).1;
            list[1] matches ExprView::Symbol(name) && check_result(
                after.struct_count,
                seq![ExprView::Struct(StructView { name, data })],
                after,
            ) && after.lookup(crate::macros::predicate_name(name)) == Some(
                ExprView::Callable(
                    CallableView::Intrinsic(Intrinsic::IsStruct(after.struct_count)),
                ),
            )
        }),
{
    let name = list[1]->Symbol_0;
    let declared = c.declare(name);
    let members = list[2]->Cons_0;
    assert(declared.scopes.last().structs.contains_key(name));
    let a = crate::macros::bind_accessors(declared, name, members, members.len());
    lemma_bind_accessors_keeps_struct_ids(declared, name, members, members.len(), name);
    lemma_bind_all_accessors_keep_depth(declared, name, members, members.len());
    let p = ExprView::Callable(CallableView::Intrinsic(Intrinsic::IsStruct(declared.struct_count)));
    let b = a.bind(crate::macros::predicate_name(name), p);
    lemma_bind_keeps_struct_ids(a, crate::macros::predicate_name(name), p, name);
    let maker = ExprView::Callable(
        CallableView::Macro(crate::expression::MacroView::Construct(name, members.len() as usize)),
    );
    lemma_bind_keeps_struct_ids(b, crate::macros::constructor_name(name), maker, name);
    crate::context::law_bind_lookup(a, crate::macros::predicate_name(name), p, crate::macros::predicate_name(name));
    lemma_bind_keeps_outer(a, crate::macros::predicate_name(name), p);
    lemma_names_differ(name);
    crate::context::law_bind_lookup(
        b,
        crate::macros::constructor_name(name),
        maker,
        crate::macros::predicate_name(name),
    );
}

/// Binding accessors keeps the number of scopes.
proof fn lemma_bind_all_accessors_keep_depth(
    c: ContextView,
    of: Seq<char>,
    members: Seq<ExprView>,
    k: nat,
)
    requires
        c.depth() > 0,
    ensures
        crate::macros::bind_accessors(c, of, members, k).depth() == c.depth(),
    decreases k,
{
    if k > 0 {
        lemma_bind_all_accessors_keep_depth(c, of, members, (k - 1) as nat);
        lemma_bind_keeps_outer(
            crate::macros::bind_accessors(c, of, members, (k - 1) as nat),
            crate::macros::accessor_name(of, members[k - 1]->Symbol_0),
            crate::macros::accessor((k - 1) as usize),
        );
    }
}

/// The name of a struct's predicate is not that of its constructor.
proof fn lemma_names_differ(name: Seq<char>)
    ensures
        crate::macros::predicate_name(name) != crate::macros::constructor_name(name),
{
    reveal_strlit("is-");
    reveal_strlit("make-");
    reveal_strlit("?");
    reveal_strlit("-");
    let p = crate::macros::predicate_name(name);
    let m = crate::macros::constructor_name(name);
    assert(p[0] == 'i');
    assert(m[0] == 'm');
}

/// A `cond` without clauses gives nil and leaves the context as it was.
pub proof fn law_cond_without_clauses_is_nil(list: Seq<ExprView>, c: ContextView, depth: usize)
    requires
        list.len() <= 1,
    ensures
        cond_spec(list, c, depth) == Some((nil_view(), c)),
{
    crate::context::law_inner_binding_shadows_and_outer_returns(c, "else"@, ExprView::Bool(true));
    assert(rest(list).len() == 0);
}

/// A clause of `cond` whose predicate gives false is passed over, and once
/// every clause is passed the result is nil, not an error.
pub proof fn law_cond_without_match_is_nil(
    clauses: Seq<ExprView>,
    i: nat,
    c: ContextView,
    depth: usize,
)
    ensures
        i >= clauses.len() ==> cond_from(clauses, i, c, depth) == Some((nil_view(), c.pop())),
        i < clauses.len() && (clauses[i as int] matches ExprView::Cons(clause) && clause.len() == 2
            && eval_spec(clause[0], c, depth) == Some((ExprView::Bool(false), c))) ==> cond_from(
            clauses,
            i,
            c,
            depth,
        ) == cond_from(clauses, i + 1, c, depth),
{
}

} // verus!
