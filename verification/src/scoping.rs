//! Lexical scoping as a law of the whole semantics: while a scope binds a
//! name, no evaluation above that scope touches what the scopes below it
//! bind the name to.

use crate::context::{holder_in, lookup_in, ContextView, ScopeView};
use crate::eval::{assign_effect, nil_view};
use crate::expression::{CallableView, ExprView, Intrinsic, LambdaView, MacroView, RuleView, SpecialForm};
use crate::intrinsics::{count_of, repeat_leaf};
use crate::macros::{
    bind_accessors, bind_struct, body_of, define_leaf, define_rule_leaf, define_struct_leaf,
    report_of,
};
use crate::pattern::{match_walk, replace_walk, MatchOutcome};
use crate::semantics::{
    args_spec, begin_spec, bind_all, bind_params, call_spec, cond_from, cond_spec, construct_spec,
    define_spec, env_spec, eval_spec, if_spec, intrinsic_spec, lambda_scope, lambda_spec,
    let_from, let_spec, macro_spec, quasi_all, quasi_spec, repeat_from, repeat_spec, rest,
    rule_spec, try_spec,
};
use vstd::prelude::*;

verus! {

/// What the scope `s` binds `x` to.
pub open spec fn binding_at(s: ScopeView, x: Seq<char>) -> Option<ExprView> {
    if s.bindings.contains_key(x) {
        Some(s.bindings[x])
    } else {
        None
    }
}

/// What each of the scopes below the scope `n` binds `x` to, outermost
/// first.
pub open spec fn below(c: ContextView, n: int, x: Seq<char>) -> Seq<Option<ExprView>> {
    Seq::new(
        if n < 0 {
            0nat
        } else {
            n as nat
        },
        |j: int| binding_at(c.scopes[j], x),
    )
}

/// Whether the scope `n` of `c` binds `x`, so that it shadows what the
/// scopes below it bind `x` to.
pub open spec fn shadowed(c: ContextView, n: int, x: Seq<char>) -> bool {
    0 <= n < c.depth() && c.scopes[n].bindings.contains_key(x)
}

/// Whether the scope `n` of `c` binds `x`, or `n` is -1 and stands for no
/// scope at all.
pub open spec fn held(c: ContextView, n: int, x: Seq<char>) -> bool {
    n == -1 || shadowed(c, n, x)
}

/// Whether `d` has as many scopes as `c`, the scope `n`, where it stands
/// for one, still binds `x`, and the scopes below it bind `x` as they do in
/// `c`.
pub open spec fn kept(c: ContextView, d: ContextView, n: int, x: Seq<char>) -> bool {
    d.depth() == c.depth() && held(d, n, x) && below(d, n, x) == below(c, n, x)
}

/// Whether `d` is `c` with its innermost scope left: one scope fewer, the
/// scopes below `n` bind `x` alike, and the scope `n`, where it is still
/// there, binds `x`.
pub open spec fn kept_under(c: ContextView, d: ContextView, n: int, x: Seq<char>) -> bool {
    d.depth() + 1 == c.depth() && below(d, n, x) == below(c, n, x) && (n + 1 < c.depth()
        ==> held(d, n, x))
}

/// A binding is made in the innermost scope, so it keeps what lies below.
proof fn lemma_bind_kept(c: ContextView, key: Seq<char>, value: ExprView, n: int, x: Seq<char>)
    requires
        held(c, n, x),
    ensures
        kept(c, c.bind(key, value), n, x),
{
    assert(below(c.bind(key, value), n, x) =~= below(c, n, x));
}

/// Where the scope `n` binds `x`, the innermost scope that binds `x` is that
/// scope or one above it.
proof fn lemma_holder_above(scopes: Seq<ScopeView>, n: int, x: Seq<char>)
    requires
        0 <= n < scopes.len(),
        scopes[n].bindings.contains_key(x),
    ensures
        holder_in(scopes, x) matches Some(i) && n <= i < scopes.len(),
    decreases scopes.len(),
{
    if !scopes.last().bindings.contains_key(x) {
        lemma_holder_above(scopes.drop_last(), n, x);
    }
}

/// An assignment reaches the innermost scope that binds the name, so it keeps
/// what lies below a scope that binds it.
proof fn lemma_assign_kept(c: ContextView, key: Seq<char>, value: ExprView, n: int, x: Seq<char>)
    requires
        held(c, n, x),
    ensures
        kept(c, c.assign(key, value), n, x),
{
    crate::context::lemma_holder_in_range(c.scopes, key);
    if key == x && n >= 0 {
        lemma_holder_above(c.scopes, n, x);
    }
    assert(below(c.assign(key, value), n, x) =~= below(c, n, x));
}

/// Declaring a struct type changes no binding.
proof fn lemma_declare_kept(c: ContextView, name: Seq<char>, n: int, x: Seq<char>)
    requires
        held(c, n, x),
        c.depth() > 0,
    ensures
        kept(c, c.declare(name), n, x),
{
    assert(below(c.declare(name), n, x) =~= below(c, n, x));
}

/// Entering a scope keeps the scopes that were there.
proof fn lemma_push_kept(c: ContextView, n: int, x: Seq<char>)
    requires
        held(c, n, x),
    ensures
        kept_under(c.push(), c, n, x),
        held(c.push(), n, x),
{
    assert(below(c.push(), n, x) =~= below(c, n, x));
}

/// Leaving a scope keeps the scopes below it.
proof fn lemma_pop_kept(c: ContextView, n: int, x: Seq<char>)
    requires
        c.depth() > 0,
        -1 <= n < c.depth(),
    ensures
        c.pop().depth() + 1 == c.depth(),
        below(c.pop(), n, x) == below(c, n, x),
        n + 1 < c.depth() && held(c, n, x) ==> held(c.pop(), n, x),
{
    assert(below(c.pop(), n, x) =~= below(c, n, x));
}

/// Making captured bindings keeps what lies below.
proof fn lemma_bind_all_kept(
    c: ContextView,
    bindings: Seq<(Seq<char>, ExprView)>,
    k: nat,
    n: int,
    x: Seq<char>,
)
    requires
        held(c, n, x),
    ensures
        kept(c, bind_all(c, bindings, k), n, x),
    decreases k,
{
    if k > 0 {
        lemma_bind_all_kept(c, bindings, (k - 1) as nat, n, x);
        lemma_bind_kept(
            bind_all(c, bindings, (k - 1) as nat),
            bindings[k - 1].0,
            bindings[k - 1].1,
            n,
            x,
        );
    }
}

/// Binding parameters keeps what lies below.
proof fn lemma_bind_params_kept(
    c: ContextView,
    params: Seq<ExprView>,
    args: Seq<ExprView>,
    k: nat,
    n: int,
    x: Seq<char>,
)
    requires
        held(c, n, x),
    ensures
        kept(c, bind_params(c, params, args, k), n, x),
    decreases k,
{
    if k > 0 {
        lemma_bind_params_kept(c, params, args, (k - 1) as nat, n, x);
        match params[k - 1] {
            ExprView::Symbol(name) => {
                lemma_bind_kept(
                    bind_params(c, params, args, (k - 1) as nat),
                    name,
                    args[k - 1],
                    n,
                    x,
                );
            },
            _ => {},
        }
    }
}

/// Binding the accessors of a struct type keeps what lies below.
proof fn lemma_bind_accessors_kept(
    c: ContextView,
    name: Seq<char>,
    members: Seq<ExprView>,
    k: nat,
    n: int,
    x: Seq<char>,
)
    requires
        held(c, n, x),
    ensures
        kept(c, bind_accessors(c, name, members, k), n, x),
    decreases k,
{
    if k > 0 {
        lemma_bind_accessors_kept(c, name, members, (k - 1) as nat, n, x);
        lemma_bind_kept(
            bind_accessors(c, name, members, (k - 1) as nat),
            crate::macros::accessor_name(name, members[k - 1]->Symbol_0),
            crate::macros::accessor((k - 1) as usize),
            n,
            x,
        );
    }
}

/// Binding what a struct type brings keeps what lies below.
proof fn lemma_bind_struct_kept(
    c: ContextView,
    name: Seq<char>,
    members: Seq<ExprView>,
    id: usize,
    n: int,
    x: Seq<char>,
)
    requires
        held(c, n, x),
    ensures
        kept(c, bind_struct(c, name, members, id), n, x),
{
    lemma_bind_accessors_kept(c, name, members, members.len(), n, x);
    let a = bind_accessors(c, name, members, members.len());
    let p = ExprView::Callable(CallableView::Intrinsic(Intrinsic::IsStruct(id)));
    lemma_bind_kept(a, crate::macros::predicate_name(name), p, n, x);
    lemma_bind_kept(
        a.bind(crate::macros::predicate_name(name), p),
        crate::macros::constructor_name(name),
        ExprView::Callable(
            CallableView::Macro(MacroView::Construct(name, members.len() as usize)),
        ),
        n,
        x,
    );
}

/// The scope of a lambda's body lies on top of the scopes that were there.
proof fn lemma_lambda_scope_kept(
    l: LambdaView,
    args: Seq<ExprView>,
    c: ContextView,
    n: int,
    x: Seq<char>,
)
    requires
        held(c, n, x),
    ensures
        kept_under(lambda_scope(l, args, c), c, n, x),
        held(lambda_scope(l, args, c), n, x),
{
    lemma_push_kept(c, n, x);
    let captured = match l.capture {
        Some(bindings) => bind_all(c.push(), bindings, bindings.len()),
        None => c.push(),
    };
    match l.capture {
        Some(bindings) => {
            lemma_bind_all_kept(c.push(), bindings, bindings.len(), n, x);
        },
        None => {},
    }
    lemma_bind_params_kept(captured, l.params, args, l.params.len(), n, x);
}

/// A definition that evaluates nothing keeps what lies below.
proof fn lemma_define_leaf_kept(list: Seq<ExprView>, c: ContextView, n: int, x: Seq<char>)
    requires
        held(c, n, x),
    ensures
        define_leaf(list, c) matches Some(out) ==> kept(c, out.1, n, x),
{
    match define_leaf(list, c) {
        Some(out) => {
            if out.1 != c {
                let func = list[1]->Cons_0;
                lemma_bind_kept(
                    c,
                    func[0]->Symbol_0,
                    crate::macros::lambda_of(
                        func.subrange(1, func.len() as int),
                        list.subrange(2, list.len() as int),
                        c,
                    ),
                    n,
                    x,
                );
            }
        },
        None => {},
    }
}

/// `define-struct` keeps what lies below.
proof fn lemma_define_struct_kept(list: Seq<ExprView>, c: ContextView, n: int, x: Seq<char>)
    requires
        held(c, n, x),
    ensures
        kept(c, define_struct_leaf(list, c).1, n, x),
{
    if define_struct_leaf(list, c).1 != c {
        let name = list[1]->Symbol_0;
        lemma_declare_kept(c, name, n, x);
        let declared = c.declare(name);
        match list[2] {
            ExprView::Cons(members) => {
                lemma_bind_struct_kept(declared, name, members, declared.struct_count, n, x);
            },
            _ => {},
        }
    }
}

/// `define-macro-rule` keeps what lies below.
proof fn lemma_define_rule_kept(list: Seq<ExprView>, c: ContextView, n: int, x: Seq<char>)
    requires
        held(c, n, x),
    ensures
        kept(c, define_rule_leaf(list, c).1, n, x),
{
    if define_rule_leaf(list, c).1 != c {
        let name = list[1]->Cons_0[0]->Symbol_0;
        lemma_bind_kept(
            c,
            name,
            ExprView::Callable(
                CallableView::Macro(
                    MacroView::Rule(
                        RuleView { name, pattern: Box::new(list[1]), body: Box::new(list[2]) },
                    ),
                ),
            ),
            n,
            x,
        );
    }
}

/// `set!` keeps what lies below a scope that binds the name.
proof fn lemma_assign_effect_kept(args: Seq<ExprView>, c: ContextView, n: int, x: Seq<char>)
    requires
        held(c, n, x),
    ensures
        kept(c, assign_effect(args, c), n, x),
{
    if args.len() == 2 {
        match args[0] {
            ExprView::Symbol(name) => {
                lemma_assign_kept(c, name, args[1], n, x);
            },
            _ => {},
        }
    }
}

/// Every evaluation keeps what lies below a scope that binds the name, and
/// the number of scopes.
proof fn lemma_eval_kept(
    e: ExprView,
    c: ContextView,
    depth: usize,
    n: int,
    x: Seq<char>,
)
    requires
        held(c, n, x),
    ensures
        eval_spec(e, c, depth) matches Some(out) ==> kept(c, out.1, n, x),
    decreases depth, 0int,
{
    match e {
        ExprView::Cons(items) => {
            if items.len() > 0 && depth > 0 {
                lemma_eval_kept(items[0], c, (depth - 1) as usize, n, x);
                match eval_spec(items[0], c, (depth - 1) as usize) {
                    Some((f, c1)) => {
                        lemma_call_kept(f, items, c1, (depth - 1) as usize, n, x);
                    },
                    None => {},
                }
            }
        },
        _ => {},
    }
}

/// Every call keeps them.
proof fn lemma_call_kept(
    f: ExprView,
    list: Seq<ExprView>,
    c: ContextView,
    depth: usize,
    n: int,
    x: Seq<char>,
)
    requires
        held(c, n, x),
    ensures
        call_spec(f, list, c, depth) matches Some(out) ==> kept(c, out.1, n, x),
    decreases depth, 5int,
{
    match f {
        ExprView::Callable(callable) => match callable {
            CallableView::Quasiquote => {
                lemma_quasi_kept(list[1], c, depth, n, x);
            },
            CallableView::Macro(m) => {
                lemma_macro_kept(m, list, c, depth, n, x);
            },
            CallableView::Intrinsic(i) => {
                lemma_args_kept(rest(list), 0, Seq::empty(), c, depth, n, x);
                match args_spec(rest(list), 0, Seq::empty(), c, depth) {
                    Some((Ok(args), c1)) => {
                        lemma_intrinsic_kept(i, args, c1, depth, n, x);
                    },
                    _ => {},
                }
            },
            CallableView::Lambda(l) => {
                lemma_args_kept(rest(list), 0, Seq::empty(), c, depth, n, x);
                match args_spec(rest(list), 0, Seq::empty(), c, depth) {
                    Some((Ok(args), c1)) => {
                        lemma_lambda_kept(l, args, c1, depth, n, x);
                    },
                    _ => {},
                }
            },
            _ => {},
        },
        _ => {},
    }
}

/// The evaluation of arguments keeps them.
proof fn lemma_args_kept(
    items: Seq<ExprView>,
    i: nat,
    acc: Seq<ExprView>,
    c: ContextView,
    depth: usize,
    n: int,
    x: Seq<char>,
)
    requires
        held(c, n, x),
    ensures
        args_spec(items, i, acc, c, depth) matches Some(out) ==> kept(c, out.1, n, x),
    decreases depth, 1int, items.len() - i,
{
    if i < items.len() {
        lemma_eval_kept(items[i as int], c, depth, n, x);
        match eval_spec(items[i as int], c, depth) {
            Some((v, c1)) => {
                if !(v is Error) {
                    lemma_args_kept(items, i + 1, acc.push(v), c1, depth, n, x);
                }
            },
            None => {},
        }
    }
}

/// The application of a lambda keeps them.
proof fn lemma_lambda_kept(
    l: LambdaView,
    args: Seq<ExprView>,
    c: ContextView,
    depth: usize,
    n: int,
    x: Seq<char>,
)
    requires
        held(c, n, x),
    ensures
        lambda_spec(l, args, c, depth) matches Some(out) ==> kept(c, out.1, n, x),
    decreases depth, 4int,
{
    if l.params.len() == args.len() {
        lemma_lambda_scope_kept(l, args, c, n, x);
        let inner = lambda_scope(l, args, c);
        lemma_eval_kept(*l.body, inner, depth, n, x);
        match eval_spec(*l.body, inner, depth) {
            Some((r, c1)) => {
                lemma_pop_kept(c1, n, x);
            },
            None => {},
        }
    }
}

/// Evaluation under `quasiquote` keeps them.
proof fn lemma_quasi_kept(e: ExprView, c: ContextView, depth: usize, n: int, x: Seq<char>)
    requires
        held(c, n, x),
    ensures
        quasi_spec(e, c, depth) matches Some(out) ==> kept(c, out.1, n, x),
    decreases depth, 1int, e, 0nat,
{
    match e {
        ExprView::Cons(items) => {
            if items.len() == 2 && items[0] == ExprView::Callable(CallableView::Unquote) {
                lemma_eval_kept(items[1], c, depth, n, x);
            } else {
                lemma_quasi_all_kept(items, 0, Seq::empty(), c, depth, n, x);
            }
        },
        _ => {},
    }
}

/// Evaluation of a list under `quasiquote` keeps them.
proof fn lemma_quasi_all_kept(
    items: Seq<ExprView>,
    i: nat,
    acc: Seq<ExprView>,
    c: ContextView,
    depth: usize,
    n: int,
    x: Seq<char>,
)
    requires
        held(c, n, x),
    ensures
        quasi_all(items, i, acc, c, depth) matches Some(out) ==> kept(c, out.1, n, x),
    decreases depth, 1int, items, items.len() - i,
{
    if i < items.len() {
        lemma_quasi_kept(items[i as int], c, depth, n, x);
        match quasi_spec(items[i as int], c, depth) {
            Some((v, c1)) => {
                lemma_quasi_all_kept(items, i + 1, acc.push(v), c1, depth, n, x);
            },
            None => {},
        }
    }
}

/// The application of an intrinsic keeps them.
proof fn lemma_intrinsic_kept(
    f: Intrinsic,
    args: Seq<ExprView>,
    c: ContextView,
    depth: usize,
    n: int,
    x: Seq<char>,
)
    requires
        held(c, n, x),
    ensures
        intrinsic_spec(f, args, c, depth) matches Some(out) ==> kept(c, out.1, n, x),
    decreases depth, 4int,
{
    match f {
        Intrinsic::Eval => {
            if args.len() == 1 {
                lemma_eval_kept(args[0], c, depth, n, x);
            }
        },
        Intrinsic::Assign => {
            lemma_assign_effect_kept(args, c, n, x);
        },
        Intrinsic::Repeat => {
            lemma_repeat_kept(args, c, depth, n, x);
        },
        _ => {},
    }
}

/// `repeat` keeps them.
proof fn lemma_repeat_kept(args: Seq<ExprView>, c: ContextView, depth: usize, n: int, x: Seq<char>)
    requires
        held(c, n, x),
    ensures
        repeat_spec(args, c, depth) matches Some(out) ==> kept(c, out.1, n, x),
    decreases depth, 3int,
{
    if repeat_leaf(args) is None && depth > 0 && args.len() == 2 && args[0] is Num {
        match count_of(args[0]->Num_0) {
            Some(count) => {
                lemma_repeat_from_kept(args[1], count, 0, c, (depth - 1) as usize, n, x);
            },
            None => {},
        }
    }
}

/// The calls that `repeat` makes keep them.
proof fn lemma_repeat_from_kept(
    f: ExprView,
    count: u32,
    i: nat,
    c: ContextView,
    depth: usize,
    n: int,
    x: Seq<char>,
)
    requires
        held(c, n, x),
    ensures
        repeat_from(f, count, i, c, depth) matches Some(out) ==> kept(c, out.1, n, x),
    decreases depth, 6int, count - i,
{
    if i < count {
        lemma_call_kept(f, Seq::empty(), c, depth, n, x);
        match call_spec(f, Seq::empty(), c, depth) {
            Some((r, c1)) => {
                if !(r is Error) {
                    lemma_repeat_from_kept(f, count, i + 1, c1, depth, n, x);
                }
            },
            None => {},
        }
    }
}

/// The application of a macro keeps them.
proof fn lemma_macro_kept(
    m: MacroView,
    list: Seq<ExprView>,
    c: ContextView,
    depth: usize,
    n: int,
    x: Seq<char>,
)
    requires
        held(c, n, x),
    ensures
        macro_spec(m, list, c, depth) matches Some(out) ==> kept(c, out.1, n, x),
    decreases depth, 4int,
{
    match m {
        MacroView::Form(form) => match form {
            SpecialForm::Define => {
                lemma_define_kept(list, c, depth, n, x);
            },
            SpecialForm::Lambda => {},
            SpecialForm::Env => {
                lemma_env_kept(list, c, depth, n, x);
            },
            SpecialForm::If => {
                lemma_if_kept(list, c, depth, n, x);
            },
            SpecialForm::Cond => {
                lemma_cond_kept(list, c, depth, n, x);
            },
            SpecialForm::Let => {
                lemma_let_kept(list, c, depth, n, x);
            },
            SpecialForm::Try => {
                lemma_try_kept(list, c, depth, n, x);
            },
            SpecialForm::DefineStruct => {
                lemma_define_struct_kept(list, c, n, x);
            },
            SpecialForm::Begin => {
                lemma_begin_kept(rest(list), 0, nil_view(), c, depth, n, x);
            },
            SpecialForm::DefineSyntaxRule => {
                lemma_define_rule_kept(list, c, n, x);
            },
        },
        MacroView::Construct(name, fields) => {
            lemma_args_kept(rest(list), 0, Seq::empty(), c, depth, n, x);
            assert(construct_spec(name, fields, list, c, depth) matches Some(out) ==> kept(
                c,
                out.1,
                n,
                x,
            ));
        },
        MacroView::Rule(rule) => {
            match match_walk(seq![rule.name], *rule.pattern, ExprView::Cons(list), Map::empty()) {
                MatchOutcome::Bound(b) => {
                    lemma_eval_kept(
                        replace_walk(*rule.body, b),
                        c,
                        depth,
                        n,
                        x,
                    );
                },
                _ => {},
            }
            assert(rule_spec(rule, list, c, depth) matches Some(out) ==> kept(c, out.1, n, x));
        },
    }
}

/// `define` keeps them.
proof fn lemma_define_kept(list: Seq<ExprView>, c: ContextView, depth: usize, n: int, x: Seq<char>)
    requires
        held(c, n, x),
    ensures
        define_spec(list, c, depth) matches Some(out) ==> kept(c, out.1, n, x),
    decreases depth, 3int,
{
    lemma_define_leaf_kept(list, c, n, x);
    if define_leaf(list, c) is None {
        lemma_eval_kept(list[2], c, depth, n, x);
        match eval_spec(list[2], c, depth) {
            Some((v, c1)) => {
                if !(v is Error) {
                    lemma_bind_kept(c1, list[1]->Symbol_0, v, n, x);
                }
            },
            None => {},
        }
    }
}

/// `env` keeps them.
proof fn lemma_env_kept(list: Seq<ExprView>, c: ContextView, depth: usize, n: int, x: Seq<char>)
    requires
        held(c, n, x),
    ensures
        env_spec(list, c, depth) matches Some(out) ==> kept(c, out.1, n, x),
    decreases depth, 3int,
{
    if list.len() >= 2 {
        lemma_eval_kept(list[1], c, depth, n, x);
    }
}

/// `if` keeps them.
proof fn lemma_if_kept(list: Seq<ExprView>, c: ContextView, depth: usize, n: int, x: Seq<char>)
    requires
        held(c, n, x),
    ensures
        if_spec(list, c, depth) matches Some(out) ==> kept(c, out.1, n, x),
    decreases depth, 3int,
{
    if list.len() == 4 {
        lemma_eval_kept(list[1], c, depth, n, x);
        match eval_spec(list[1], c, depth) {
            Some((v, c1)) => match v {
                ExprView::Bool(b) => {
                    if b {
                        lemma_eval_kept(list[2], c1, depth, n, x);
                    } else {
                        lemma_eval_kept(list[3], c1, depth, n, x);
                    }
                },
                _ => {},
            },
            None => {},
        }
    }
}

/// `begin` keeps them.
proof fn lemma_begin_kept(
    items: Seq<ExprView>,
    i: nat,
    last: ExprView,
    c: ContextView,
    depth: usize,
    n: int,
    x: Seq<char>,
)
    requires
        held(c, n, x),
    ensures
        begin_spec(items, i, last, c, depth) matches Some(out) ==> kept(c, out.1, n, x),
    decreases depth, 3int, items.len() - i,
{
    if i < items.len() {
        lemma_eval_kept(items[i as int], c, depth, n, x);
        match eval_spec(items[i as int], c, depth) {
            Some((v, c1)) => {
                if !(v is Error) {
                    lemma_begin_kept(items, i + 1, v, c1, depth, n, x);
                }
            },
            None => {},
        }
    }
}

/// `cond` keeps them.
proof fn lemma_cond_kept(list: Seq<ExprView>, c: ContextView, depth: usize, n: int, x: Seq<char>)
    requires
        held(c, n, x),
    ensures
        cond_spec(list, c, depth) matches Some(out) ==> kept(c, out.1, n, x),
    decreases depth, 3int,
{
    lemma_push_kept(c, n, x);
    lemma_bind_kept(c.push(), "else"@, ExprView::Bool(true), n, x);
    lemma_cond_from_kept(
        rest(list),
        0,
        c.push().bind("else"@, ExprView::Bool(true)),
        depth,
        n,
        x,
    );
}

/// The clauses of a `cond` keep them, and its scope is left.
proof fn lemma_cond_from_kept(
    clauses: Seq<ExprView>,
    i: nat,
    c: ContextView,
    depth: usize,
    n: int,
    x: Seq<char>,
)
    requires
        held(c, n, x),
        n + 1 < c.depth(),
    ensures
        cond_from(clauses, i, c, depth) matches Some(out) ==> kept_under(c, out.1, n, x),
    decreases depth, 2int, clauses.len() - i,
{
    lemma_pop_kept(c, n, x);
    if i < clauses.len() {
        match clauses[i as int] {
            ExprView::Cons(clause) => {
                if clause.len() == 2 {
                    lemma_eval_kept(clause[0], c, depth, n, x);
                    match eval_spec(clause[0], c, depth) {
                        Some((p, c1)) => {
                            lemma_pop_kept(c1, n, x);
                            match p {
                                ExprView::Bool(b) => {
                                    if b {
                                        lemma_eval_kept(
                                            clause[1],
                                            c1.pop(),
                                            depth,
                                            n,
                                            x,
                                        );
                                    } else {
                                        lemma_cond_from_kept(clauses, i + 1, c1, depth, n, x);
                                    }
                                },
                                _ => {},
                            }
                        },
                        None => {},
                    }
                }
            },
            _ => {},
        }
    }
}

/// `let` keeps them.
proof fn lemma_let_kept(list: Seq<ExprView>, c: ContextView, depth: usize, n: int, x: Seq<char>)
    requires
        held(c, n, x),
    ensures
        let_spec(list, c, depth) matches Some(out) ==> kept(c, out.1, n, x),
    decreases depth, 3int,
{
    if list.len() >= 2 {
        match list[1] {
            ExprView::Cons(bindings) => {
                lemma_push_kept(c, n, x);
                lemma_let_from_kept(
                    bindings,
                    0,
                    body_of(list.subrange(2, list.len() as int)),
                    c.push(),
                    depth,
                    n,
                    x,
                );
            },
            _ => {},
        }
    }
}

/// The bindings and the body of a `let` keep them, and its scope is left.
proof fn lemma_let_from_kept(
    bindings: Seq<ExprView>,
    i: nat,
    body: ExprView,
    c: ContextView,
    depth: usize,
    n: int,
    x: Seq<char>,
)
    requires
        held(c, n, x),
        c.depth() > 0,
    ensures
        let_from(bindings, i, body, c, depth) matches Some(out) ==> kept_under(c, out.1, n, x),
    decreases depth, 2int, bindings.len() - i,
{
    lemma_pop_kept(c, n, x);
    if i >= bindings.len() {
        lemma_eval_kept(body, c, depth, n, x);
        match eval_spec(body, c, depth) {
            Some((r, c1)) => {
                lemma_pop_kept(c1, n, x);
            },
            None => {},
        }
    } else {
        match bindings[i as int] {
            ExprView::Cons(items) => {
                if items.len() == 2 {
                    match items[0] {
                        ExprView::Symbol(name) => {
                            lemma_eval_kept(items[1], c, depth, n, x);
                            match eval_spec(items[1], c, depth) {
                                Some((v, c1)) => {
                                    lemma_bind_kept(c1, name, v, n, x);
                                    lemma_let_from_kept(
                                        bindings,
                                        i + 1,
                                        body,
                                        if v is Error {
                                            c1
                                        } else {
                                            c1.bind(name, v)
                                        },
                                        depth,
                                        n,
                                        x,
                                    );
                                },
                                None => {},
                            }
                        },
                        _ => {},
                    }
                }
            },
            _ => {},
        }
    }
}

/// `try` keeps them.
proof fn lemma_try_kept(list: Seq<ExprView>, c: ContextView, depth: usize, n: int, x: Seq<char>)
    requires
        held(c, n, x),
    ensures
        try_spec(list, c, depth) matches Some(out) ==> kept(c, out.1, n, x),
    decreases depth, 3int,
{
    if crate::eval::argc(list) == 2 {
        lemma_eval_kept(list[2], c, depth, n, x);
        match eval_spec(list[2], c, depth) {
            Some((handler, c1)) => {
                if handler is Callable {
                    lemma_eval_kept(list[1], c1, depth, n, x);
                    match eval_spec(list[1], c1, depth) {
                        Some((v, c2)) => match v {
                            ExprView::Error(e) => {
                                lemma_eval_kept(
                                    ExprView::Cons(seq![handler, report_of(e)]),
                                    c2,
                                    depth,
                                    n,
                                    x,
                                );
                            },
                            _ => {},
                        },
                        None => {},
                    }
                }
            },
            None => {},
        }
    }
}

/// Lexical scoping, of every expression: while the scope `n` binds `x`, the
/// evaluation of `e` leaves as many scopes as it found, the scope `n` still
/// binds `x`, and what the scopes below it bind `x` to is untouched,
/// whatever `e` defines, assigns or calls. (This is said of an evaluation
/// that asks nothing of the host.)
pub proof fn law_evaluation_keeps_shadowed_bindings(
    e: ExprView,
    c: ContextView,
    depth: usize,
    n: int,
    x: Seq<char>,
)
    requires
        shadowed(c, n, x),
    ensures
        eval_spec(e, c, depth) matches Some(out) ==> out.1.depth() == c.depth() && shadowed(
            out.1,
            n,
            x,
        ) && below(out.1, n, x) == below(c, n, x),
{
    lemma_eval_kept(e, c, depth, n, x);
}

/// Entering and leaving scopes is balanced: every evaluation leaves as
/// many scopes as it found, whether it gives a value or an error.
pub proof fn law_evaluation_leaves_the_scopes(e: ExprView, c: ContextView, depth: usize)
    ensures
        eval_spec(e, c, depth) matches Some(out) ==> out.1.depth() == c.depth(),
{
    lemma_eval_kept(e, c, depth, -1, Seq::empty());
}

/// What a name is bound to depends only on what each scope binds it to.
proof fn lemma_lookup_in_by_scopes(s: Seq<ScopeView>, t: Seq<ScopeView>, x: Seq<char>)
    requires
        s.len() == t.len(),
        forall|j: int| 0 <= j < s.len() ==> binding_at(#[trigger] s[j], x) == binding_at(t[j], x),
    ensures
        lookup_in(s, x) == lookup_in(t, x),
    decreases s.len(),
{
    if s.len() > 0 {
        assert(binding_at(s[s.len() - 1], x) == binding_at(t[s.len() - 1], x));
        assert forall|j: int| 0 <= j < s.drop_last().len() implies binding_at(
            #[trigger] s.drop_last()[j],
            x,
        ) == binding_at(t.drop_last()[j], x) by {
            assert(s.drop_last()[j] == s[j]);
        }
        lemma_lookup_in_by_scopes(s.drop_last(), t.drop_last(), x);
    }
}

/// Lexical scoping in `let`, of every body: where the first binding of a
/// `let` binds `name` to a value that is no error, and the evaluation of
/// that value leaves alone what `name` is bound to outside, then, whatever
/// the other bindings and the body define, assign or call, and whether the
/// body gives a value or an error, the form leaves as many scopes as it
/// found, and outside it `name` is bound to what it was bound to before.
pub proof fn law_let_keeps_the_outer_binding(
    list: Seq<ExprView>,
    name: Seq<char>,
    c: ContextView,
    depth: usize,
)
    requires
        list.len() >= 2,
        list[1] matches ExprView::Cons(bindings) && bindings.len() > 0 && (
        bindings[0] matches ExprView::Cons(first) && first.len() == 2 && first[0]
            == ExprView::Symbol(name) && (eval_spec(first[1], c.push(), depth) matches Some(v)
            && !(v.0 is Error) && v.1.pop().lookup(name) == c.lookup(name))),
    ensures
        let_spec(list, c, depth) matches Some(out) ==> out.1.depth() == c.depth() && out.1.lookup(
            name,
        ) == c.lookup(name),
{
    let bindings = list[1]->Cons_0;
    let first = bindings[0]->Cons_0;
    let body = body_of(list.subrange(2, list.len() as int));
    let n = c.depth() as int;
    let (value, after) = eval_spec(first[1], c.push(), depth).unwrap();
    lemma_eval_kept(first[1], c.push(), depth, -1, name);
    let bound = after.bind(name, value);
    assert(bound.scopes[n].bindings.contains_key(name));
    assert(let_from(bindings, 0, body, c.push(), depth) == let_from(bindings, 1, body, bound, depth));
    lemma_let_from_kept(bindings, 1, body, bound, depth, n, name);
    match let_spec(list, c, depth) {
        Some(out) => {
            assert(below(bound, n, name) =~= below(after.pop(), n, name));
            lemma_below_all(after.pop(), out.1, name);
        },
        None => {},
    }
}

/// Contexts whose scopes bind a name alike give it the same value.
proof fn lemma_below_all(c: ContextView, d: ContextView, x: Seq<char>)
    requires
        c.depth() == d.depth(),
        below(c, c.depth() as int, x) == below(d, c.depth() as int, x),
    ensures
        c.lookup(x) == d.lookup(x),
{
    assert forall|j: int| 0 <= j < c.scopes.len() implies binding_at(#[trigger] c.scopes[j], x)
        == binding_at(d.scopes[j], x) by {
        assert(below(c, c.depth() as int, x)[j] == below(d, c.depth() as int, x)[j]);
    }
    lemma_lookup_in_by_scopes(c.scopes, d.scopes, x);
}

/// Once the parameter at position `k` is bound, the innermost scope binds
/// its name, whatever parameters are bound after it.
proof fn lemma_parameter_is_bound(
    c: ContextView,
    params: Seq<ExprView>,
    args: Seq<ExprView>,
    m: nat,
    k: int,
    name: Seq<char>,
)
    requires
        c.depth() > 0,
        0 <= k < m <= params.len(),
        params[k] == ExprView::Symbol(name),
    ensures
        held(bind_params(c, params, args, m), c.depth() - 1, name),
    decreases m,
{
    let before = bind_params(c, params, args, (m - 1) as nat);
    crate::laws::lemma_bind_params_keeps_outer(c, params, args, (m - 1) as nat);
    if m - 1 == k {
        assert(before.bind(name, args[k]).scopes[c.depth() - 1].bindings.contains_key(name));
    } else {
        lemma_parameter_is_bound(c, params, args, (m - 1) as nat, k, name);
        match params[m - 1] {
            ExprView::Symbol(other) => {
                lemma_bind_kept(before, other, args[m - 1], c.depth() - 1, name);
            },
            _ => {},
        }
    }
}

/// Lexical scoping in a call, of every body: where a lambda has a
/// parameter `name`, then, whatever its body defines, assigns or calls, the
/// call leaves as many scopes as it found, and outside it `name` is bound to
/// what it was bound to before.
pub proof fn law_call_keeps_the_outer_binding(
    l: LambdaView,
    args: Seq<ExprView>,
    k: int,
    name: Seq<char>,
    c: ContextView,
    depth: usize,
)
    requires
        0 <= k < l.params.len(),
        l.params[k] == ExprView::Symbol(name),
    ensures
        lambda_spec(l, args, c, depth) matches Some(out) ==> out.1.depth() == c.depth()
            && out.1.lookup(name) == c.lookup(name),
{
    if l.params.len() == args.len() {
        let n = c.depth() as int;
        let captured = match l.capture {
            Some(bindings) => bind_all(c.push(), bindings, bindings.len()),
            None => c.push(),
        };
        match l.capture {
            Some(bindings) => {
                crate::laws::lemma_bind_all_keeps_outer(c.push(), bindings, bindings.len());
            },
            None => {},
        }
        let inner = lambda_scope(l, args, c);
        crate::laws::law_lambda_scope_lies_on_top(l, args, c);
        lemma_parameter_is_bound(captured, l.params, args, l.params.len(), k, name);
        lemma_eval_kept(*l.body, inner, depth, n, name);
        match eval_spec(*l.body, inner, depth) {
            Some((r, c1)) => {
                lemma_pop_kept(c1, n, name);
                lemma_pop_kept(inner, n, name);
                lemma_below_all(c, c1.pop(), name);
            },
            None => {},
        }
    }
}

} // verus!
