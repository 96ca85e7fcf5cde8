//! What a lambda captures: a snapshot of the bindings that its body refers
//! to.

use crate::context::{Context, ContextView};
use crate::expression::{
    bindings_of, lemma_bindings_of, ExprView, Expression,
};
use crate::list::ExprList;
use crate::text::same_text;
use vstd::prelude::*;

verus! {

/// Whether `name` is the key of one of `bindings`.
pub open spec fn has_key(bindings: Seq<(Seq<char>, ExprView)>, name: Seq<char>) -> bool {
    exists|i: int| 0 <= i < bindings.len() && (#[trigger] bindings[i]).0 == name
}

/// Whether the symbol `name` is one of `params`.
pub open spec fn is_param(params: Seq<ExprView>, name: Seq<char>) -> bool {
    exists|i: int| 0 <= i < params.len() && #[trigger] params[i] == ExprView::Symbol(name)
}

/// `acc` with a binding for each symbol of `e`, in the order in which a
/// walk from left to right meets them, that has a value in `ctx`, is none
/// of `params` and has no binding yet.
pub open spec fn capture_walk(
    e: ExprView,
    ctx: ContextView,
    params: Seq<ExprView>,
    acc: Seq<(Seq<char>, ExprView)>,
) -> Seq<(Seq<char>, ExprView)>
    decreases e, 1int,
{
    match e {
        ExprView::Symbol(name) => match ctx.lookup(name) {
            Some(value) => if has_key(acc, name) || is_param(params, name) {
                acc
            } else {
                acc.push((name, value))
            },
            None => acc,
        },
        ExprView::Cons(items) => capture_walk_all(items, ctx, params, acc),
        _ => acc,
    }
}

/// [`capture_walk`] over each of `items` in turn.
pub open spec fn capture_walk_all(
    items: Seq<ExprView>,
    ctx: ContextView,
    params: Seq<ExprView>,
    acc: Seq<(Seq<char>, ExprView)>,
) -> Seq<(Seq<char>, ExprView)>
    decreases items, 0int,
{
    if items.len() == 0 {
        acc
    } else {
        capture_walk(items.last(), ctx, params, capture_walk_all(items.drop_last(), ctx, params, acc))
    }
}

/// What a lambda with the parameters `params` and the body `body` captures
/// in `ctx`.
pub open spec fn capture_of(body: ExprView, ctx: ContextView, params: Seq<ExprView>) -> Seq<
    (Seq<char>, ExprView),
> {
    capture_walk(body, ctx, params, Seq::empty())
}

fn holds_key(acc: &Vec<(String, Expression)>, name: &str) -> (r: bool)
    ensures
        r == has_key(bindings_of(acc@), name@),
{
    proof {
        lemma_bindings_of(acc@);
    }
    let mut i: usize = 0;
    while i < acc.len()
        invariant
            i <= acc.len(),
            bindings_of(acc@).len() == acc@.len(),
            forall|j: int| 0 <= j < acc@.len() ==> #[trigger] bindings_of(acc@)[j] == (acc@[j].0@, acc@[j].1@),
            forall|j: int| 0 <= j < i ==> (#[trigger] bindings_of(acc@)[j]).0 != name@,
        decreases acc.len() - i,
    {
        if same_text(acc[i].0.as_str(), name) {
            assert(bindings_of(acc@)[i as int].0 == name@);
            return true;
        }
        i += 1;
    }
    false
}

fn names_param(params: &ExprList, name: &str) -> (r: bool)
    ensures
        r == is_param(params@, name@),
{
    let items = params.to_vec();
    let mut i: usize = 0;
    while i < items.len()
        invariant
            i <= items.len(),
            items@.len() == params@.len(),
            forall|j: int| 0 <= j < items@.len() ==> (#[trigger] items@[j])@ == params@[j],
            forall|j: int| 0 <= j < i ==> #[trigger] params@[j] != ExprView::Symbol(name@),
        decreases items.len() - i,
    {
        match &*items[i] {
            Expression::Symbol(s) => {
                if same_text(s.as_str(), name) {
                    assert(params@[i as int] == ExprView::Symbol(name@));
                    return true;
                }
            },
            _ => {},
        }
        i += 1;
    }
    false
}

/// Adds to `acc` what [`capture_walk`] adds for `e`.
pub fn capture_into(
    e: &Expression,
    ctx: &Context,
    params: &ExprList,
    acc: &mut Vec<(String, Expression)>,
)
    ensures
        bindings_of(final(acc)@) == capture_walk(e@, ctx@, params@, bindings_of(old(acc)@)),
    decreases e@,
{
    match e {
        Expression::Symbol(name) => {
            match ctx.get(name.as_str()) {
                Some(value) => {
                    if !holds_key(acc, name.as_str()) && !names_param(params, name.as_str()) {
                        let ghost before = acc@;
                        acc.push((name.clone(), value.clone()));
                        proof {
                            lemma_bindings_of(before);
                            lemma_bindings_of(acc@);
                            assert(bindings_of(acc@) =~= bindings_of(before).push((name@, value@)));
                        }
                    }
                },
                None => {},
            }
        },
        Expression::Cons(list) => {
            let items = list.to_vec();
            let mut i: usize = 0;
            assert(list@.subrange(0, 0) =~= Seq::empty());
            while i < items.len()
                invariant
                    i <= items.len(),
                    items@.len() == list@.len(),
                    e@ == ExprView::Cons(list@),
                    forall|j: int| 0 <= j < items@.len() ==> (#[trigger] items@[j])@ == list@[j],
                    bindings_of(acc@) == capture_walk_all(
                        list@.subrange(0, i as int),
                        ctx@,
                        params@,
                        bindings_of(old(acc)@),
                    ),
                decreases items.len() - i,
            {
                proof {
                    let ghost ev = e@;
                    assert(decreases_to!(ev => ev->Cons_0));
                    assert(decreases_to!(list@ => list@[i as int]));
                    let ghost cur = list@.subrange(0, i as int + 1);
                    assert(cur.drop_last() =~= list@.subrange(0, i as int));
                    assert(cur.last() == list@[i as int]);
                }
                capture_into(&items[i], ctx, params, acc);
                i += 1;
            }
            assert(list@.subrange(0, i as int) =~= list@);
        },
        _ => {},
    }
}

impl Expression {
    /// The bindings of `ctx` that the expression refers to: one for each of
    /// its symbols that has a value in `ctx`, in the order of their first
    /// occurrence.
    pub fn extract_symbols(&self, ctx: &Context) -> (r: Vec<(String, Expression)>)
        ensures
            bindings_of(r@) == capture_of(self@, ctx@, Seq::empty()),
    {
        let mut acc: Vec<(String, Expression)> = Vec::new();
        proof {
            lemma_bindings_of(acc@);
            assert(bindings_of(acc@) =~= Seq::empty());
        }
        let none = ExprList::new();
        assert(none@ =~= Seq::empty());
        capture_into(self, ctx, &none, &mut acc);
        acc
    }
}

/// Whether no two of `bindings` have the same name.
pub open spec fn distinct_keys(bindings: Seq<(Seq<char>, ExprView)>) -> bool {
    forall|i: int, j: int|
        0 <= i < j < bindings.len() ==> (#[trigger] bindings[i]).0 != (#[trigger] bindings[j]).0
}

/// Whether each of `bindings` holds what `ctx` binds its name to, and none
/// has the name of one of `params`.
pub open spec fn taken_from(
    bindings: Seq<(Seq<char>, ExprView)>,
    ctx: ContextView,
    params: Seq<ExprView>,
) -> bool {
    forall|i: int|
        0 <= i < bindings.len() ==> ctx.lookup((#[trigger] bindings[i]).0) == Some(bindings[i].1)
            && !is_param(params, bindings[i].0)
}

/// A walk adds only names that have no binding yet, each with what the
/// context binds it to.
proof fn lemma_capture_walk_sound(
    e: ExprView,
    ctx: ContextView,
    params: Seq<ExprView>,
    acc: Seq<(Seq<char>, ExprView)>,
)
    requires
        distinct_keys(acc),
        taken_from(acc, ctx, params),
    ensures
        distinct_keys(capture_walk(e, ctx, params, acc)),
        taken_from(capture_walk(e, ctx, params, acc), ctx, params),
    decreases e, 1int,
{
    match e {
        ExprView::Cons(items) => {
            lemma_capture_walk_all_sound(items, ctx, params, acc);
        },
        _ => {},
    }
}

/// A walk over several expressions does the same.
proof fn lemma_capture_walk_all_sound(
    items: Seq<ExprView>,
    ctx: ContextView,
    params: Seq<ExprView>,
    acc: Seq<(Seq<char>, ExprView)>,
)
    requires
        distinct_keys(acc),
        taken_from(acc, ctx, params),
    ensures
        distinct_keys(capture_walk_all(items, ctx, params, acc)),
        taken_from(capture_walk_all(items, ctx, params, acc), ctx, params),
    decreases items, 0int,
{
    if items.len() > 0 {
        lemma_capture_walk_all_sound(items.drop_last(), ctx, params, acc);
        lemma_capture_walk_sound(
            items.last(),
            ctx,
            params,
            capture_walk_all(items.drop_last(), ctx, params, acc),
        );
    }
}

/// What a lambda captures is a snapshot of the context: each captured name
/// is captured once, with the value that the context binds it to where the
/// lambda is made, and no parameter is captured.
pub proof fn law_capture_is_taken_once(body: ExprView, ctx: ContextView, params: Seq<ExprView>)
    ensures
        distinct_keys(capture_of(body, ctx, params)),
        taken_from(capture_of(body, ctx, params), ctx, params),
{
    lemma_capture_walk_sound(body, ctx, params, Seq::empty());
}

} // verus!
