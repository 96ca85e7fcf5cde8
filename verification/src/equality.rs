//! Structural equality of values.

use crate::expression::{
    bindings_of, lemma_bindings_of, lemma_views_of, views_of, Callable, CallableView, ExprView,
    Expression,
};
use crate::list::ExprList;
use crate::quat::{num_eq, num_equals, quat_eq};
use vstd::prelude::*;
use vstd::std_specs::cmp::PartialEqSpecImpl;

verus! {

/// Whether two captures bind the same names, in the same order, to equal
/// values.
pub open spec fn capture_eq(
    a: Option<Seq<(Seq<char>, ExprView)>>,
    b: Option<Seq<(Seq<char>, ExprView)>>,
) -> bool
    decreases a, 0int,
{
    match (a, b) {
        (None, None) => true,
        (Some(x), Some(y)) => x.len() == y.len() && forall|i: int|
            0 <= i < x.len() ==> (#[trigger] x[i]).0 == y[i].0 && expr_eq(x[i].1, y[i].1),
        _ => false,
    }
}

/// Whether two sequences have the same length and equal items at each
/// position.
pub open spec fn all_eq(a: Seq<ExprView>, b: Seq<ExprView>) -> bool
    decreases a, 0int,
{
    a.len() == b.len() && forall|i: int| 0 <= i < a.len() ==> expr_eq(#[trigger] a[i], b[i])
}

/// Equality of values. Numbers are equal as IEEE doubles are; strings,
/// truth values and symbols where they are the same; lists and structs
/// item by item, structs of the same type name only; lambdas where
/// parameters, body and capture are equal. An error, and a callable that is
/// no lambda, equals nothing, not even itself.
pub open spec fn expr_eq(a: ExprView, b: ExprView) -> bool
    decreases a, 1int,
{
    match (a, b) {
        (ExprView::Num(x), ExprView::Num(y)) => num_eq(x, y),
        (ExprView::Str(x), ExprView::Str(y)) => x == y,
        (ExprView::Bool(x), ExprView::Bool(y)) => x == y,
        (ExprView::Symbol(x), ExprView::Symbol(y)) => x == y,
        (ExprView::Callable(CallableView::Lambda(x)), ExprView::Callable(CallableView::Lambda(y))) => {
            all_eq(x.params, y.params) && expr_eq(*x.body, *y.body) && capture_eq(
                x.capture,
                y.capture,
            )
        },
        (ExprView::Cons(x), ExprView::Cons(y)) => all_eq(x, y),
        (ExprView::Struct(x), ExprView::Struct(y)) => x.name == y.name && all_eq(x.data, y.data),
        (ExprView::Quaternion(x), ExprView::Quaternion(y)) => quat_eq(x, y),
        _ => false,
    }
}

fn lists_equal(a: &ExprList, b: &ExprList) -> (r: bool)
    ensures
        r == all_eq(a@, b@),
    decreases a@, 0int,
{
    if a.len() != b.len() {
        return false;
    }
    let x = a.to_vec();
    let y = b.to_vec();
    let mut i: usize = 0;
    while i < x.len()
        invariant
            i <= x.len(),
            x@.len() == a@.len(),
            y@.len() == b@.len(),
            a@.len() == b@.len(),
            forall|j: int| 0 <= j < x@.len() ==> (#[trigger] x@[j])@ == a@[j],
            forall|j: int| 0 <= j < y@.len() ==> (#[trigger] y@[j])@ == b@[j],
            forall|j: int| 0 <= j < i ==> expr_eq(#[trigger] a@[j], b@[j]),
        decreases x.len() - i,
    {
        proof {
            assert(decreases_to!(a@ => a@[i as int]));
        }
        if !x[i].equals(&y[i]) {
            assert(!expr_eq(a@[i as int], b@[i as int]));
            return false;
        }
        i += 1;
    }
    true
}

fn values_equal(a: &Vec<Expression>, b: &Vec<Expression>) -> (r: bool)
    ensures
        r == all_eq(views_of(a@), views_of(b@)),
    decreases views_of(a@), 0int,
{
    proof {
        lemma_views_of(a@);
        lemma_views_of(b@);
    }
    if a.len() != b.len() {
        return false;
    }
    let mut i: usize = 0;
    while i < a.len()
        invariant
            i <= a.len(),
            a@.len() == b@.len(),
            views_of(a@).len() == a@.len(),
            views_of(b@).len() == b@.len(),
            forall|j: int| 0 <= j < a@.len() ==> #[trigger] views_of(a@)[j] == a@[j]@,
            forall|j: int| 0 <= j < b@.len() ==> #[trigger] views_of(b@)[j] == b@[j]@,
            forall|j: int| 0 <= j < i ==> expr_eq(#[trigger] views_of(a@)[j], views_of(b@)[j]),
        decreases a.len() - i,
    {
        proof {
            assert(decreases_to!(views_of(a@) => views_of(a@)[i as int]));
        }
        if !a[i].equals(&b[i]) {
            assert(!expr_eq(views_of(a@)[i as int], views_of(b@)[i as int]));
            return false;
        }
        i += 1;
    }
    true
}

fn bindings_equal(x: &Vec<(String, Expression)>, y: &Vec<(String, Expression)>) -> (r: bool)
    ensures
        r == capture_eq(Some(bindings_of(x@)), Some(bindings_of(y@))),
    decreases bindings_of(x@), 0int,
{
    proof {
        lemma_bindings_of(x@);
        lemma_bindings_of(y@);
    }
    if x.len() != y.len() {
        return false;
    }
    let ghost xs = bindings_of(x@);
    let ghost ys = bindings_of(y@);
    let mut i: usize = 0;
    while i < x.len()
        invariant
            i <= x.len(),
            x@.len() == y@.len(),
            xs == bindings_of(x@),
            ys == bindings_of(y@),
            xs.len() == x@.len(),
            ys.len() == y@.len(),
            forall|j: int| 0 <= j < x@.len() ==> #[trigger] xs[j] == (x@[j].0@, x@[j].1@),
            forall|j: int| 0 <= j < y@.len() ==> #[trigger] ys[j] == (y@[j].0@, y@[j].1@),
            forall|j: int|
                0 <= j < i ==> (#[trigger] xs[j]).0 == ys[j].0 && expr_eq(xs[j].1, ys[j].1),
        decreases x.len() - i,
    {
        proof {
            assert(decreases_to!(xs => xs[i as int]));
            assert(decreases_to!(xs[i as int] => xs[i as int].1));
        }
        if !(x[i].0 == y[i].0) || !x[i].1.equals(&y[i].1) {
            assert(!(xs[i as int].0 == ys[i as int].0 && expr_eq(xs[i as int].1, ys[i as int].1)));
            return false;
        }
        i += 1;
    }
    true
}

impl Expression {
    /// Whether the two values are equal, as [`expr_eq`] says.
    pub fn equals(&self, other: &Expression) -> (r: bool)
        ensures
            r == expr_eq(self@, other@),
        decreases self@, 1int,
    {
        match (self, other) {
            (Expression::Num(a), Expression::Num(b)) => num_equals(*a, *b),
            (Expression::Str(a), Expression::Str(b)) => *a == *b,
            (Expression::Bool(a), Expression::Bool(b)) => *a == *b,
            (Expression::Symbol(a), Expression::Symbol(b)) => *a == *b,
            (
                Expression::Callable(Callable::Lambda(a)),
                Expression::Callable(Callable::Lambda(b)),
            ) => {
                proof {
                    let ghost sv = self@;
                    assert(decreases_to!(sv => sv->Callable_0));
                    assert(decreases_to!(sv->Callable_0 => sv->Callable_0->Lambda_0));
                    let ghost lv = sv->Callable_0->Lambda_0;
                    assert(decreases_to!(lv => lv.params));
                    assert(decreases_to!(lv => lv.body));
                    assert(decreases_to!(lv => lv.capture));
                }
                if !lists_equal(&a.params, &b.params) || !a.body.equals(&b.body) {
                    assert(!expr_eq(self@, other@));
                    return false;
                }
                let ghost la = self@->Callable_0->Lambda_0;
                let ghost lb = other@->Callable_0->Lambda_0;
                assert(la == (**a)@ && lb == (**b)@);
                match (&a.capture, &b.capture) {
                    (None, None) => {
                        assert(la.capture is None && lb.capture is None);
                        assert(capture_eq(la.capture, lb.capture));
                        assert(expr_eq(self@, other@));
                        true
                    },
                    (Some(x), Some(y)) => {
                        proof {
                            let ghost oc = la.capture;
                            assert(oc == Some(bindings_of(x@)));
                            assert(lb.capture == Some(bindings_of(y@)));
                            assert(decreases_to!(oc => oc->0));
                        }
                        let r = bindings_equal(x, y);
                        assert(r == expr_eq(self@, other@));
                        r
                    },
                    (Some(_), None) => {
                        assert(la.capture is Some && lb.capture is None);
                        assert(!capture_eq(la.capture, lb.capture));
                        assert(!expr_eq(self@, other@));
                        false
                    },
                    (None, Some(_)) => {
                        assert(la.capture is None && lb.capture is Some);
                        assert(!capture_eq(la.capture, lb.capture));
                        assert(!expr_eq(self@, other@));
                        false
                    },
                }
            },
            (Expression::Cons(a), Expression::Cons(b)) => {
                proof {
                    let ghost sv = self@;
                    assert(decreases_to!(sv => sv->Cons_0));
                }
                lists_equal(a, b)
            },
            (Expression::Struct(a), Expression::Struct(b)) => {
                proof {
                    let ghost sv = self@;
                    assert(decreases_to!(sv => sv->Struct_0));
                    assert(decreases_to!(sv->Struct_0 => sv->Struct_0.data));
                }
                a.name == b.name && values_equal(&a.data, &b.data)
            },
            (Expression::Quaternion(a), Expression::Quaternion(b)) => a.equals(b),
            _ => false,
        }
    }
}

impl PartialEq for Expression {
    fn eq(&self, other: &Expression) -> (r: bool) {
        self.equals(other)
    }
}

impl PartialEqSpecImpl for Expression {
    open spec fn obeys_eq_spec() -> bool {
        true
    }

    open spec fn eq_spec(&self, other: &Expression) -> bool {
        expr_eq(self@, other@)
    }
}

} // verus!
