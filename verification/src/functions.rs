//! The built-in functions on truth values, lists and types. Each receives
//! its arguments evaluated.

use crate::equality::expr_eq;
use crate::eval::{
    arity_error, custom_error, fail, signature_error,
};
use crate::exception::Exception;
use crate::expression::{
    kind_name, lemma_views_of, views_of, Builtin, ExprView, Expression,
};
use crate::list::ExprList;

use vstd::prelude::*;
use vstd::string::StringExecFns;

verus! {

/// The first of `items` that is no truth value.
pub open spec fn first_non_bool(items: Seq<ExprView>) -> Option<ExprView>
    decreases items.len(),
{
    if items.len() == 0 {
        None
    } else if items[0] is Bool {
        first_non_bool(items.subrange(1, items.len() as int))
    } else {
        Some(items[0])
    }
}

/// Whether every truth value among `items` is true.
pub open spec fn all_true(items: Seq<ExprView>) -> bool {
    forall|i: int| 0 <= i < items.len() ==> #[trigger] items[i] != ExprView::Bool(false)
}

/// Whether one of `items` is the value true.
pub open spec fn any_true(items: Seq<ExprView>) -> bool {
    exists|i: int| 0 <= i < items.len() && #[trigger] items[i] == ExprView::Bool(true)
}

/// What `and` gives.
pub open spec fn and_result(args: Seq<ExprView>) -> ExprView {
    match first_non_bool(args) {
        Some(other) => signature_error("bool"@, kind_name(other)),
        None => ExprView::Bool(all_true(args)),
    }
}

/// What `or` gives.
pub open spec fn or_result(args: Seq<ExprView>) -> ExprView {
    match first_non_bool(args) {
        Some(other) => signature_error("bool"@, kind_name(other)),
        None => ExprView::Bool(any_true(args)),
    }
}

fn find_non_bool(args: &Vec<Expression>) -> (r: Option<usize>)
    ensures
        match r {
            Some(i) => i < args@.len() && first_non_bool(views_of(args@)) == Some(args@[i as int]@),
            None => first_non_bool(views_of(args@)) is None && forall|i: int|
                0 <= i < args@.len() ==> (#[trigger] args@[i])@ is Bool,
        },
{
    proof {
        lemma_views_of(args@);
    }
    let ghost all = views_of(args@);
    let mut i: usize = 0;
    assert(all.subrange(0, all.len() as int) =~= all);
    while i < args.len()
        invariant
            i <= args.len(),
            all == views_of(args@),
            all.len() == args@.len(),
            forall|j: int| 0 <= j < args@.len() ==> #[trigger] all[j] == args@[j]@,
            forall|j: int| 0 <= j < i ==> (#[trigger] args@[j])@ is Bool,
            first_non_bool(all) == first_non_bool(all.subrange(i as int, all.len() as int)),
        decreases args.len() - i,
    {
        let ghost rest = all.subrange(i as int, all.len() as int);
        assert(rest[0] == all[i as int]);
        assert(rest.subrange(1, rest.len() as int) =~= all.subrange(i as int + 1, all.len() as int));
        match &args[i] {
            Expression::Bool(_) => {},
            _ => {
                return Some(i);
            },
        }
        i += 1;
    }
    None
}

/// `and :: bool ... -> bool`
///
/// True where every argument is true. An argument that is no truth value
/// gives a signature error that names its type.
pub fn and(args: &Vec<Expression>) -> (r: Expression)
    ensures
        r@ == and_result(views_of(args@)),
{
    proof {
        lemma_views_of(args@);
    }
    match find_non_bool(args) {
        Some(i) => fail(Exception::signature("bool", args[i].type_of().as_str())),
        None => {
            let mut i: usize = 0;
            while i < args.len()
                invariant
                    i <= args.len(),
                    views_of(args@).len() == args@.len(),
                    forall|j: int| 0 <= j < args@.len() ==> #[trigger] views_of(args@)[j] == args@[j]@,
                    first_non_bool(views_of(args@)) is None,
                    forall|j: int| 0 <= j < i ==> #[trigger] views_of(args@)[j] != ExprView::Bool(false),
                decreases args.len() - i,
            {
                match &args[i] {
                    Expression::Bool(false) => {
                        assert(views_of(args@)[i as int] == ExprView::Bool(false));
                        return Expression::Bool(false);
                    },
                    _ => {},
                }
                i += 1;
            }
            Expression::Bool(true)
        },
    }
}

/// `or :: bool ... -> bool`
///
/// True where at least one argument is true. An argument that is no truth
/// value gives a signature error that names its type.
pub fn or(args: &Vec<Expression>) -> (r: Expression)
    ensures
        r@ == or_result(views_of(args@)),
{
    proof {
        lemma_views_of(args@);
    }
    match find_non_bool(args) {
        Some(i) => fail(Exception::signature("bool", args[i].type_of().as_str())),
        None => {
            let mut i: usize = 0;
            while i < args.len()
                invariant
                    i <= args.len(),
                    views_of(args@).len() == args@.len(),
                    forall|j: int| 0 <= j < args@.len() ==> #[trigger] views_of(args@)[j] == args@[j]@,
                    first_non_bool(views_of(args@)) is None,
                    forall|j: int| 0 <= j < args@.len() ==> (#[trigger] args@[j])@ is Bool,
                    forall|j: int| 0 <= j < i ==> #[trigger] views_of(args@)[j] != ExprView::Bool(true),
                decreases args.len() - i,
            {
                match &args[i] {
                    Expression::Bool(true) => {
                        assert(views_of(args@)[i as int] == ExprView::Bool(true));
                        return Expression::Bool(true);
                    },
                    _ => {},
                }
                i += 1;
            }
            Expression::Bool(false)
        },
    }
}

/// What `not` gives.
pub open spec fn not_result(args: Seq<ExprView>) -> ExprView {
    if args.len() == 1 {
        match args[0] {
            ExprView::Bool(b) => ExprView::Bool(!b),
            other => signature_error("bool"@, kind_name(other)),
        }
    } else {
        arity_error(1, args.len() as usize)
    }
}

/// `not :: bool -> bool`
///
/// The opposite of its one argument.
pub fn not(args: &Vec<Expression>) -> (r: Expression)
    ensures
        r@ == not_result(views_of(args@)),
{
    proof {
        lemma_views_of(args@);
    }
    if args.len() == 1 {
        match &args[0] {
            Expression::Bool(b) => Expression::Bool(!*b),
            other => fail(Exception::signature("bool", other.type_of().as_str())),
        }
    } else {
        fail(Exception::arity(1, args.len()))
    }
}

/// What `cons` gives.
pub open spec fn cons_result(args: Seq<ExprView>) -> ExprView {
    if args.len() == 2 {
        match args[1] {
            ExprView::Cons(cdr) => ExprView::Cons(seq![args[0]] + cdr),
            other => signature_error(
                "any, cons"@,
                kind_name(args[0]) + ", "@ + kind_name(other),
            ),
        }
    } else {
        arity_error(2, args.len() as usize)
    }
}

/// `cons :: a [a] -> [a]`
///
/// The list with the first argument put in front of the second.
pub fn cons(args: &Vec<Expression>) -> (r: Expression)
    ensures
        r@ == cons_result(views_of(args@)),
{
    proof {
        lemma_views_of(args@);
    }
    if args.len() == 2 {
        match &args[1] {
            Expression::Cons(cdr) => Expression::Cons(cdr.cons(args[0].clone())),
            other => {
                let mut found = args[0].type_of();
                found.append(", ");
                found.append(other.type_of().as_str());
                fail(Exception::signature("any, cons", found.as_str()))
            },
        }
    } else {
        fail(Exception::arity(2, args.len()))
    }
}

/// The error of `head` and `tail` on what is no single list.
pub open spec fn list_error() -> ExprView {
    signature_error("any, cons"@, "not that"@)
}

/// What `head` gives.
pub open spec fn head_result(args: Seq<ExprView>) -> ExprView {
    if args.len() == 1 && args[0] is Cons {
        let list = args[0]->Cons_0;
        if list.len() > 0 {
            list[0]
        } else {
            custom_error(10, "cannot get the tail of an empty list"@)
        }
    } else {
        list_error()
    }
}

/// `head :: [a] -> a`
///
/// The first item of its one argument, a list. The empty list gives a
/// custom error with code 10.
pub fn head(args: &Vec<Expression>) -> (r: Expression)
    ensures
        r@ == head_result(views_of(args@)),
{
    proof {
        lemma_views_of(args@);
    }
    if args.len() == 1 {
        match &args[0] {
            Expression::Cons(list) => match list.nth(0) {
                Some(item) => (*item).clone(),
                None => fail(Exception::custom(10, "cannot get the tail of an empty list")),
            },
            _ => fail(Exception::signature("any, cons", "not that")),
        }
    } else {
        fail(Exception::signature("any, cons", "not that"))
    }
}

/// What `tail` gives.
pub open spec fn tail_result(args: Seq<ExprView>) -> ExprView {
    if args.len() == 1 && args[0] is Cons {
        let list = args[0]->Cons_0;
        if list.len() > 0 {
            ExprView::Cons(list.subrange(1, list.len() as int))
        } else {
            custom_error(11, "cannot get the tail of an empty list"@)
        }
    } else {
        list_error()
    }
}

/// `tail :: [a] -> [a]`
///
/// Its one argument, a list, without the first item. The empty list gives
/// a custom error with code 11.
pub fn tail(args: &Vec<Expression>) -> (r: Expression)
    ensures
        r@ == tail_result(views_of(args@)),
{
    proof {
        lemma_views_of(args@);
    }
    if args.len() == 1 {
        match &args[0] {
            Expression::Cons(list) => {
                if list.len() > 0 {
                    Expression::Cons(list.skip(1))
                } else {
                    fail(Exception::custom(11, "cannot get the tail of an empty list"))
                }
            },
            _ => fail(Exception::signature("any, cons", "not that")),
        }
    } else {
        fail(Exception::signature("any, cons", "not that"))
    }
}

/// The first of `items` that is no list.
pub open spec fn first_non_list(items: Seq<ExprView>) -> Option<ExprView>
    decreases items.len(),
{
    if items.len() == 0 {
        None
    } else if items[0] is Cons {
        first_non_list(items.subrange(1, items.len() as int))
    } else {
        Some(items[0])
    }
}

/// The items of the lists among `items`, one list after the other.
pub open spec fn flatten(items: Seq<ExprView>) -> Seq<ExprView>
    decreases items.len(),
{
    if items.len() == 0 {
        Seq::empty()
    } else {
        flatten(items.drop_last()) + (match items.last() {
            ExprView::Cons(l) => l,
            _ => Seq::empty(),
        })
    }
}

/// What `append` gives.
pub open spec fn append_result(args: Seq<ExprView>) -> ExprView {
    match first_non_list(args) {
        Some(other) => signature_error("cons"@, kind_name(other)),
        None => ExprView::Cons(flatten(args)),
    }
}

/// `append :: [a] ... -> [a]`
///
/// The items of all its arguments, which are lists, in one list. An
/// argument that is no list gives a signature error that names its type.
pub fn append(args: &Vec<Expression>) -> (r: Expression)
    ensures
        r@ == append_result(views_of(args@)),
{
    proof {
        lemma_views_of(args@);
    }
    let ghost all = views_of(args@);
    let mut i: usize = 0;
    assert(all.subrange(0, all.len() as int) =~= all);
    while i < args.len()
        invariant
            i <= args.len(),
            all == views_of(args@),
            all.len() == args@.len(),
            forall|j: int| 0 <= j < args@.len() ==> #[trigger] all[j] == args@[j]@,
            first_non_list(all) == first_non_list(all.subrange(i as int, all.len() as int)),
        decreases args.len() - i,
    {
        let ghost rest = all.subrange(i as int, all.len() as int);
        assert(rest[0] == all[i as int]);
        assert(rest.subrange(1, rest.len() as int) =~= all.subrange(i as int + 1, all.len() as int));
        match &args[i] {
            Expression::Cons(_) => {},
            other => {
                return fail(Exception::signature("cons", other.type_of().as_str()));
            },
        }
        i += 1;
    }
    let mut out: Vec<Expression> = Vec::new();
    let mut k: usize = 0;
    assert(all.subrange(0, 0) =~= Seq::empty());
    proof {
        lemma_views_of(out@);
    }
    while k < args.len()
        invariant
            k <= args.len(),
            all == views_of(args@),
            all.len() == args@.len(),
            forall|j: int| 0 <= j < args@.len() ==> #[trigger] all[j] == args@[j]@,
            views_of(out@) == flatten(all.subrange(0, k as int)),
        decreases args.len() - k,
    {
        let ghost prefix = all.subrange(0, k as int + 1);
        proof {
            assert(prefix.drop_last() =~= all.subrange(0, k as int));
            assert(prefix.last() == all[k as int]);
        }
        match &args[k] {
            Expression::Cons(list) => {
                let items = list.to_vec();
                let ghost before = views_of(out@);
                let mut j: usize = 0;
                while j < items.len()
                    invariant
                        j <= items.len(),
                        items@.len() == list@.len(),
                        forall|m: int| 0 <= m < items@.len() ==> (#[trigger] items@[m])@ == list@[m],
                        views_of(out@) == before + list@.subrange(0, j as int),
                    decreases items.len() - j,
                {
                    let ghost o = out@;
                    let item = (*items[j]).clone();
                    assert(item@ == list@[j as int]);
                    out.push(item);
                    proof {
                        lemma_views_of(o);
                        lemma_views_of(out@);
                        assert(views_of(out@).len() == before.len() + j + 1);
                        assert forall|m: int| 0 <= m < views_of(out@).len() implies views_of(
                            out@,
                        )[m] == (before + list@.subrange(0, j as int + 1))[m] by {
                            if m < o.len() {
                                assert(views_of(o)[m] == o[m]@);
                                assert(out@[m] == o[m]);
                            }
                        }
                        assert(views_of(out@) =~= before + list@.subrange(0, j as int + 1));
                    }
                    j += 1;
                }
                assert(list@.subrange(0, j as int) =~= list@);
            },
            _ => {
                assert(views_of(out@) =~= views_of(out@) + Seq::<ExprView>::empty());
            },
        }
        k += 1;
    }
    assert(all.subrange(0, k as int) =~= all);
    Expression::Cons(ExprList::from_vec(out))
}

/// What `empty?` gives.
pub open spec fn empty_result(args: Seq<ExprView>) -> ExprView {
    if args.len() == 1 {
        match args[0] {
            ExprView::Cons(list) => ExprView::Bool(list.len() == 0),
            other => signature_error("(list a)"@, kind_name(other)),
        }
    } else {
        arity_error(1, args.len() as usize)
    }
}

/// `empty? :: [a] -> bool`
///
/// Whether its one argument, a list, is empty.
pub fn empty(args: &Vec<Expression>) -> (r: Expression)
    ensures
        r@ == empty_result(views_of(args@)),
{
    proof {
        lemma_views_of(args@);
    }
    if args.len() == 1 {
        match &args[0] {
            Expression::Cons(list) => Expression::Bool(list.is_empty()),
            other => fail(Exception::signature("(list a)", other.type_of().as_str())),
        }
    } else {
        fail(Exception::arity(1, args.len()))
    }
}

/// What `eq?` gives.
pub open spec fn eq_result(args: Seq<ExprView>) -> ExprView {
    if args.len() == 2 {
        ExprView::Bool(expr_eq(args[0], args[1]))
    } else {
        arity_error(2, args.len() as usize)
    }
}

/// `eq? :: a a -> bool`
///
/// Whether its two arguments are equal.
pub fn eq(args: &Vec<Expression>) -> (r: Expression)
    ensures
        r@ == eq_result(views_of(args@)),
{
    proof {
        lemma_views_of(args@);
    }
    if args.len() == 2 {
        Expression::Bool(args[0].equals(&args[1]))
    } else {
        fail(Exception::arity(2, args.len()))
    }
}

/// What `type-of` gives.
pub open spec fn type_of_result(args: Seq<ExprView>) -> ExprView {
    if args.len() == 1 {
        ExprView::Symbol(kind_name(args[0]))
    } else {
        arity_error(1, args.len() as usize)
    }
}

/// `type-of :: a -> symbol`
///
/// The type of its one argument, as a symbol.
pub fn type_of(args: &Vec<Expression>) -> (r: Expression)
    ensures
        r@ == type_of_result(views_of(args@)),
{
    proof {
        lemma_views_of(args@);
    }
    if args.len() == 1 {
        Expression::Symbol(args[0].type_of())
    } else {
        fail(Exception::arity(1, args.len()))
    }
}

/// What each built-in function on values gives.
pub open spec fn builtin_result(f: Builtin, args: Seq<ExprView>) -> ExprView {
    match f {
        Builtin::And => and_result(args),
        Builtin::Or => or_result(args),
        Builtin::Not => not_result(args),
        Builtin::Cons => cons_result(args),
        Builtin::Head => head_result(args),
        Builtin::Tail => tail_result(args),
        Builtin::Append => append_result(args),
        Builtin::Empty => empty_result(args),
        Builtin::Eq => eq_result(args),
        Builtin::TypeOf => type_of_result(args),
    }
}

/// Applies a built-in function on values.
pub fn apply_builtin(f: Builtin, args: &Vec<Expression>) -> (r: Expression)
    ensures
        r@ == builtin_result(f, views_of(args@)),
{
    match f {
        Builtin::And => and(args),
        Builtin::Or => or(args),
        Builtin::Not => not(args),
        Builtin::Cons => cons(args),
        Builtin::Head => head(args),
        Builtin::Tail => tail(args),
        Builtin::Append => append(args),
        Builtin::Empty => empty(args),
        Builtin::Eq => eq(args),
        Builtin::TypeOf => type_of(args),
    }
}

} // verus!
