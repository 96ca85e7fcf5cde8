//! The persistent list of expressions: a shared, immutable cons list.

use crate::expression::{lemma_views_of, views_of, ExprView, Expression};
use im::ConsList;
use std::sync::Arc;
use vstd::prelude::*;

verus! {

/// An immutable singly-linked list of expressions with structural sharing.
///
/// The cells are those of `im::ConsList`; the verifier sees only what the
/// functions below state of them.
#[verifier::external_body]
#[derive(Debug)]
pub struct ExprList {
    cells: ConsList<Expression>,
}

/// The items that a list holds, first to last, each by its view.
pub uninterp spec fn list_items(l: ExprList) -> Seq<ExprView>;

impl View for ExprList {
    type V = Seq<ExprView>;

    open spec fn view(&self) -> Seq<ExprView> {
        list_items(*self)
    }
}

impl Clone for ExprList {
    /// A list of the same items, which shares its cells with this one.
    fn clone(&self) -> (r: ExprList)
        ensures
            r@ == self@,
    {
        self.shared()
    }
}

impl ExprList {
    /// Another handle on the same cells.
    ///
    /// Trusted: `ConsList::clone` copies the pointer to the first cell, so
    /// the copy holds the same items.
    #[verifier::external_body]
    pub(crate) fn shared(&self) -> (r: ExprList)
        ensures
            list_items(r) == list_items(*self),
    {
        ExprList { cells: self.cells.clone() }
    }

    /// The empty list.
    ///
    /// Trusted: `ConsList::new` makes a list of the single cell `Nil`.
    #[verifier::external_body]
    pub(crate) fn empty() -> (r: ExprList)
        ensures
            list_items(r) == Seq::<ExprView>::empty(),
    {
        ExprList { cells: ConsList::new() }
    }

    /// The list with `car` put in front of this one.
    ///
    /// Trusted: `ConsList::cons` makes one new cell that holds `car` and
    /// points to this list, which it leaves as it was.
    #[verifier::external_body]
    pub(crate) fn cons(&self, car: Expression) -> (r: ExprList)
        ensures
            list_items(r) == seq![car@] + list_items(*self),
    {
        ExprList { cells: self.cells.cons(car) }
    }

    /// The first item, if there is one.
    ///
    /// Trusted: `ConsList::head` gives the item of the first cell, and
    /// `None` for `Nil`.
    #[verifier::external_body]
    pub(crate) fn head(&self) -> (r: Option<Arc<Expression>>)
        ensures
            list_items(*self).len() == 0 ==> r is None,
            list_items(*self).len() > 0 ==> r is Some && r->0@ == list_items(*self)[0],
    {
        self.cells.head()
    }

    /// The list behind the first item, if there is one.
    ///
    /// Trusted: `ConsList::tail` gives the list that the first cell points
    /// to, and `None` for `Nil`.
    #[verifier::external_body]
    pub(crate) fn tail(&self) -> (r: Option<ExprList>)
        ensures
            list_items(*self).len() == 0 ==> r is None,
            list_items(*self).len() > 0 ==> r is Some && list_items(r->0) == list_items(*self).subrange(
                1,
                list_items(*self).len() as int,
            ),
    {
        self.cells.tail().map(|cells| ExprList { cells })
    }

    /// The number of items.
    ///
    /// Trusted: `ConsList::len` reads the count kept in the first cell,
    /// which `cons` sets to one more than that of the list behind it.
    #[verifier::external_body]
    pub(crate) fn count(&self) -> (n: usize)
        ensures
            n == list_items(*self).len(),
    {
        self.cells.len()
    }
}

impl ExprList {
    /// The empty list.
    pub fn new() -> (r: ExprList)
        ensures
            r@.len() == 0,
    {
        ExprList::empty()
    }

    /// The number of items.
    pub fn len(&self) -> (n: usize)
        ensures
            n == self@.len(),
    {
        self.count()
    }

    /// Whether the list holds no item.
    pub fn is_empty(&self) -> (r: bool)
        ensures
            r == (self@.len() == 0),
    {
        self.count() == 0
    }

    /// The list behind the first `k` items; the empty list where there are
    /// no more than `k`.
    pub fn skip(&self, k: usize) -> (r: ExprList)
        ensures
            k <= self@.len() ==> r@ == self@.subrange(k as int, self@.len() as int),
            k > self@.len() ==> r@.len() == 0,
    {
        let mut cur = self.clone();
        let mut i: usize = 0;
        while i < k
            invariant
                i <= k,
                i <= self@.len() ==> cur@ == self@.subrange(i as int, self@.len() as int),
                i > self@.len() ==> cur@.len() == 0,
            decreases k - i,
        {
            match cur.tail() {
                Some(t) => {
                    assert(i < self@.len());
                    assert(t@ =~= self@.subrange(i as int + 1, self@.len() as int));
                    cur = t;
                },
                None => {
                    assert(cur@.len() == 0);
                },
            }
            i += 1;
        }
        cur
    }

    /// The item at position `i`, counted from 0, if there is one.
    pub fn nth(&self, i: usize) -> (r: Option<Arc<Expression>>)
        ensures
            i < self@.len() ==> r is Some && r->0@ == self@[i as int],
            i >= self@.len() ==> r is None,
    {
        let rest = self.skip(i);
        rest.head()
    }

    /// The items in order, each shared with the list.
    pub fn to_vec(&self) -> (v: Vec<Arc<Expression>>)
        ensures
            v@.len() == self@.len(),
            forall|i: int| 0 <= i < v@.len() ==> (#[trigger] v@[i])@ == self@[i],
    {
        let mut v: Vec<Arc<Expression>> = Vec::new();
        let mut cur = self.clone();
        let n = self.count();
        let mut i: usize = 0;
        while i < n
            invariant
                n == self@.len(),
                i <= n,
                v@.len() == i,
                cur@ == self@.subrange(i as int, n as int),
                forall|j: int| 0 <= j < i ==> (#[trigger] v@[j])@ == self@[j],
            decreases n - i,
        {
            let h = cur.head();
            let t = cur.tail();
            match (h, t) {
                (Some(item), Some(rest)) => {
                    assert(rest@ =~= self@.subrange(i as int + 1, n as int));
                    v.push(item);
                    cur = rest;
                },
                _ => {
                    assert(false);
                },
            }
            i += 1;
        }
        v
    }

    /// The list of the given items, in order.
    pub fn from_vec(items: Vec<Expression>) -> (r: ExprList)
        ensures
            r@ == views_of(items@),
    {
        let mut items = items;
        let ghost all = views_of(items@);
        proof {
            lemma_views_of(items@);
        }
        let mut out = ExprList::empty();
        while items.len() > 0
            invariant
                items@.len() <= all.len(),
                forall|j: int| 0 <= j < items@.len() ==> (#[trigger] items@[j])@ == all[j],
                out@ == all.subrange(items@.len() as int, all.len() as int),
            decreases items@.len(),
        {
            let last = items.pop();
            match last {
                Some(e) => {
                    let ghost k = items@.len() as int;
                    out = out.cons(e);
                    assert(out@ =~= all.subrange(k, all.len() as int));
                },
                None => {
                    assert(false);
                },
            }
        }
        assert(out@ =~= all);
        out
    }
}

} // verus!
