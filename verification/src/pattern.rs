//! Structural pattern matching over expressions, and the substitution of
//! what a pattern bound.

use crate::display::{number_free, shows, text_of};
use crate::equality::expr_eq;
use crate::exception::{Exception, ExceptionDataView, ExceptionView};
use crate::expression::{lemma_views_of, views_of, ExprView, Expression};
use crate::host::Host;
use crate::list::ExprList;
use crate::text::same_text;
use vstd::hash_map::StringHashMap;
use vstd::prelude::*;
use vstd::string::StringExecFns;

verus! {

/// What the symbols of a pattern were bound to.
pub type Matches = StringHashMap<Expression>;

/// The bindings of `m`, each value by its view.
pub open spec fn matches_view(m: Matches) -> Map<Seq<char>, ExprView> {
    m@.map_values(|e: Expression| e@)
}

/// The views of a sequence of strings.
pub open spec fn names_of(names: Seq<String>) -> Seq<Seq<char>> {
    names.map_values(|s: String| s@)
}

/// How a match ends.
pub enum MatchOutcome {
    /// Pattern and input agree; these are the bindings.
    Bound(Map<Seq<char>, ExprView>),
    /// The first place, from left to right, where they do not: what the
    /// pattern has there, and what the input has.
    Mismatch(ExprView, ExprView),
}

/// Matches `input` against `pattern`, adding to the bindings `acc`.
///
/// A symbol of the pattern that is one of `syntax` demands that very
/// symbol; any other symbol is bound to what the input has in its place. A
/// list demands a list of the same length and is matched item by item.
/// Anything else demands an equal value.
pub open spec fn match_walk(
    syntax: Seq<Seq<char>>,
    pattern: ExprView,
    input: ExprView,
    acc: Map<Seq<char>, ExprView>,
) -> MatchOutcome
    decreases pattern, 1int,
{
    match pattern {
        ExprView::Symbol(name) => if syntax.contains(name) {
            if input == pattern {
                MatchOutcome::Bound(acc)
            } else {
                MatchOutcome::Mismatch(pattern, input)
            }
        } else {
            MatchOutcome::Bound(acc.insert(name, input))
        },
        ExprView::Cons(ps) => match input {
            ExprView::Cons(xs) => if ps.len() == xs.len() {
                match_walk_all(syntax, ps, xs, acc)
            } else {
                MatchOutcome::Mismatch(pattern, input)
            },
            _ => MatchOutcome::Mismatch(pattern, input),
        },
        _ => if expr_eq(pattern, input) {
            MatchOutcome::Bound(acc)
        } else {
            MatchOutcome::Mismatch(pattern, input)
        },
    }
}

/// [`match_walk`] over the items of two lists, from the first on, until one
/// pair does not match.
pub open spec fn match_walk_all(
    syntax: Seq<Seq<char>>,
    ps: Seq<ExprView>,
    xs: Seq<ExprView>,
    acc: Map<Seq<char>, ExprView>,
) -> MatchOutcome
    decreases ps, 0int,
{
    if ps.len() == 0 || xs.len() == 0 {
        MatchOutcome::Bound(acc)
    } else {
        match match_walk(syntax, ps[0], xs[0], acc) {
            MatchOutcome::Bound(next) => match_walk_all(
                syntax,
                ps.subrange(1, ps.len() as int),
                xs.subrange(1, xs.len() as int),
                next,
            ),
            fail => fail,
        }
    }
}

/// What a failed match says.
pub open spec fn mismatch_text(expected: ExprView, found: ExprView) -> Seq<char> {
    "pattern match failure: expected `"@ + text_of(expected) + "`, found `"@ + text_of(found)
        + "`"@
}

/// `e` with every symbol that `m` binds replaced by what it is bound to.
/// What is put in is not searched again.
pub open spec fn replace_walk(e: ExprView, m: Map<Seq<char>, ExprView>) -> ExprView
    decreases e, 1int,
{
    match e {
        ExprView::Symbol(name) => if m.contains_key(name) {
            m[name]
        } else {
            e
        },
        ExprView::Cons(items) => ExprView::Cons(replace_all(items, m)),
        _ => e,
    }
}

/// [`replace_walk`] of each item.
pub open spec fn replace_all(items: Seq<ExprView>, m: Map<Seq<char>, ExprView>) -> Seq<ExprView>
    decreases items, 0int,
{
    if items.len() == 0 {
        Seq::empty()
    } else {
        replace_all(items.drop_last(), m).push(replace_walk(items.last(), m))
    }
}

/// `acc` with each symbol of `e` that is none of `syntax`, in the order of
/// a walk from left to right, as often as it occurs.
pub open spec fn symbols_walk(syntax: Seq<Seq<char>>, e: ExprView, acc: Seq<Seq<char>>) -> Seq<
    Seq<char>,
>
    decreases e, 1int,
{
    match e {
        ExprView::Symbol(name) => if syntax.contains(name) {
            acc
        } else {
            acc.push(name)
        },
        ExprView::Cons(items) => symbols_walk_all(syntax, items, acc),
        _ => acc,
    }
}

/// [`symbols_walk`] over each of `items` in turn.
pub open spec fn symbols_walk_all(
    syntax: Seq<Seq<char>>,
    items: Seq<ExprView>,
    acc: Seq<Seq<char>>,
) -> Seq<Seq<char>>
    decreases items, 0int,
{
    if items.len() == 0 {
        acc
    } else {
        symbols_walk(syntax, items.last(), symbols_walk_all(syntax, items.drop_last(), acc))
    }
}

/// `replace_all` keeps the length and replaces in each item.
pub proof fn lemma_replace_all(items: Seq<ExprView>, m: Map<Seq<char>, ExprView>)
    ensures
        replace_all(items, m).len() == items.len(),
        forall|i: int|
            0 <= i < items.len() ==> #[trigger] replace_all(items, m)[i] == replace_walk(
                items[i],
                m,
            ),
    decreases items.len(),
{
    if items.len() > 0 {
        lemma_replace_all(items.drop_last(), m);
        assert(replace_all(items, m) == replace_all(items.drop_last(), m).push(
            replace_walk(items.last(), m),
        ));
    } else {
        assert(replace_all(items, m) == Seq::<ExprView>::empty());
    }
}

/// Whether `name` is one of `syntax`.
pub fn is_keyword(syntax: &Vec<String>, name: &str) -> (r: bool)
    ensures
        r == names_of(syntax@).contains(name@),
{
    let mut i: usize = 0;
    while i < syntax.len()
        invariant
            i <= syntax.len(),
            forall|j: int| 0 <= j < i ==> names_of(syntax@)[j] != name@,
        decreases syntax.len() - i,
    {
        if same_text(syntax[i].as_str(), name) {
            assert(names_of(syntax@)[i as int] == name@);
            return true;
        }
        i += 1;
    }
    false
}

/// The error of a failed match.
fn mismatch<H: Host>(expected: &Expression, found: &Expression, host: &H) -> (e: Exception)
    ensures
        is_mismatch(host, e@, expected@, found@),
{
    let mut msg = String::from_str("pattern match failure: expected `");
    let a = expected.to_text(host);
    msg.append(a.as_str());
    msg.append("`, found `");
    let b = found.to_text(host);
    msg.append(b.as_str());
    msg.append("`");
    proof {
        assert(shows(host, expected@, a@) && shows(host, found@, b@));
        assert(msg@ == "pattern match failure: expected `"@ + a@ + "`, found `"@ + b@ + "`"@);
    }
    Exception::custom(42, msg.as_str())
}

/// Whether `e` is the error of a match that failed on `expected` and
/// `found`: a custom error with code 42 and an empty trace, which shows the
/// two as they are written out. Where neither holds a number, what it says
/// is [`mismatch_text`].
pub open spec fn is_mismatch<H: Host>(
    host: &H,
    e: ExceptionView,
    expected: ExprView,
    found: ExprView,
) -> bool {
    &&& e.stack.len() == 0
    &&& e.data matches ExceptionDataView::Custom(code, text) && code == 42 && (number_free(expected)
        && number_free(found) ==> text == mismatch_text(expected, found)) && exists|
        a: Seq<char>,
        b: Seq<char>,
    |
        #![trigger shows(host, expected, a), shows(host, found, b)]
        shows(host, expected, a) && shows(host, found, b) && text
            == "pattern match failure: expected `"@ + a + "`, found `"@ + b + "`"@
}

/// Matches `input` against `pattern` and adds the bindings to `to`. At the
/// first mismatch it stops; `to` then holds what was bound before.
fn extract_matches<H: Host>(
    syntax: &Vec<String>,
    pattern: &Expression,
    input: &Expression,
    to: &mut Matches,
    host: &H,
) -> (r: Result<(), Exception>)
    ensures
        match match_walk(names_of(syntax@), pattern@, input@, matches_view(*old(to))) {
            MatchOutcome::Bound(b) => r is Ok && matches_view(*final(to)) == b,
            MatchOutcome::Mismatch(x, y) => r is Err && is_mismatch(host, r->Err_0@, x, y),
        },
    decreases pattern@,
{
    match pattern {
        Expression::Symbol(name) => {
            if is_keyword(syntax, name.as_str()) {
                match input {
                    Expression::Symbol(other) => {
                        if *name == *other {
                            Ok(())
                        } else {
                            Err(mismatch(pattern, input, host))
                        }
                    },
                    _ => Err(mismatch(pattern, input, host)),
                }
            } else {
                let ghost before = matches_view(*to);
                to.insert(name.clone(), input.clone());
                assert(matches_view(*to) =~= before.insert(name@, input@));
                Ok(())
            }
        },
        Expression::Cons(ps) => {
            match input {
                Expression::Cons(xs) => {
                    if ps.len() != xs.len() {
                        return Err(mismatch(pattern, input, host));
                    }
                    let p = ps.to_vec();
                    let x = xs.to_vec();
                    let mut i: usize = 0;
                    assert(ps@.subrange(0, ps@.len() as int) =~= ps@);
                    assert(xs@.subrange(0, xs@.len() as int) =~= xs@);
                    while i < p.len()
                        invariant
                            i <= p.len(),
                            p@.len() == ps@.len(),
                            x@.len() == xs@.len(),
                            ps@.len() == xs@.len(),
                            pattern@ == ExprView::Cons(ps@),
                            input@ == ExprView::Cons(xs@),
                            forall|j: int| 0 <= j < p@.len() ==> (#[trigger] p@[j])@ == ps@[j],
                            forall|j: int| 0 <= j < x@.len() ==> (#[trigger] x@[j])@ == xs@[j],
                            match_walk_all(
                                names_of(syntax@),
                                ps@,
                                xs@,
                                matches_view(*old(to)),
                            ) == match_walk_all(
                                names_of(syntax@),
                                ps@.subrange(i as int, ps@.len() as int),
                                xs@.subrange(i as int, xs@.len() as int),
                                matches_view(*to),
                            ),
                        decreases p.len() - i,
                    {
                        proof {
                            let ghost ev = pattern@;
                            assert(decreases_to!(ev => ev->Cons_0));
                            assert(decreases_to!(ps@ => ps@[i as int]));
                            let ghost pr = ps@.subrange(i as int, ps@.len() as int);
                            let ghost xr = xs@.subrange(i as int, xs@.len() as int);
                            assert(pr[0] == ps@[i as int]);
                            assert(xr[0] == xs@[i as int]);
                            assert(pr.subrange(1, pr.len() as int) =~= ps@.subrange(
                                i as int + 1,
                                ps@.len() as int,
                            ));
                            assert(xr.subrange(1, xr.len() as int) =~= xs@.subrange(
                                i as int + 1,
                                xs@.len() as int,
                            ));
                        }
                        let ghost before = matches_view(*to);
                        let ghost pr = ps@.subrange(i as int, ps@.len() as int);
                        let ghost xr = xs@.subrange(i as int, xs@.len() as int);
                        match extract_matches(syntax, &p[i], &x[i], to, host) {
                            Ok(()) => {},
                            Err(e) => {
                                assert(match_walk(names_of(syntax@), pr[0], xr[0], before)
                                    is Mismatch);
                                assert(match_walk_all(names_of(syntax@), pr, xr, before)
                                    == match_walk(names_of(syntax@), pr[0], xr[0], before));
                                return Err(e);
                            },
                        }
                        i += 1;
                    }
                    Ok(())
                },
                _ => Err(mismatch(pattern, input, host)),
            }
        },
        _ => {
            if pattern.equals(input) {
                Ok(())
            } else {
                Err(mismatch(pattern, input, host))
            }
        },
    }
}

/// Matches `input` against `pattern`, with the symbols `syntax` as literal
/// keywords, and gives what the other symbols of the pattern were bound
/// to; or the error of the first mismatch.
pub fn pattern_match<H: Host>(
    syntax: &Vec<String>,
    pattern: &Expression,
    input: &Expression,
    host: &H,
) -> (r: Result<Matches, Exception>)
    ensures
        match match_walk(names_of(syntax@), pattern@, input@, Map::empty()) {
            MatchOutcome::Bound(b) => r is Ok && matches_view(r->Ok_0) == b,
            MatchOutcome::Mismatch(x, y) => r is Err && is_mismatch(host, r->Err_0@, x, y),
        },
{
    let mut matches: Matches = StringHashMap::new();
    assert(matches_view(matches) =~= Map::empty());
    match extract_matches(syntax, pattern, input, &mut matches, host) {
        Ok(()) => Ok(matches),
        Err(e) => Err(e),
    }
}

/// `expr` with every symbol that `matches` binds replaced by its binding.
pub fn replace_symbols(expr: &Expression, matches: &Matches) -> (r: Expression)
    ensures
        r@ == replace_walk(expr@, matches_view(*matches)),
    decreases expr@,
{
    match expr {
        Expression::Symbol(name) => {
            match matches.get(name.as_str()) {
                Some(value) => value.clone(),
                None => Expression::Symbol(name.clone()),
            }
        },
        Expression::Cons(list) => {
            let items = list.to_vec();
            let mut out: Vec<Expression> = Vec::new();
            let mut i: usize = 0;
            let ghost m = matches_view(*matches);
            while i < items.len()
                invariant
                    i <= items.len(),
                    out@.len() == i,
                    items@.len() == list@.len(),
                    expr@ == ExprView::Cons(list@),
                    m == matches_view(*matches),
                    forall|j: int| 0 <= j < items@.len() ==> (#[trigger] items@[j])@ == list@[j],
                    forall|j: int| 0 <= j < i ==> (#[trigger] out@[j])@ == replace_walk(list@[j], m),
                decreases items.len() - i,
            {
                proof {
                    let ghost ev = expr@;
                    assert(decreases_to!(ev => ev->Cons_0));
                    assert(decreases_to!(list@ => list@[i as int]));
                }
                let item = replace_symbols(&items[i], matches);
                out.push(item);
                i += 1;
            }
            proof {
                lemma_views_of(out@);
                lemma_replace_all(list@, m);
                assert(views_of(out@) =~= replace_all(list@, m));
            }
            Expression::Cons(ExprList::from_vec(out))
        },
        other => other.clone(),
    }
}

fn extract_symbols_to(syntax: &Vec<String>, expr: &Expression, to: &mut Vec<String>)
    ensures
        names_of(final(to)@) == symbols_walk(names_of(syntax@), expr@, names_of(old(to)@)),
    decreases expr@,
{
    match expr {
        Expression::Symbol(name) => {
            if !is_keyword(syntax, name.as_str()) {
                to.push(name.clone());
                assert(names_of(to@) =~= names_of(old(to)@).push(name@));
            }
        },
        Expression::Cons(list) => {
            let items = list.to_vec();
            let mut i: usize = 0;
            assert(list@.subrange(0, 0) =~= Seq::empty());
            while i < items.len()
                invariant
                    i <= items.len(),
                    items@.len() == list@.len(),
                    expr@ == ExprView::Cons(list@),
                    forall|j: int| 0 <= j < items@.len() ==> (#[trigger] items@[j])@ == list@[j],
                    names_of(to@) == symbols_walk_all(
                        names_of(syntax@),
                        list@.subrange(0, i as int),
                        names_of(old(to)@),
                    ),
                decreases items.len() - i,
            {
                proof {
                    let ghost ev = expr@;
                    assert(decreases_to!(ev => ev->Cons_0));
                    assert(decreases_to!(list@ => list@[i as int]));
                    let ghost cur = list@.subrange(0, i as int + 1);
                    assert(cur.drop_last() =~= list@.subrange(0, i as int));
                    assert(cur.last() == list@[i as int]);
                }
                extract_symbols_to(syntax, &items[i], to);
                i += 1;
            }
            assert(list@.subrange(0, i as int) =~= list@);
        },
        _ => {},
    }
}

/// The symbols of `expr` that are none of `syntax`, in the order of a walk
/// from left to right, each as often as it occurs.
pub fn extract_symbols(syntax: &Vec<String>, expr: &Expression) -> (r: Vec<String>)
    ensures
        names_of(r@) == symbols_walk(names_of(syntax@), expr@, Seq::empty()),
{
    let mut buf: Vec<String> = Vec::new();
    assert(names_of(buf@) =~= Seq::empty());
    extract_symbols_to(syntax, expr, &mut buf);
    buf
}

/// Whether the pattern `p` binds the symbol `k`: `k` is a symbol of `p`
/// and none of `syntax`.
pub open spec fn binds(syntax: Seq<Seq<char>>, p: ExprView, k: Seq<char>) -> bool
    decreases p, 1int,
{
    match p {
        ExprView::Symbol(name) => name == k && !syntax.contains(name),
        ExprView::Cons(ps) => binds_any(syntax, ps, k),
        _ => false,
    }
}

/// Whether one of the patterns `ps` binds the symbol `k`.
pub open spec fn binds_any(syntax: Seq<Seq<char>>, ps: Seq<ExprView>, k: Seq<char>) -> bool
    decreases ps, 0int,
{
    if ps.len() == 0 {
        false
    } else {
        binds(syntax, ps[0], k) || binds_any(syntax, ps.subrange(1, ps.len() as int), k)
    }
}

/// Whether the pattern `p` binds no symbol twice.
pub open spec fn linear(syntax: Seq<Seq<char>>, p: ExprView) -> bool
    decreases p, 1int,
{
    match p {
        ExprView::Cons(ps) => linear_all(syntax, ps),
        _ => true,
    }
}

/// Whether the patterns `ps` together bind no symbol twice.
pub open spec fn linear_all(syntax: Seq<Seq<char>>, ps: Seq<ExprView>) -> bool
    decreases ps, 0int,
{
    if ps.len() == 0 {
        true
    } else {
        let rest = ps.subrange(1, ps.len() as int);
        linear(syntax, ps[0]) && linear_all(syntax, rest) && forall|k: Seq<char>|
            !(#[trigger] binds(syntax, ps[0], k) && binds_any(syntax, rest, k))
    }
}

/// Whether `a` is `x`, but that a value of `a` which is no list and no
/// symbol may stand where `x` has a value equal to it, as [`expr_eq`] says.
pub open spec fn alike(a: ExprView, x: ExprView) -> bool
    decreases a, 1int,
{
    a == x || match a {
        ExprView::Cons(items) => x matches ExprView::Cons(xs) && items.len() == xs.len()
            && alike_from(items, xs, 0),
        ExprView::Symbol(_) => false,
        _ => expr_eq(a, x),
    }
}

/// Whether the items from position `i` on are [`alike`], each to the one
/// of `xs` at its position.
pub open spec fn alike_from(items: Seq<ExprView>, xs: Seq<ExprView>, i: nat) -> bool
    decreases items, 0int, items.len() - i,
{
    if i >= items.len() {
        true
    } else {
        alike(items[i as int], xs[i as int]) && alike_from(items, xs, i + 1)
    }
}

/// Items that are alike one by one are alike from any position on.
proof fn lemma_alike_from(items: Seq<ExprView>, xs: Seq<ExprView>, i: nat)
    requires
        forall|j: int| i <= j < items.len() ==> #[trigger] alike(items[j], xs[j]),
    ensures
        alike_from(items, xs, i),
    decreases items.len() - i,
{
    if i < items.len() {
        assert(alike(items[i as int], xs[i as int]));
        lemma_alike_from(items, xs, i + 1);
    }
}

/// A match changes no binding of a symbol that the pattern does not bind.
proof fn lemma_match_keeps(
    syntax: Seq<Seq<char>>,
    p: ExprView,
    x: ExprView,
    acc: Map<Seq<char>, ExprView>,
    k: Seq<char>,
)
    requires
        match_walk(syntax, p, x, acc) is Bound,
        !binds(syntax, p, k),
    ensures
        match_walk(syntax, p, x, acc)->Bound_0.contains_key(k) == acc.contains_key(k),
        match_walk(syntax, p, x, acc)->Bound_0[k] == acc[k],
    decreases p, 1int,
{
    match p {
        ExprView::Cons(ps) => {
            lemma_match_all_keeps(syntax, ps, x->Cons_0, acc, k);
        },
        _ => {},
    }
}

/// A match of lists changes no binding of a symbol that the patterns do not
/// bind.
proof fn lemma_match_all_keeps(
    syntax: Seq<Seq<char>>,
    ps: Seq<ExprView>,
    xs: Seq<ExprView>,
    acc: Map<Seq<char>, ExprView>,
    k: Seq<char>,
)
    requires
        match_walk_all(syntax, ps, xs, acc) is Bound,
        !binds_any(syntax, ps, k),
    ensures
        match_walk_all(syntax, ps, xs, acc)->Bound_0.contains_key(k) == acc.contains_key(k),
        match_walk_all(syntax, ps, xs, acc)->Bound_0[k] == acc[k],
    decreases ps, 0int,
{
    if ps.len() > 0 && xs.len() > 0 {
        lemma_match_keeps(syntax, ps[0], xs[0], acc, k);
        lemma_match_all_keeps(
            syntax,
            ps.subrange(1, ps.len() as int),
            xs.subrange(1, xs.len() as int),
            match_walk(syntax, ps[0], xs[0], acc)->Bound_0,
            k,
        );
    }
}

/// A match binds every symbol that the pattern binds.
proof fn lemma_match_binds(
    syntax: Seq<Seq<char>>,
    p: ExprView,
    x: ExprView,
    acc: Map<Seq<char>, ExprView>,
    k: Seq<char>,
)
    requires
        match_walk(syntax, p, x, acc) is Bound,
        binds(syntax, p, k) || acc.contains_key(k),
    ensures
        match_walk(syntax, p, x, acc)->Bound_0.contains_key(k),
    decreases p, 1int,
{
    match p {
        ExprView::Cons(ps) => {
            lemma_match_all_binds(syntax, ps, x->Cons_0, acc, k);
        },
        _ => {},
    }
}

/// A match of lists binds every symbol that the patterns bind.
proof fn lemma_match_all_binds(
    syntax: Seq<Seq<char>>,
    ps: Seq<ExprView>,
    xs: Seq<ExprView>,
    acc: Map<Seq<char>, ExprView>,
    k: Seq<char>,
)
    requires
        ps.len() == xs.len(),
        match_walk_all(syntax, ps, xs, acc) is Bound,
        binds_any(syntax, ps, k) || acc.contains_key(k),
    ensures
        match_walk_all(syntax, ps, xs, acc)->Bound_0.contains_key(k),
    decreases ps, 0int,
{
    if ps.len() > 0 {
        let next = match_walk(syntax, ps[0], xs[0], acc)->Bound_0;
        if binds(syntax, ps[0], k) || acc.contains_key(k) {
            lemma_match_binds(syntax, ps[0], xs[0], acc, k);
        }
        lemma_match_all_binds(
            syntax,
            ps.subrange(1, ps.len() as int),
            xs.subrange(1, xs.len() as int),
            next,
            k,
        );
    }
}

/// Putting in what a match bound gives the input back, with any bindings
/// `m` that hold what the match bound and bind no literal keyword.
proof fn lemma_round_trip(
    syntax: Seq<Seq<char>>,
    p: ExprView,
    x: ExprView,
    acc: Map<Seq<char>, ExprView>,
    m: Map<Seq<char>, ExprView>,
)
    requires
        match_walk(syntax, p, x, acc) is Bound,
        linear(syntax, p),
        forall|k: Seq<char>| #[trigger]
            binds(syntax, p, k) ==> m.contains_key(k) && m[k] == match_walk(
                syntax,
                p,
                x,
                acc,
            )->Bound_0[k],
        forall|k: Seq<char>| syntax.contains(k) ==> !#[trigger] m.contains_key(k),
    ensures
        alike(replace_walk(p, m), x),
    decreases p, 1int,
{
    match p {
        ExprView::Symbol(name) => {
            if !syntax.contains(name) {
                assert(binds(syntax, p, name));
            }
        },
        ExprView::Cons(ps) => {
            let xs = x->Cons_0;
            assert(match_walk(syntax, p, x, acc) == match_walk_all(syntax, ps, xs, acc));
            assert forall|k: Seq<char>| #[trigger] binds_any(syntax, ps, k) implies m.contains_key(
                k,
            ) && m[k] == match_walk_all(syntax, ps, xs, acc)->Bound_0[k] by {
                assert(binds(syntax, p, k));
            }
            lemma_round_trip_all(syntax, ps, xs, acc, m);
            lemma_replace_all(ps, m);
            let out = replace_all(ps, m);
            assert forall|i: int| 0 <= i < out.len() implies #[trigger] alike(out[i], xs[i]) by {
                assert(alike(replace_walk(ps[i], m), xs[i]));
            }
            lemma_alike_from(out, xs, 0);
        },
        _ => {},
    }
}

/// Putting in what a match of lists bound gives each item of the input
/// back.
proof fn lemma_round_trip_all(
    syntax: Seq<Seq<char>>,
    ps: Seq<ExprView>,
    xs: Seq<ExprView>,
    acc: Map<Seq<char>, ExprView>,
    m: Map<Seq<char>, ExprView>,
)
    requires
        ps.len() == xs.len(),
        match_walk_all(syntax, ps, xs, acc) is Bound,
        linear_all(syntax, ps),
        forall|k: Seq<char>| #[trigger]
            binds_any(syntax, ps, k) ==> m.contains_key(k) && m[k] == match_walk_all(
                syntax,
                ps,
                xs,
                acc,
            )->Bound_0[k],
        forall|k: Seq<char>| syntax.contains(k) ==> !#[trigger] m.contains_key(k),
    ensures
        forall|i: int| 0 <= i < ps.len() ==> #[trigger] alike(replace_walk(ps[i], m), xs[i]),
    decreases ps, 0int,
{
    if ps.len() > 0 {
        let next = match_walk(syntax, ps[0], xs[0], acc)->Bound_0;
        let rest = ps.subrange(1, ps.len() as int);
        let others = xs.subrange(1, xs.len() as int);
        assert forall|k: Seq<char>| #[trigger] binds(syntax, ps[0], k) implies m.contains_key(k)
            && m[k] == next[k] by {
            assert(binds_any(syntax, ps, k));
            lemma_match_all_keeps(syntax, rest, others, next, k);
        }
        lemma_round_trip(syntax, ps[0], xs[0], acc, m);
        assert forall|k: Seq<char>| #[trigger] binds_any(syntax, rest, k) implies m.contains_key(k)
            && m[k] == match_walk_all(syntax, rest, others, next)->Bound_0[k] by {
            assert(binds_any(syntax, ps, k));
        }
        lemma_round_trip_all(syntax, rest, others, next, m);
        assert forall|i: int| 0 <= i < ps.len() implies #[trigger] alike(
            replace_walk(ps[i], m),
            xs[i],
        ) by {
            if i > 0 {
                assert(rest[i - 1] == ps[i] && others[i - 1] == xs[i]);
                assert(alike(replace_walk(rest[i - 1], m), others[i - 1]));
            }
        }
    }
}

/// Matching and substituting are inverse: where `input` matches a pattern
/// that binds no symbol twice, putting what was bound into the pattern gives
/// the input back, but that a literal of the pattern stands where the input
/// has a value equal to it.
pub proof fn law_substitution_gives_the_input_back(
    syntax: Seq<Seq<char>>,
    pattern: ExprView,
    input: ExprView,
)
    requires
        match_walk(syntax, pattern, input, Map::empty()) is Bound,
        linear(syntax, pattern),
    ensures
        alike(
            replace_walk(pattern, match_walk(syntax, pattern, input, Map::empty())->Bound_0),
            input,
        ),
{
    let b = match_walk(syntax, pattern, input, Map::empty())->Bound_0;
    assert forall|k: Seq<char>| #[trigger] binds(syntax, pattern, k) implies b.contains_key(k) by {
        lemma_match_binds(syntax, pattern, input, Map::empty(), k);
    }
    assert forall|k: Seq<char>| syntax.contains(k) implies !#[trigger] b.contains_key(k) by {
        lemma_keyword_is_not_bound(syntax, pattern, k);
        lemma_match_keeps(syntax, pattern, input, Map::empty(), k);
    }
    lemma_round_trip(syntax, pattern, input, Map::empty(), b);
}

/// A pattern binds none of its literal keywords.
proof fn lemma_keyword_is_not_bound(syntax: Seq<Seq<char>>, p: ExprView, k: Seq<char>)
    requires
        syntax.contains(k),
    ensures
        !binds(syntax, p, k),
    decreases p, 1int,
{
    match p {
        ExprView::Cons(ps) => {
            lemma_keyword_is_not_bound_by_any(syntax, ps, k);
        },
        _ => {},
    }
}

/// Patterns bind none of their literal keywords.
proof fn lemma_keyword_is_not_bound_by_any(syntax: Seq<Seq<char>>, ps: Seq<ExprView>, k: Seq<char>)
    requires
        syntax.contains(k),
    ensures
        !binds_any(syntax, ps, k),
    decreases ps, 0int,
{
    if ps.len() > 0 {
        lemma_keyword_is_not_bound(syntax, ps[0], k);
        lemma_keyword_is_not_bound_by_any(syntax, ps.subrange(1, ps.len() as int), k);
    }
}

} // verus!
