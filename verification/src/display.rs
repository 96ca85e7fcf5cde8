//! How values are written out.

use crate::exception::{code_of, message, Exception, ExceptionView};
use crate::expression::{
    lemma_views_of, views_of, Callable, CallableView, ExprView, Expression,
};
use crate::host::Host;
use crate::list::ExprList;
use crate::text::{decimal, decimal_text};

use vstd::prelude::*;
use vstd::string::StringExecFns;

verus! {

/// Whether no number and no quaternion occurs where [`text_of`] looks: the
/// text of such a value is the same with every host.
pub open spec fn number_free(e: ExprView) -> bool
    decreases e,
{
    match e {
        ExprView::Num(_) => false,
        ExprView::Quaternion(_) => false,
        ExprView::Cons(items) => forall|i: int| 0 <= i < items.len() ==> number_free(#[trigger] items[i]),
        ExprView::Struct(d) => forall|i: int| 0 <= i < d.data.len() ==> number_free(#[trigger] d.data[i]),
        _ => true,
    }
}

/// An error code in at least three digits.
pub open spec fn padded_code(code: nat) -> Seq<char> {
    if code < 10 {
        "00"@ + decimal(code)
    } else if code < 100 {
        "0"@ + decimal(code)
    } else {
        decimal(code)
    }
}

/// How an error is written: `error[007]: message`.
pub open spec fn error_text(e: ExceptionView) -> Seq<char> {
    "error["@ + padded_code(code_of(e.data) as nat) + "]: "@ + message(e.data)
}

/// The texts of `items`, each with `sep` before it but for the first where
/// `first` holds.
pub open spec fn texts_of(items: Seq<ExprView>, first: bool) -> Seq<char>
    decreases items, 0int,
{
    if items.len() == 0 {
        Seq::empty()
    } else {
        let lead = texts_of(items.drop_last(), first);
        let gap = if first && items.len() == 1 {
            Seq::<char>::empty()
        } else {
            " "@
        };
        lead + gap + text_of(items.last())
    }
}

/// How a value is written, where [`number_free`] holds of it.
pub open spec fn text_of(e: ExprView) -> Seq<char>
    decreases e, 1int,
{
    match e {
        ExprView::Bool(b) => if b {
            "true"@
        } else {
            "false"@
        },
        ExprView::Num(_) => Seq::empty(),
        ExprView::Quaternion(_) => Seq::empty(),
        ExprView::Str(s) => "\""@ + s + "\""@,
        ExprView::Symbol(s) => s,
        ExprView::Cons(items) => {
            if items.len() == 2 && items[0] == ExprView::Callable(CallableView::Quote) {
                "'"@ + text_of(items[1])
            } else if items.len() == 2 && items[0] == ExprView::Callable(CallableView::Quasiquote) {
                "`"@ + text_of(items[1])
            } else if items.len() == 2 && items[0] == ExprView::Callable(CallableView::Unquote) {
                ","@ + text_of(items[1])
            } else {
                "("@ + texts_of(items, true) + ")"@
            }
        },
        ExprView::Callable(c) => match c {
            CallableView::Quote => "quote"@,
            CallableView::Quasiquote => "quasiquote"@,
            CallableView::Unquote => "unquote"@,
            _ => "<procedure>"@,
        },
        ExprView::Error(ex) => error_text(ex),
        ExprView::Struct(d) => "(make-"@ + d.name + texts_of(d.data, false) + ")"@,
    }
}

/// The texts `parts`, each with a blank before it but for the first where
/// `first` holds.
pub open spec fn joined(parts: Seq<Seq<char>>, first: bool) -> Seq<char>
    decreases parts.len(),
{
    if parts.len() == 0 {
        Seq::empty()
    } else {
        let gap = if first && parts.len() == 1 {
            Seq::<char>::empty()
        } else {
            " "@
        };
        joined(parts.drop_last(), first) + gap + parts.last()
    }
}

/// Whether `t` is the items written one after the other, each with a
/// blank before it but for the first where `first` holds.
pub open spec fn shows_all<H: Host>(host: &H, items: Seq<ExprView>, first: bool, t: Seq<char>) -> bool
    decreases items, 0int,
{
    exists|parts: Seq<Seq<char>>|
        #![trigger joined(parts, first)]
        parts.len() == items.len() && (forall|i: int|
            0 <= i < items.len() ==> shows(host, #[trigger] items[i], parts[i])) && t == joined(
            parts,
            first,
        )
}

/// Whether `t` is a text that the host may print for the number with the
/// bits `n`.
pub open spec fn shows_num<H: Host>(host: &H, n: u64, t: Seq<char>) -> bool {
    exists|s: String| s@ == t && call_ensures(H::show_num, (host, n), s)
}

/// Whether `t` is a text that the host may print for the quaternion `q`.
pub open spec fn shows_quat<H: Host>(host: &H, q: crate::quat::Quat, t: Seq<char>) -> bool {
    exists|s: String| s@ == t && call_ensures(H::show_quat, (host, &q), s)
}

/// Whether `t` is the value `e` written out: as [`text_of`] says, but that
/// in place of each number and quaternion stands what the host prints for
/// it.
pub open spec fn shows<H: Host>(host: &H, e: ExprView, t: Seq<char>) -> bool
    decreases e, 1int,
{
    match e {
        ExprView::Num(n) => shows_num(host, n, t),
        ExprView::Quaternion(q) => shows_quat(host, q, t),
        ExprView::Cons(items) => {
            if items.len() == 2 && items[0] == ExprView::Callable(CallableView::Quote) {
                t.len() >= 1 && t == "'"@ + t.subrange(1, t.len() as int) && shows(
                    host,
                    items[1],
                    t.subrange(1, t.len() as int),
                )
            } else if items.len() == 2 && items[0] == ExprView::Callable(CallableView::Quasiquote) {
                t.len() >= 1 && t == "`"@ + t.subrange(1, t.len() as int) && shows(
                    host,
                    items[1],
                    t.subrange(1, t.len() as int),
                )
            } else if items.len() == 2 && items[0] == ExprView::Callable(CallableView::Unquote) {
                t.len() >= 1 && t == ","@ + t.subrange(1, t.len() as int) && shows(
                    host,
                    items[1],
                    t.subrange(1, t.len() as int),
                )
            } else {
                t.len() >= 2 && t == "("@ + t.subrange(1, t.len() - 1) + ")"@ && shows_all(
                    host,
                    items,
                    true,
                    t.subrange(1, t.len() - 1),
                )
            }
        },
        ExprView::Struct(d) => {
            let lead = "(make-"@ + d.name;
            t.len() >= lead.len() + 1 && t == lead + t.subrange(lead.len() as int, t.len() - 1)
                + ")"@ && shows_all(host, d.data, false, t.subrange(lead.len() as int, t.len() - 1))
        },
        _ => t == text_of(e),
    }
}

/// Whether `parts` are the values `items` written out, one text for each.
pub open spec fn written<H: Host>(host: &H, items: Seq<ExprView>, parts: Seq<Seq<char>>) -> bool {
    parts.len() == items.len() && forall|i: int|
        0 <= i < items.len() ==> shows(host, #[trigger] items[i], parts[i])
}

/// Writes an error code in at least three digits.
pub fn padded_code_text(code: u16) -> (s: String)
    ensures
        s@ == padded_code(code as nat),
{
    let mut s = if code < 10 {
        String::from_str("00")
    } else if code < 100 {
        String::from_str("0")
    } else {
        String::new()
    };
    s.append(decimal_text(code as usize).as_str());
    assert(s@ =~= padded_code(code as nat));
    s
}

impl Exception {
    /// The error as a value is written: `error[code]: message`, the code in
    /// at least three digits.
    pub fn to_text(&self) -> (s: String)
        ensures
            s@ == error_text(self@),
    {
        let mut s = String::from_str("error[");
        s.append(padded_code_text(self.error_code()).as_str());
        s.append("]: ");
        s.append(self.to_string().as_str());
        s
    }
}

impl Expression {
    /// Writes the value out. Numbers and quaternions are printed by the
    /// host, everything else as [`shows`] says; of a value without a number
    /// the result is [`text_of`].
    pub fn to_text<H: Host>(&self, host: &H) -> (s: String)
        ensures
            number_free(self@) ==> s@ == text_of(self@),
            shows(host, self@, s@),
        decreases self@, 1int,
    {
        proof {
            reveal_strlit("'");
            reveal_strlit("`");
            reveal_strlit(",");
            reveal_strlit("(");
            reveal_strlit(")");
        }
        match self {
            Expression::Bool(b) => {
                if *b {
                    String::from_str("true")
                } else {
                    String::from_str("false")
                }
            },
            Expression::Num(n) => {
                let s = host.show_num(*n);
                assert(shows_num(host, *n, s@));
                s
            },
            Expression::Quaternion(q) => {
                let s = host.show_quat(q);
                assert(shows_quat(host, **q, s@));
                s
            },
            Expression::Str(text) => {
                let mut s = String::from_str("\"");
                s.append(text.as_str());
                s.append("\"");
                s
            },
            Expression::Symbol(name) => name.clone(),
            Expression::Cons(list) => {
                let ghost items = list@;
                proof {
                    let ghost sv = self@;
                    assert(decreases_to!(sv => sv->Cons_0));
                }
                if list.len() == 2 {
                    let first = list.nth(0);
                    let second = list.nth(1);
                    match (first, second) {
                        (Some(head), Some(body)) => {
                            let mark: Option<&str> = match &*head {
                                Expression::Callable(Callable::Quote) => Some("'"),
                                Expression::Callable(Callable::Quasiquote) => Some("`"),
                                Expression::Callable(Callable::Unquote) => Some(","),
                                _ => None,
                            };
                            match mark {
                                Some(m) => {
                                    proof {
                                        assert(decreases_to!(items => items[1]));
                                        assert(number_free(self@) ==> number_free(items[1]));
                                    }
                                    let mut s = String::from_str(m);
                                    let inner = body.to_text(host);
                                    s.append(inner.as_str());
                                    assert(s@.subrange(1, s@.len() as int) =~= inner@);
                                    return s;
                                },
                                None => {},
                            }
                        },
                        _ => {},
                    }
                }
                let mut s = String::from_str("(");
                let inner = texts(list, true, host);
                s.append(inner.as_str());
                s.append(")");
                assert(s@.subrange(1, s@.len() - 1) =~= inner@);
                s
            },
            Expression::Callable(c) => match c {
                Callable::Quote => String::from_str("quote"),
                Callable::Quasiquote => String::from_str("quasiquote"),
                Callable::Unquote => String::from_str("unquote"),
                _ => String::from_str("<procedure>"),
            },
            Expression::Error(ex) => ex.to_text(),
            Expression::Struct(d) => {
                let data = ExprList::from_vec(clone_all(&d.data));
                proof {
                    let ghost sv = self@;
                    assert(decreases_to!(sv => sv->Struct_0));
                    assert(decreases_to!(sv->Struct_0 => sv->Struct_0.data));
                }
                let mut s = String::from_str("(make-");
                s.append(d.name.as_str());
                let ghost lead = s@;
                let inner = texts(&data, false, host);
                s.append(inner.as_str());
                s.append(")");
                assert(s@.subrange(lead.len() as int, s@.len() - 1) =~= inner@);
                s
            },
        }
    }
}

/// Copies of the given values.
pub fn clone_all(items: &Vec<Expression>) -> (r: Vec<Expression>)
    ensures
        views_of(r@) == views_of(items@),
{
    let mut r: Vec<Expression> = Vec::new();
    let mut i: usize = 0;
    while i < items.len()
        invariant
            i <= items.len(),
            r@.len() == i,
            forall|j: int| 0 <= j < i ==> (#[trigger] r@[j])@ == items@[j]@,
        decreases items.len() - i,
    {
        r.push(items[i].clone());
        i += 1;
    }
    proof {
        lemma_views_of(r@);
        lemma_views_of(items@);
        assert(views_of(r@) =~= views_of(items@));
    }
    r
}

/// The texts of the items of `list`, each with a blank before it but for
/// the first where `first` holds.
fn texts<H: Host>(list: &ExprList, first: bool, host: &H) -> (s: String)
    ensures
        (forall|i: int| 0 <= i < list@.len() ==> number_free(#[trigger] list@[i])) ==> s@
            == texts_of(list@, first),
        shows_all(host, list@, first, s@),
    decreases list@, 0int,
{
    let items = list.to_vec();
    let mut s = String::new();
    let mut i: usize = 0;
    let ghost mut parts: Seq<Seq<char>> = Seq::empty();
    assert(list@.subrange(0, 0) =~= Seq::empty());
    while i < items.len()
        invariant
            i <= items.len(),
            items@.len() == list@.len(),
            forall|j: int| 0 <= j < items@.len() ==> (#[trigger] items@[j])@ == list@[j],
            (forall|j: int| 0 <= j < list@.len() ==> number_free(#[trigger] list@[j])) ==> s@
                == texts_of(list@.subrange(0, i as int), first),
            parts.len() == i,
            forall|j: int| 0 <= j < i ==> shows(host, #[trigger] list@[j], parts[j]),
            s@ == joined(parts, first),
        decreases items.len() - i,
    {
        if !(first && i == 0) {
            s.append(" ");
        }
        proof {
            assert(decreases_to!(list@ => list@[i as int]));
        }
        let t = items[i].to_text(host);
        s.append(t.as_str());
        proof {
            let ghost cur = list@.subrange(0, i as int + 1);
            assert(cur.drop_last() =~= list@.subrange(0, i as int));
            assert(cur.last() == list@[i as int]);
            reveal_with_fuel(texts_of, 2);
            let ghost before = parts;
            parts = parts.push(t@);
            assert(parts.drop_last() =~= before);
        }
        i += 1;
    }
    assert(list@.subrange(0, i as int) =~= list@);
    assert(shows_all(host, list@, first, s@)) by {
        assert(parts.len() == list@.len() && (forall|j: int|
            0 <= j < list@.len() ==> shows(host, #[trigger] list@[j], parts[j])) && s@ == joined(
            parts,
            first,
        ));
    }
    s
}

/// The texts `parts` with `, ` between them.
pub open spec fn listed(parts: Seq<Seq<char>>) -> Seq<char>
    decreases parts.len(),
{
    if parts.len() == 0 {
        Seq::empty()
    } else {
        let gap = if parts.len() == 1 {
            Seq::<char>::empty()
        } else {
            ", "@
        };
        listed(parts.drop_last()) + gap + parts.last()
    }
}

/// The items in the debug format, with `, ` between them.
pub open spec fn debug_all_of(items: Seq<ExprView>) -> Seq<char>
    decreases items, 0int,
{
    if items.len() == 0 {
        Seq::empty()
    } else {
        let gap = if items.len() == 1 {
            Seq::<char>::empty()
        } else {
            ", "@
        };
        debug_all_of(items.drop_last()) + gap + debug_of(items.last())
    }
}

/// A value in the debug format, where [`number_free`] holds of it: a truth
/// value, string or symbol between `<` and `>` behind the name of its kind,
/// a list as `<Cons:[a, b]>`, a struct as `<name:[a, b]>` with the items in
/// the debug format, and anything else as it is written out.
pub open spec fn debug_of(e: ExprView) -> Seq<char>
    decreases e, 1int,
{
    match e {
        ExprView::Bool(b) => "<Bool:"@ + text_of(e) + ">"@,
        ExprView::Num(_) => Seq::empty(),
        ExprView::Str(s) => "<Str:\""@ + s + "\">"@,
        ExprView::Symbol(s) => "<Symbol:"@ + s + ">"@,
        ExprView::Cons(items) => "<Cons:["@ + debug_all_of(items) + "]>"@,
        ExprView::Struct(d) => "<"@ + d.name + ":["@ + debug_all_of(d.data) + "]>"@,
        _ => text_of(e),
    }
}

/// Whether `t` is the items in the debug format with `, ` between them.
pub open spec fn debugs_all<H: Host>(host: &H, items: Seq<ExprView>, t: Seq<char>) -> bool
    decreases items, 0int,
{
    exists|parts: Seq<Seq<char>>|
        #![trigger listed(parts)]
        parts.len() == items.len() && (forall|i: int|
            0 <= i < items.len() ==> debugs(host, #[trigger] items[i], parts[i])) && t == listed(
            parts,
        )
}

/// Whether `t` is the value `e` in the debug format: as [`debug_of`] says,
/// but that a number stands as `<Num:n>` with what the host prints for it,
/// and a quaternion as the host prints it.
pub open spec fn debugs<H: Host>(host: &H, e: ExprView, t: Seq<char>) -> bool
    decreases e, 1int,
{
    match e {
        ExprView::Num(n) => t.len() >= 6 && t == "<Num:"@ + t.subrange(5, t.len() - 1) + ">"@
            && shows_num(host, n, t.subrange(5, t.len() - 1)),
        ExprView::Bool(_) => t == debug_of(e),
        ExprView::Str(_) => t == debug_of(e),
        ExprView::Symbol(_) => t == debug_of(e),
        ExprView::Cons(items) => t.len() >= 9 && t == "<Cons:["@ + t.subrange(7, t.len() - 2)
            + "]>"@ && debugs_all(host, items, t.subrange(7, t.len() - 2)),
        ExprView::Struct(d) => {
            let lead = "<"@ + d.name + ":["@;
            t.len() >= lead.len() + 2 && t == lead + t.subrange(lead.len() as int, t.len() - 2)
                + "]>"@ && debugs_all(host, d.data, t.subrange(lead.len() as int, t.len() - 2))
        },
        _ => shows(host, e, t),
    }
}

impl Expression {
    /// Writes the value in the debug format, which tells the kinds of
    /// values apart: `<Num:1>`, `<Str:"a">`, `<Symbol:a>`, `<Bool:true>`,
    /// `<Cons:[<Num:1>, <Symbol:a>]>`, `<point:[<Num:1>]>` for a struct, and
    /// anything else as [`Expression::to_text`] writes it. Numbers are
    /// printed by the host.
    pub fn to_debug_text<H: Host>(&self, host: &H) -> (s: String)
        ensures
            number_free(self@) ==> s@ == debug_of(self@),
            debugs(host, self@, s@),
        decreases self@, 1int,
    {
        proof {
            reveal_strlit("<Num:");
            reveal_strlit(">");
            reveal_strlit("<Cons:[");
            reveal_strlit("]>");
            reveal_strlit("<");
            reveal_strlit(":[");
        }
        match self {
            Expression::Bool(b) => {
                let mut s = String::from_str("<Bool:");
                s.append(
                    if *b {
                        "true"
                    } else {
                        "false"
                    },
                );
                s.append(">");
                s
            },
            Expression::Num(n) => {
                let mut s = String::from_str("<Num:");
                let inner = host.show_num(*n);
                assert(shows_num(host, *n, inner@));
                s.append(inner.as_str());
                s.append(">");
                assert(s@.subrange(5, s@.len() - 1) =~= inner@);
                s
            },
            Expression::Str(text) => {
                let mut s = String::from_str("<Str:\"");
                s.append(text.as_str());
                s.append("\">");
                s
            },
            Expression::Symbol(name) => {
                let mut s = String::from_str("<Symbol:");
                s.append(name.as_str());
                s.append(">");
                s
            },
            Expression::Cons(list) => {
                proof {
                    let ghost sv = self@;
                    assert(decreases_to!(sv => sv->Cons_0));
                }
                let mut s = String::from_str("<Cons:[");
                let inner = debug_texts(list, host);
                s.append(inner.as_str());
                s.append("]>");
                assert(s@.subrange(7, s@.len() - 2) =~= inner@);
                s
            },
            Expression::Struct(d) => {
                let data = ExprList::from_vec(clone_all(&d.data));
                proof {
                    let ghost sv = self@;
                    assert(decreases_to!(sv => sv->Struct_0));
                    assert(decreases_to!(sv->Struct_0 => sv->Struct_0.data));
                }
                let mut s = String::from_str("<");
                s.append(d.name.as_str());
                s.append(":[");
                let ghost lead = s@;
                let inner = debug_texts(&data, host);
                s.append(inner.as_str());
                s.append("]>");
                assert(s@.subrange(lead.len() as int, s@.len() - 2) =~= inner@);
                s
            },
            other => other.to_text(host),
        }
    }
}

/// The items of `list` in the debug format, with `, ` between them.
fn debug_texts<H: Host>(list: &ExprList, host: &H) -> (s: String)
    ensures
        (forall|i: int| 0 <= i < list@.len() ==> number_free(#[trigger] list@[i])) ==> s@
            == debug_all_of(list@),
        debugs_all(host, list@, s@),
    decreases list@, 0int,
{
    let items = list.to_vec();
    let mut s = String::new();
    let mut i: usize = 0;
    let ghost mut parts: Seq<Seq<char>> = Seq::empty();
    assert(list@.subrange(0, 0) =~= Seq::empty());
    while i < items.len()
        invariant
            i <= items.len(),
            items@.len() == list@.len(),
            forall|j: int| 0 <= j < items@.len() ==> (#[trigger] items@[j])@ == list@[j],
            (forall|j: int| 0 <= j < list@.len() ==> number_free(#[trigger] list@[j])) ==> s@
                == debug_all_of(list@.subrange(0, i as int)),
            parts.len() == i,
            forall|j: int| 0 <= j < i ==> debugs(host, #[trigger] list@[j], parts[j]),
            s@ == listed(parts),
        decreases items.len() - i,
    {
        if i != 0 {
            s.append(", ");
        }
        proof {
            assert(decreases_to!(list@ => list@[i as int]));
        }
        let t = items[i].to_debug_text(host);
        s.append(t.as_str());
        proof {
            let ghost cur = list@.subrange(0, i as int + 1);
            assert(cur.drop_last() =~= list@.subrange(0, i as int));
            assert(cur.last() == list@[i as int]);
            reveal_with_fuel(debug_all_of, 2);
            let ghost before = parts;
            parts = parts.push(t@);
            assert(parts.drop_last() =~= before);
        }
        i += 1;
    }
    assert(list@.subrange(0, i as int) =~= list@);
    assert(debugs_all(host, list@, s@)) by {
        assert(parts.len() == list@.len() && (forall|j: int|
            0 <= j < list@.len() ==> debugs(host, #[trigger] list@[j], parts[j])) && s@ == listed(
            parts,
        ));
    }
    s
}

} // verus!
