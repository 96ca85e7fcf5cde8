//! The grammar that the reader follows, as functions on the text.
//!
//! What an atom means is the host's to say where it may be a number, so the
//! grammar gives a tree whose atoms are still text, and [`reads_as`] says
//! which expressions such a tree can be read as.

use crate::eval::{error_of, nil_view};
use crate::exception::ExceptionDataView;
use crate::expression::{CallableView, ExprView};
use crate::host::Host;
use crate::parser::{blank, run_len, Stop};
use crate::quat_text::{quat_ok, reads_num, shape_from};
use vstd::prelude::*;

verus! {

/// What the reader finds, before its atoms are given their meaning.
pub enum Tree {
    /// An atom, by its text.
    Atom(Seq<char>),
    /// What has one meaning whatever the host says: a string, an error, the
    /// empty infix list.
    Value(ExprView),
    /// `'x`, `` `x `` or `,x`: the mark and what it stands before.
    Mark(CallableView, Box<Tree>),
    /// A list of what was read between brackets.
    List(Seq<Tree>),
}

/// What was read, and the text that is left.
pub struct Reading {
    /// The tree; `None` where the text held nothing to read.
    pub tree: Option<Tree>,
    /// What is still to be read.
    pub rest: Seq<char>,
}

/// A syntax error of the reader.
pub open spec fn fault(code: u16, text: Seq<char>) -> Tree {
    Tree::Value(error_of(ExceptionDataView::Syntax(code, text)))
}

/// Whether a tree is an error.
pub open spec fn is_fault(t: Tree) -> bool {
    t matches Tree::Value(v) && v is Error
}

/// Whether the expression `e` is a meaning of the atom `text`: what the
/// reader's own words mean is fixed; any other atom is a quaternion where
/// it has the shape of one, else the number that the host reads it as, and
/// the symbol of that name where the host reads it as none.
pub open spec fn atom_ok<H: Host>(host: &H, text: Seq<char>, e: ExprView) -> bool {
    match crate::parser::keyword_atom(text) {
        Some(v) => e == v,
        None => if shape_from(text, 0) is Some {
            e matches ExprView::Quaternion(q) && quat_ok(host, text, q)
        } else {
            (e matches ExprView::Num(n) && reads_num(host, text, Some(n))) || (e
                == ExprView::Symbol(text) && reads_num(host, text, None))
        },
    }
}

/// Whether the expression `e` is a reading of the tree `t`: it has the
/// shape of the tree, and each atom one of its meanings.
pub open spec fn reads_as<H: Host>(host: &H, t: Tree, e: ExprView) -> bool
    decreases t,
{
    match t {
        Tree::Atom(text) => atom_ok(host, text, e),
        Tree::Value(v) => e == v,
        Tree::Mark(mark, inner) => e matches ExprView::Cons(items) && items.len() == 2 && items[0]
            == ExprView::Callable(mark) && reads_as(host, *inner, items[1]),
        Tree::List(trees) => e matches ExprView::Cons(items) && items.len() == trees.len()
            && forall|i: int| 0 <= i < trees.len() ==> reads_as(host, #[trigger] trees[i], items[i]),
    }
}

/// `s` without its first character.
pub open spec fn behind(s: Seq<char>) -> Seq<char> {
    s.subrange(1, s.len() as int)
}

/// `s` without the run at its start.
pub open spec fn skip_run(s: Seq<char>, stop: Stop) -> Seq<char> {
    s.subrange(run_len(s, stop) as int, s.len() as int)
}

/// The character that stands for `c` behind a backslash.
pub open spec fn escaped(c: char) -> char {
    if c == 'r' {
        '\r'
    } else if c == 'n' {
        '\n'
    } else if c == 't' {
        '\t'
    } else {
        c
    }
}

/// Reads a string up to its closing quote, behind `acc`. A string that is
/// not closed is an error with code 8, and uses the text up.
pub open spec fn read_str(s: Seq<char>, acc: Seq<char>) -> Reading
    decreases s.len(),
{
    if s.len() == 0 {
        Reading { tree: Some(fault(8, "unclosed string literal"@)), rest: s }
    } else if s[0] == '\\' {
        if s.len() >= 2 {
            read_str(s.subrange(2, s.len() as int), acc.push(escaped(s[1])))
        } else {
            read_str(behind(s), acc)
        }
    } else if s[0] == '"' {
        Reading { tree: Some(Tree::Value(ExprView::Str(acc))), rest: behind(s) }
    } else {
        read_str(behind(s), acc.push(s[0]))
    }
}

/// The text behind the next `|#`; `None` where there is none. The
/// character behind a `|` is never looked at twice.
pub open spec fn comment_end(s: Seq<char>) -> Option<Seq<char>>
    decreases s.len(),
{
    if s.len() == 0 {
        None
    } else if s[0] == '|' {
        if s.len() >= 2 {
            if s[1] == '#' {
                Some(s.subrange(2, s.len() as int))
            } else {
                comment_end(s.subrange(2, s.len() as int))
            }
        } else {
            None
        }
    } else {
        comment_end(behind(s))
    }
}

/// A reading with a mark put before its tree.
pub open spec fn marked(mark: CallableView, r: Option<Reading>) -> Option<Reading> {
    match r {
        Some(rd) => Some(
            Reading {
                tree: match rd.tree {
                    Some(t) => Some(Tree::Mark(mark, Box::new(t))),
                    None => None,
                },
                rest: rd.rest,
            },
        ),
        None => None,
    }
}

/// Reads the next expression of `s`. `None` where the grammar alone does
/// not tell: in an infix list with more than one operator, where the
/// operators are compared by their meaning.
pub open spec fn read_expr(s: Seq<char>) -> Option<Reading>
    decreases s.len(), 0int,
{
    let t = skip_run(s, Stop::NonBlank);
    if t.len() == 0 || t.len() > s.len() {
        Some(Reading { tree: None, rest: t })
    } else {
        let c = t[0];
        let u = behind(t);
        if c == '\'' {
            marked(CallableView::Quote, read_expr(u))
        } else if c == '`' {
            marked(CallableView::Quasiquote, read_expr(u))
        } else if c == ',' {
            marked(CallableView::Unquote, read_expr(u))
        } else if c == '(' {
            read_cons(u, ')', Seq::empty())
        } else if c == '[' {
            read_cons(u, ']', Seq::empty())
        } else if c == '#' {
            if u.len() > 0 && u[0] == '|' {
                match comment_end(behind(u)) {
                    Some(v) => if v.len() < s.len() {
                        read_expr(v)
                    } else {
                        None
                    },
                    None => Some(
                        Reading {
                            tree: Some(fault(42, "unclosed block comment"@)),
                            rest: Seq::empty(),
                        },
                    ),
                }
            } else {
                read_expr(u)
            }
        } else if c == '"' {
            Some(read_str(u, Seq::empty()))
        } else if c == ')' || c == ']' || c == '}' {
            Some(Reading { tree: Some(fault(5, "unexpected list close"@)), rest: u })
        } else if c == ';' {
            let v = skip_run(u, Stop::Newline);
            if v.len() < s.len() {
                read_expr(v)
            } else {
                None
            }
        } else if c == '{' {
            read_infix(u, Seq::empty(), false, None)
        } else {
            let n = run_len(t, Stop::AtomEnd);
            Some(
                Reading {
                    tree: Some(Tree::Atom(t.subrange(0, n as int))),
                    rest: t.subrange(n as int, t.len() as int),
                },
            )
        }
    }
}

/// Reads the items of a list up to the bracket `end`, behind `acc`. An
/// item that is an error ends the reading and is the result; a list that
/// is not closed is an error with code 6.
pub open spec fn read_cons(s: Seq<char>, end: char, acc: Seq<Tree>) -> Option<Reading>
    decreases s.len(), 1int,
{
    if s.len() == 0 {
        Some(Reading { tree: Some(fault(6, "unclosed list"@)), rest: s })
    } else if blank(s[0]) {
        read_cons(behind(s), end, acc)
    } else if s[0] == end {
        Some(Reading { tree: Some(Tree::List(acc)), rest: behind(s) })
    } else {
        match read_expr(s) {
            None => None,
            Some(rd) => match rd.tree {
                None => Some(Reading { tree: Some(fault(6, "unclosed list"@)), rest: rd.rest }),
                Some(t) => if is_fault(t) {
                    Some(rd)
                } else if rd.rest.len() < s.len() {
                    read_cons(rd.rest, end, acc.push(t))
                } else {
                    None
                },
            },
        }
    }
}

/// What an infix list comes to: nothing is nil, one operand is itself, and
/// more are the list of the operator and the operands.
pub open spec fn infix_tree(buf: Seq<Tree>, op: Option<Tree>) -> Tree {
    if buf.len() == 0 {
        Tree::Value(nil_view())
    } else if buf.len() == 1 {
        buf[0]
    } else {
        match op {
            Some(o) => Tree::List(seq![o] + buf),
            None => Tree::List(buf),
        }
    }
}

/// Reads an infix list up to its closing brace, or to the end of the text:
/// operands and operators in turn, behind the operands `buf` and the
/// operator `op`.
pub open spec fn read_infix(s: Seq<char>, buf: Seq<Tree>, is_op: bool, op: Option<Tree>) -> Option<
    Reading,
>
    decreases s.len(), 1int,
{
    if s.len() == 0 {
        Some(Reading { tree: Some(infix_tree(buf, op)), rest: s })
    } else if blank(s[0]) {
        read_infix(behind(s), buf, is_op, op)
    } else if s[0] == '}' {
        Some(Reading { tree: Some(infix_tree(buf, op)), rest: behind(s) })
    } else {
        match read_expr(s) {
            None => None,
            Some(rd) => match rd.tree {
                None => Some(
                    Reading { tree: Some(fault(7, "unclosed infix list"@)), rest: rd.rest },
                ),
                Some(t) => if rd.rest.len() >= s.len() {
                    None
                } else if is_op {
                    if op is Some {
                        None
                    } else {
                        read_infix(rd.rest, buf, false, Some(t))
                    }
                } else {
                    read_infix(rd.rest, buf.push(t), true, op)
                },
            },
        }
    }
}

/// Reads every expression of `s`, behind `acc`, up to the first that is an
/// error, which is then the result; otherwise all of them as one `begin`
/// form.
pub open spec fn read_all(s: Seq<char>, acc: Seq<Tree>) -> Option<Reading>
    decreases s.len(),
{
    match read_expr(s) {
        None => None,
        Some(rd) => match rd.tree {
            None => Some(
                Reading {
                    tree: Some(Tree::List(seq![Tree::Value(ExprView::Symbol("begin"@))] + acc)),
                    rest: rd.rest,
                },
            ),
            Some(t) => if is_fault(t) {
                Some(rd)
            } else if rd.rest.len() < s.len() {
                read_all(rd.rest, acc.push(t))
            } else {
                None
            },
        },
    }
}

/// Reads every expression of `s`, behind `acc`, errors among them, as one
/// `begin` form.
pub open spec fn read_every(s: Seq<char>, acc: Seq<Tree>) -> Option<Reading>
    decreases s.len(),
{
    match read_expr(s) {
        None => None,
        Some(rd) => match rd.tree {
            None => Some(
                Reading {
                    tree: Some(Tree::List(seq![Tree::Value(ExprView::Symbol("begin"@))] + acc)),
                    rest: rd.rest,
                },
            ),
            Some(t) => if rd.rest.len() < s.len() {
                read_every(rd.rest, acc.push(t))
            } else {
                None
            },
        },
    }
}

/// Whether a result and the text left agree with a reading, where the
/// grammar gives one.
pub open spec fn conforms<H: Host>(
    host: &H,
    spec: Option<Reading>,
    r: Option<ExprView>,
    rest: Seq<char>,
) -> bool {
    spec matches Some(rd) ==> rest == rd.rest && match (rd.tree, r) {
        (Some(t), Some(e)) => reads_as(host, t, e),
        (None, None) => true,
        _ => false,
    }
}

/// An error is read only from an error: no atom, mark or list is one.
pub proof fn lemma_fault_is_read_as_error<H: Host>(host: &H, t: Tree, e: ExprView)
    requires
        reads_as(host, t, e),
    ensures
        e is Error <==> is_fault(t),
{
}

} // verus!
