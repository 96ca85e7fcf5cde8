//! The reader: text to expressions.
//!
//! Besides the usual s-expressions it knows `'x`, `` `x `` and `,x` for
//! quote, quasiquote and unquote, square brackets for lists, `{a op b op c}`
//! for `(op a b c)`, comments from `;` to the end of the line and from `#|`
//! to `|#`.

use crate::eval::fail;
use crate::exception::Exception;
use crate::expression::{Callable, ExprView, Expression};
use crate::grammar::{
    atom_ok, behind, comment_end, conforms, infix_tree, lemma_fault_is_read_as_error, read_all, read_cons, read_expr, read_infix, read_str,
    reads_as, skip_run, Reading, Tree,
};
use crate::host::Host;
use crate::quat::Quat;
use std::rc::Rc;
use crate::list::ExprList;
use crate::text::{chars_of, push_char, same_text};
use crate::util::{nil, pair, wrap_begin};
use vstd::prelude::*;

verus! {

/// Whether a character is white space.
pub uninterp spec fn blank(c: char) -> bool;

/// Tells whether a character is white space.
///
/// Trusted: `char::is_whitespace` depends on the character alone; it tells
/// whether the character has the Unicode property `White_Space`.
#[verifier::external_body]
pub(crate) fn is_blank(c: char) -> (r: bool)
    ensures
        r == blank(c),
{
    c.is_whitespace()
}

/// Whether a character can be part of an atom: any but the brackets, the
/// quotes, the backquote and the comma.
pub open spec fn valid_ident(c: char) -> bool {
    !(c == '(' || c == ')' || c == '[' || c == ']' || c == '{' || c == '}' || c == '\'' || c
        == '"' || c == '`' || c == ',')
}

/// Tells whether a character can be part of an atom.
pub fn is_valid_ident(c: char) -> (r: bool)
    ensures
        r == valid_ident(c),
{
    !(c == '(' || c == ')' || c == '[' || c == ']' || c == '{' || c == '}' || c == '\'' || c
        == '"' || c == '`' || c == ',')
}

/// Where a run of characters ends.
#[derive(Clone, Copy, Debug)]
pub enum Stop {
    /// Before the first character that is not white space.
    NonBlank,
    /// Before the first line feed.
    Newline,
    /// Before the first character that is white space or cannot be part of
    /// an atom.
    AtomEnd,
}

/// Whether a run that ends as `stop` says ends before `c`.
pub open spec fn stops(stop: Stop, c: char) -> bool {
    match stop {
        Stop::NonBlank => !blank(c),
        Stop::Newline => c == '\n',
        Stop::AtomEnd => blank(c) || !valid_ident(c),
    }
}

/// The length of the run at the start of `s`: how many characters come
/// before the first at which `stop` ends it.
pub open spec fn run_len(s: Seq<char>, stop: Stop) -> nat
    decreases s.len(),
{
    if s.len() == 0 || stops(stop, s[0]) {
        0
    } else {
        1 + run_len(s.subrange(1, s.len() as int), stop)
    }
}

/// The state of the reader: the text, how far it was read, and the
/// characters that were put back.
pub struct Parser {
    chars: Vec<char>,
    pos: usize,
    stack: Vec<char>,
}

impl Parser {
    /// The characters that are still to be read: those put back, last put
    /// back first, then the rest of the text.
    pub closed spec fn remaining(&self) -> Seq<char> {
        self.stack@.reverse() + self.chars@.subrange(
            if self.pos <= self.chars@.len() {
                self.pos as int
            } else {
                self.chars@.len() as int
            },
            self.chars@.len() as int,
        )
    }

    /// A reader at the start of `text`.
    pub fn new(text: &str) -> (p: Parser)
        ensures
            p.remaining() == text@,
    {
        let p = Parser { chars: chars_of(text), pos: 0, stack: Vec::new() };
        assert(p.remaining() =~= text@);
        p
    }

    /// Takes the next character, if there is one.
    pub fn next_char(&mut self) -> (r: Option<char>)
        ensures
            old(self).remaining().len() == 0 ==> r is None && final(self).remaining() == old(self).remaining(),
            old(self).remaining().len() > 0 ==> r == Some(old(self).remaining()[0]) && final(self).remaining() == old(self).remaining().subrange(
                1,
                old(self).remaining().len() as int,
            ),
    {
        if self.stack.len() > 0 {
            let r = self.stack.pop();
            assert(self.remaining() =~= old(self).remaining().subrange(
                1,
                old(self).remaining().len() as int,
            ));
            r
        } else if self.pos < self.chars.len() {
            let c = self.chars[self.pos];
            self.pos += 1;
            assert(self.remaining() =~= old(self).remaining().subrange(
                1,
                old(self).remaining().len() as int,
            ));
            Some(c)
        } else {
            None
        }
    }

    /// Puts a character back, to be taken next.
    pub fn unread(&mut self, c: char)
        ensures
            final(self).remaining() == seq![c] + old(self).remaining(),
    {
        self.stack.push(c);
        assert(self.remaining() =~= seq![c] + old(self).remaining());
    }

    /// The next character, which stays to be read.
    pub fn peek_char(&mut self) -> (r: Option<char>)
        ensures
            final(self).remaining() == old(self).remaining(),
            old(self).remaining().len() == 0 ==> r is None,
            old(self).remaining().len() > 0 ==> r == Some(old(self).remaining()[0]),
    {
        match self.next_char() {
            Some(c) => {
                self.unread(c);
                assert(self.remaining() =~= old(self).remaining());
                Some(c)
            },
            None => None,
        }
    }

    /// Takes the run of characters up to where `stop` ends it, and gives
    /// them; `None` for an empty run.
    pub fn read_to(&mut self, stop: Stop) -> (r: Option<String>)
        ensures
            final(self).remaining() == old(self).remaining().subrange(
                run_len(old(self).remaining(), stop) as int,
                old(self).remaining().len() as int,
            ),
            run_len(old(self).remaining(), stop) == 0 ==> r is None,
            run_len(old(self).remaining(), stop) > 0 ==> r is Some && r->0@ == old(self).remaining().subrange(0, run_len(old(self).remaining(), stop) as int),
    {
        let mut buf = String::new();
        let ghost all = self.remaining();
        proof {
            lemma_run_len_bound(all, stop);
            assert(all.subrange(0, all.len() as int) =~= all);
        }
        loop
            invariant
                buf@.len() <= all.len(),
                buf@ == all.subrange(0, buf@.len() as int),
                self.remaining() == all.subrange(buf@.len() as int, all.len() as int),
                run_len(all, stop) == buf@.len() + run_len(self.remaining(), stop),
            ensures
                self.remaining() == all.subrange(buf@.len() as int, all.len() as int),
                buf@ == all.subrange(0, buf@.len() as int),
                run_len(all, stop) == buf@.len(),
            decreases all.len() - buf@.len(),
        {
            let ghost rest = self.remaining();
            match self.next_char() {
                Some(c) => {
                    let ended = match stop {
                        Stop::NonBlank => !is_blank(c),
                        Stop::Newline => c == '\n',
                        Stop::AtomEnd => is_blank(c) || !is_valid_ident(c),
                    };
                    if ended {
                        self.unread(c);
                        assert(self.remaining() =~= rest);
                        break ;
                    } else {
                        push_char(&mut buf, c);
                        assert(buf@ =~= all.subrange(0, buf@.len() as int));
                        assert(self.remaining() =~= all.subrange(
                            buf@.len() as int,
                            all.len() as int,
                        ));
                    }
                },
                None => {
                    break ;
                },
            }
        }
        if buf.as_str().unicode_len() == 0 {
            None
        } else {
            Some(buf)
        }
    }
}

/// The list `(quote ())`, which the atoms `nil` and `empty` stand for.
pub open spec fn quoted_nil() -> ExprView {
    ExprView::Cons(
        seq![
            ExprView::Callable(crate::expression::CallableView::Quote),
            ExprView::Cons(Seq::empty()),
        ],
    )
}

/// What an atom means that is one of the reader's own words.
pub open spec fn keyword_atom(text: Seq<char>) -> Option<ExprView> {
    if text == "#t"@ || text == "true"@ {
        Some(ExprView::Bool(true))
    } else if text == "#f"@ || text == "false"@ {
        Some(ExprView::Bool(false))
    } else if text == "nil"@ || text == "empty"@ {
        Some(quoted_nil())
    } else if text == "quote"@ {
        Some(ExprView::Callable(crate::expression::CallableView::Quote))
    } else if text == "quasiquote"@ {
        Some(ExprView::Callable(crate::expression::CallableView::Quasiquote))
    } else if text == "unquote"@ {
        Some(ExprView::Callable(crate::expression::CallableView::Unquote))
    } else {
        None
    }
}

/// What an atom means, given what the host made of it as a quaternion and
/// as a number: one of the reader's words first, then a quaternion, then a
/// number, and a symbol where it is none of these.
pub open spec fn atom_of(text: Seq<char>, quat: Option<Quat>, num: Option<u64>) -> ExprView {
    match keyword_atom(text) {
        Some(v) => v,
        None => match quat {
            Some(q) => ExprView::Quaternion(q),
            None => match num {
                Some(n) => ExprView::Num(n),
                None => ExprView::Symbol(text),
            },
        },
    }
}

fn keyword(text: &str) -> (r: Option<Expression>)
    ensures
        match r {
            Some(e) => keyword_atom(text@) == Some(e@),
            None => keyword_atom(text@) is None,
        },
{
    if same_text(text, "#t") || same_text(text, "true") {
        Some(Expression::Bool(true))
    } else if same_text(text, "#f") || same_text(text, "false") {
        Some(Expression::Bool(false))
    } else if same_text(text, "nil") || same_text(text, "empty") {
        Some(quote(nil()))
    } else if same_text(text, "quote") {
        Some(Expression::Callable(Callable::Quote))
    } else if same_text(text, "quasiquote") {
        Some(Expression::Callable(Callable::Quasiquote))
    } else if same_text(text, "unquote") {
        Some(Expression::Callable(Callable::Unquote))
    } else {
        None
    }
}

/// The meaning of an atom, given what the host made of it.
pub fn classify(text: String, quat: Option<Quat>, num: Option<u64>) -> (r: Expression)
    ensures
        r@ == atom_of(text@, quat, num),
{
    match keyword(text.as_str()) {
        Some(e) => e,
        None => match quat {
            Some(q) => Expression::Quaternion(Rc::new(q)),
            None => match num {
                Some(n) => Expression::Num(n),
                None => Expression::Symbol(text),
            },
        },
    }
}

/// The meaning of an atom: one of the reader's words; else a quaternion
/// where the text has the shape of one; else a number where the host reads
/// it as one; else a symbol.
pub fn atom<H: Host>(text: String, host: &H) -> (r: Expression)
    ensures
        atom_ok(host, text@, r@),
{
    match keyword(text.as_str()) {
        Some(e) => e,
        None => {
            let quat = match crate::quat_text::parse_quat(text.as_str(), host) {
                Ok(q) => Some(q),
                Err(_) => None,
            };
            let num = match quat {
                Some(_) => None,
                None => {
                    let s = text.as_str();
                    let answer = host.parse_num(s);
                    assert(crate::quat_text::reads_num(host, text@, answer));
                    answer
                },
            };
            classify(text, quat, num)
        },
    }
}

/// `(quote expr)`
pub fn quote(expr: Expression) -> (r: Expression)
    ensures
        r@ == ExprView::Cons(
            seq![ExprView::Callable(crate::expression::CallableView::Quote), expr@],
        ),
{
    pair(Expression::Callable(Callable::Quote), expr)
}

/// `(quasiquote expr)`
pub fn quasiquote(expr: Expression) -> (r: Expression)
    ensures
        r@ == ExprView::Cons(
            seq![ExprView::Callable(crate::expression::CallableView::Quasiquote), expr@],
        ),
{
    pair(Expression::Callable(Callable::Quasiquote), expr)
}

/// `(unquote expr)`
pub fn unquote(expr: Expression) -> (r: Expression)
    ensures
        r@ == ExprView::Cons(
            seq![ExprView::Callable(crate::expression::CallableView::Unquote), expr@],
        ),
{
    pair(Expression::Callable(Callable::Unquote), expr)
}

impl Parser {
    /// Reads the next expression. `None` where only white space and
    /// comments are left. What is malformed gives a syntax error as the
    /// expression: a closing bracket without its list code 5, an unclosed
    /// list code 6, an unclosed `{` code 7, an unclosed string code 8 and an
    /// unclosed block comment code 42.
    ///
    /// The result is a reading of the tree that the grammar gives, and the
    /// text left is what the grammar leaves. The reader never goes back: no
    /// more is left to read than before, and less where an expression was
    /// read.
    pub fn parse_expr<H: Host>(&mut self, host: &H) -> (r: Option<Expression>)
        ensures
            final(self).remaining().len() <= old(self).remaining().len(),
            r is Some ==> final(self).remaining().len() < old(self).remaining().len(),
            old(self).remaining().len() == 0 ==> r is None,
            conforms(
                host,
                read_expr(old(self).remaining()),
                match r {
                    Some(e) => Some(e@),
                    None => None,
                },
                final(self).remaining(),
            ),
        decreases old(self).remaining().len(), 0int,
    {
        let ghost start = self.remaining();
        proof {
            lemma_run_len_bound(start, Stop::NonBlank);
        }
        let _ = self.read_to(Stop::NonBlank);
        let ghost t = self.remaining();
        assert(t == skip_run(start, Stop::NonBlank));
        let c = match self.next_char() {
            Some(c) => c,
            None => {
                return None;
            },
        };
        let ghost u = self.remaining();
        assert(u == behind(t));
        if c == '\'' {
            match self.parse_expr(host) {
                Some(e) => Some(quote(e)),
                None => None,
            }
        } else if c == '`' {
            match self.parse_expr(host) {
                Some(e) => Some(quasiquote(e)),
                None => None,
            }
        } else if c == ',' {
            match self.parse_expr(host) {
                Some(e) => Some(unquote(e)),
                None => None,
            }
        } else if c == '(' {
            Some(self.parse_cons(')', host))
        } else if c == '[' {
            Some(self.parse_cons(']', host))
        } else if c == '#' {
            match self.peek_char() {
                Some('|') => {
                    let _ = self.next_char();
                    assert(self.remaining() == behind(u));
                    if !self.skip_block_comment() {
                        return Some(fail(Exception::syntax(42, "unclosed block comment")));
                    }
                },
                _ => {},
            }
            self.parse_expr(host)
        } else if c == '"' {
            Some(self.parse_str())
        } else if c == ')' || c == ']' || c == '}' {
            Some(fail(Exception::syntax(5, "unexpected list close")))
        } else if c == ';' {
            proof {
                lemma_run_len_bound(self.remaining(), Stop::Newline);
            }
            let _ = self.read_to(Stop::Newline);
            self.parse_expr(host)
        } else if c == '{' {
            Some(self.parse_infix(host))
        } else {
            self.unread(c);
            proof {
                let now = self.remaining();
                assert(now =~= t);
                assert(!stops(Stop::AtomEnd, c)) by {
                    assert(start.subrange(
                        run_len(start, Stop::NonBlank) as int,
                        start.len() as int,
                    )[0] == c);
                    lemma_run_stops(start, Stop::NonBlank);
                }
                assert(run_len(now, Stop::AtomEnd) >= 1);
            }
            Some(self.parse_atom(host))
        }
    }

    /// Skips to behind the next `|#`, and tells whether there was one.
    fn skip_block_comment(&mut self) -> (closed: bool)
        ensures
            final(self).remaining().len() <= old(self).remaining().len(),
            match comment_end(old(self).remaining()) {
                Some(v) => closed && final(self).remaining() == v,
                None => !closed && final(self).remaining().len() == 0,
            },
    {
        loop
            invariant
                self.remaining().len() <= old(self).remaining().len(),
                comment_end(old(self).remaining()) == comment_end(self.remaining()),
            decreases self.remaining().len(),
        {
            let ghost s = self.remaining();
            match self.next_char() {
                Some(c) => {
                    if c == '|' {
                        match self.next_char() {
                            Some(d) => {
                                assert(self.remaining() =~= s.subrange(2, s.len() as int));
                                if d == '#' {
                                    return true;
                                }
                            },
                            None => {},
                        }
                    }
                },
                None => {
                    return false;
                },
            }
        }
    }

    /// Reads an atom. The reader stands before a character that can begin
    /// one.
    fn parse_atom<H: Host>(&mut self, host: &H) -> (r: Expression)
        requires
            run_len(old(self).remaining(), Stop::AtomEnd) >= 1,
        ensures
            final(self).remaining().len() < old(self).remaining().len(),
            final(self).remaining() == skip_run(old(self).remaining(), Stop::AtomEnd),
            atom_ok(host, old(self).remaining().subrange(
                    0,
                    run_len(old(self).remaining(), Stop::AtomEnd) as int,
                ),
                r@,
            ),
    {
        proof {
            lemma_run_len_bound(self.remaining(), Stop::AtomEnd);
        }
        match self.read_to(Stop::AtomEnd) {
            Some(text) => atom(text, host),
            None => nil(),
        }
    }

    /// Reads a string up to its closing quote; the opening one was read.
    /// After a backslash, `r`, `n` and `t` stand for carriage return, line
    /// feed and tab, and any other character for itself.
    fn parse_str(&mut self) -> (r: Expression)
        ensures
            final(self).remaining().len() <= old(self).remaining().len(),
            final(self).remaining() == read_str(old(self).remaining(), Seq::empty()).rest,
            read_str(old(self).remaining(), Seq::empty()).tree == Some(Tree::Value(r@)),
    {
        let mut buf = String::new();
        let ghost whole = read_str(old(self).remaining(), Seq::empty());
        loop
            invariant
                self.remaining().len() <= old(self).remaining().len(),
                whole == read_str(old(self).remaining(), Seq::empty()),
                whole == read_str(self.remaining(), buf@),
            decreases self.remaining().len(),
        {
            let ghost s = self.remaining();
            match self.next_char() {
                Some(c) => {
                    if c == '\\' {
                        match self.next_char() {
                            Some(e) => {
                                assert(self.remaining() =~= s.subrange(2, s.len() as int));
                                if e == 'r' {
                                    push_char(&mut buf, '\r');
                                } else if e == 'n' {
                                    push_char(&mut buf, '\n');
                                } else if e == 't' {
                                    push_char(&mut buf, '\t');
                                } else {
                                    push_char(&mut buf, e);
                                }
                            },
                            None => {},
                        }
                    } else if c == '"' {
                        return Expression::Str(buf);
                    } else {
                        push_char(&mut buf, c);
                    }
                },
                None => {
                    return fail(Exception::syntax(8, "unclosed string literal"));
                },
            }
        }
    }

    /// Reads the items of a list up to the closing bracket `end`; the
    /// opening one was read.
    fn parse_cons<H: Host>(&mut self, end: char, host: &H) -> (r: Expression)
        ensures
            final(self).remaining().len() <= old(self).remaining().len(),
            conforms(
                host,
                read_cons(old(self).remaining(), end, Seq::empty()),
                Some(r@),
                final(self).remaining(),
            ),
        decreases old(self).remaining().len(), 1int,
    {
        let mut items: Vec<Expression> = Vec::new();
        let ghost mut trees: Seq<Tree> = Seq::empty();
        let ghost whole = read_cons(old(self).remaining(), end, Seq::empty());
        loop
            invariant
                self.remaining().len() <= old(self).remaining().len(),
                trees.len() == items@.len(),
                forall|j: int| 0 <= j < trees.len() ==> reads_as(host, #[trigger] trees[j], items@[j]@),
                whole == read_cons(old(self).remaining(), end, Seq::empty()),
                whole is Some ==> whole == read_cons(self.remaining(), end, trees),
            decreases self.remaining().len(),
        {
            let ghost s = self.remaining();
            let c = match self.next_char() {
                Some(c) => c,
                None => {
                    return fail(Exception::syntax(6, "unclosed list"));
                },
            };
            if is_blank(c) {
            } else if c == end {
                let list = ExprList::from_vec(items);
                proof {
                    crate::expression::lemma_views_of(items@);
                    assert(reads_as(host, Tree::List(trees), ExprView::Cons(list@)));
                }
                return Expression::Cons(list);
            } else {
                self.unread(c);
                assert(self.remaining() =~= s);
                match self.parse_expr(host) {
                    Some(e) => {
                        proof {
                            if read_expr(s) is Some {
                                lemma_fault_is_read_as_error(host, read_expr(s)->0.tree->0, e@);
                            }
                        }
                        if e.is_exception() {
                            return e;
                        }
                        proof {
                            if read_expr(s) is Some {
                                trees = trees.push(read_expr(s)->0.tree->0);
                            } else {
                                trees = trees.push(Tree::Value(e@));
                            }
                        }
                        items.push(e);
                    },
                    None => {
                        return fail(Exception::syntax(6, "unclosed list"));
                    },
                }
            }
        }
    }

    /// Reads an infix list up to its closing brace; the opening one was
    /// read. Every second expression is the operator, which must be the same
    /// each time: `{1 + 2 + 3}` is read as `(+ 1 2 3)`.
    fn parse_infix<H: Host>(&mut self, host: &H) -> (r: Expression)
        ensures
            final(self).remaining().len() <= old(self).remaining().len(),
            conforms(
                host,
                read_infix(old(self).remaining(), Seq::empty(), false, None),
                Some(r@),
                final(self).remaining(),
            ),
        decreases old(self).remaining().len(), 1int,
    {
        let mut buf: Vec<Expression> = Vec::new();
        let mut is_op = false;
        let mut op: Option<Expression> = None;
        let ghost mut trees: Seq<Tree> = Seq::empty();
        let ghost mut op_tree: Option<Tree> = None;
        let ghost whole = read_infix(old(self).remaining(), Seq::empty(), false, None);
        loop
            invariant_except_break
                whole is Some ==> whole == read_infix(self.remaining(), trees, is_op, op_tree),
            invariant
                self.remaining().len() <= old(self).remaining().len(),
                trees.len() == buf@.len(),
                forall|j: int| 0 <= j < trees.len() ==> reads_as(host, #[trigger] trees[j], buf@[j]@),
                op is Some <==> op_tree is Some,
                op matches Some(o) ==> reads_as(host, op_tree->0, o@),
                whole == read_infix(old(self).remaining(), Seq::empty(), false, None),
            ensures
                self.remaining().len() <= old(self).remaining().len(),
                trees.len() == buf@.len(),
                forall|j: int| 0 <= j < trees.len() ==> reads_as(host, #[trigger] trees[j], buf@[j]@),
                op is Some <==> op_tree is Some,
                op matches Some(o) ==> reads_as(host, op_tree->0, o@),
                whole is Some ==> whole == Some(
                    Reading { tree: Some(infix_tree(trees, op_tree)), rest: self.remaining() },
                ),
            decreases self.remaining().len(),
        {
            let ghost s = self.remaining();
            let c = match self.next_char() {
                Some(c) => c,
                None => {
                    break ;
                },
            };
            if is_blank(c) {
            } else if c == '}' {
                break ;
            } else {
                self.unread(c);
                assert(self.remaining() =~= s);
                match self.parse_expr(host) {
                    Some(e) => {
                        let ghost t = if read_expr(s) is Some {
                            read_expr(s)->0.tree->0
                        } else {
                            Tree::Value(e@)
                        };
                        if is_op {
                            match &op {
                                None => {
                                    op = Some(e);
                                    proof {
                                        op_tree = Some(t);
                                    }
                                },
                                Some(first) => {
                                    if !e.equals(first) {
                                        return fail(
                                            Exception::syntax(
                                                6,
                                                "infix list operators must be equal",
                                            ),
                                        );
                                    }
                                },
                            }
                        } else {
                            buf.push(e);
                            proof {
                                trees = trees.push(t);
                            }
                        }
                        is_op = !is_op;
                    },
                    None => {
                        return fail(Exception::syntax(7, "unclosed infix list"));
                    },
                }
            }
        }
        if buf.len() == 0 {
            nil()
        } else if buf.len() == 1 {
            buf[0].clone()
        } else {
            let operands = ExprList::from_vec(buf);
            proof {
                crate::expression::lemma_views_of(buf@);
            }
            match op {
                Some(o) => {
                    let list = operands.cons(o);
                    proof {
                        let all = seq![op_tree->0] + trees;
                        assert forall|j: int| 0 <= j < all.len() implies reads_as(host, #[trigger] all[j],
                            list@[j],
                        ) by {
                            if j > 0 {
                                assert(all[j] == trees[j - 1]);
                            }
                        }
                        assert(reads_as(host, Tree::List(all), ExprView::Cons(list@)));
                    }
                    Expression::Cons(list)
                },
                None => {
                    assert(reads_as(host, Tree::List(trees), ExprView::Cons(operands@)));
                    Expression::Cons(operands)
                },
            }
        }
    }

    /// Reads every expression that is left and gives them as one `begin`
    /// form; the first expression that is an error ends the reading and is
    /// the result.
    pub fn parse_all<H: Host>(&mut self, host: &H) -> (r: Expression)
        ensures
            final(self).remaining().len() <= old(self).remaining().len(),
            old(self).remaining().len() == 0 ==> r@ == ExprView::Cons(
                seq![ExprView::Symbol("begin"@)],
            ),
            conforms(
                host,
                read_all(old(self).remaining(), Seq::empty()),
                Some(r@),
                final(self).remaining(),
            ),
    {
        let mut exprs: Vec<Expression> = Vec::new();
        let ghost mut trees: Seq<Tree> = Seq::empty();
        let ghost whole = read_all(old(self).remaining(), Seq::empty());
        loop
            invariant_except_break
                whole is Some ==> whole == read_all(self.remaining(), trees),
            invariant
                self.remaining().len() <= old(self).remaining().len(),
                old(self).remaining().len() == 0 ==> exprs@.len() == 0,
                trees.len() == exprs@.len(),
                forall|j: int| 0 <= j < trees.len() ==> reads_as(host, #[trigger] trees[j], exprs@[j]@),
                whole == read_all(old(self).remaining(), Seq::empty()),
            ensures
                self.remaining().len() <= old(self).remaining().len(),
                old(self).remaining().len() == 0 ==> exprs@.len() == 0,
                trees.len() == exprs@.len(),
                forall|j: int| 0 <= j < trees.len() ==> reads_as(host, #[trigger] trees[j], exprs@[j]@),
                whole is Some ==> whole == Some(
                    Reading {
                        tree: Some(
                            Tree::List(seq![Tree::Value(ExprView::Symbol("begin"@))] + trees),
                        ),
                        rest: self.remaining(),
                    },
                ),
            decreases self.remaining().len(),
        {
            let ghost s = self.remaining();
            match self.parse_expr(host) {
                Some(e) => {
                    proof {
                        if read_expr(s) is Some {
                            lemma_fault_is_read_as_error(host, read_expr(s)->0.tree->0, e@);
                        }
                    }
                    if e.is_exception() {
                        return e;
                    }
                    proof {
                        if read_expr(s) is Some {
                            trees = trees.push(read_expr(s)->0.tree->0);
                        } else {
                            trees = trees.push(Tree::Value(e@));
                        }
                    }
                    exprs.push(e);
                },
                None => {
                    break ;
                },
            }
        }
        let list = ExprList::from_vec(exprs);
        let r = wrap_begin(list);
        proof {
            crate::expression::lemma_views_of(exprs@);
            if old(self).remaining().len() == 0 {
                assert(list@ =~= Seq::empty());
                assert(seq![ExprView::Symbol("begin"@)] + list@ =~= seq![
                    ExprView::Symbol("begin"@),
                ]);
            }
            let all = seq![Tree::Value(ExprView::Symbol("begin"@))] + trees;
            let items = seq![ExprView::Symbol("begin"@)] + list@;
            assert forall|j: int| 0 <= j < all.len() implies reads_as(host, #[trigger] all[j], items[j]) by {
                if j > 0 {
                    assert(all[j] == trees[j - 1]);
                }
            }
            assert(reads_as(host, Tree::List(all), r@));
        }
        r
    }
}

/// Where the run is shorter than the text, the character behind it ends
/// it.
pub proof fn lemma_run_stops(s: Seq<char>, stop: Stop)
    ensures
        run_len(s, stop) < s.len() ==> stops(stop, s[run_len(s, stop) as int]),
    decreases s.len(),
{
    if s.len() > 0 && !stops(stop, s[0]) {
        let rest = s.subrange(1, s.len() as int);
        lemma_run_stops(rest, stop);
        lemma_run_len_bound(rest, stop);
        if run_len(s, stop) < s.len() {
            assert(rest[run_len(rest, stop) as int] == s[run_len(s, stop) as int]);
        }
    }
}

/// A run is no longer than the text.
pub proof fn lemma_run_len_bound(s: Seq<char>, stop: Stop)
    ensures
        run_len(s, stop) <= s.len(),
    decreases s.len(),
{
    if s.len() > 0 && !stops(stop, s[0]) {
        lemma_run_len_bound(s.subrange(1, s.len() as int), stop);
    }
}

} // verus!
