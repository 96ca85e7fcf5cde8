//! Loading source text: directives, the preprocessor, and the reading of
//! all expressions into one `begin` form.

use crate::context::Context;
use crate::eval::{arity_error, custom_error, eval_at, fail, frame};
use crate::semantics::{agrees, eval_spec};
use crate::exception::Exception;
use crate::expression::{lemma_views_of, views_of, ExprView, Expression};
use crate::grammar::{read_every, read_expr, reads_as, Tree};
use crate::host::Host;
use crate::list::ExprList;
use crate::parser::{Parser};
use crate::preprocessor::{first_pass, second_pass, split_lines, trimmed};
use crate::text::{join2, same_text, string_of};
use crate::util::wrap_begin;
use vstd::prelude::*;
use vstd::string::StringExecFns;

verus! {

/// Whether a line is a directive: its first character that is not white
/// space is `#`.
pub open spec fn is_directive(line: Seq<char>) -> bool {
    crate::preprocessor::trim(line).len() > 0 && crate::preprocessor::trim(line)[0] == '#'
}

/// A line without the carriage return at its end, if it has one.
pub open spec fn without_cr(line: Seq<char>) -> Seq<char> {
    if line.len() > 0 && line.last() == '\r' {
        line.drop_last()
    } else {
        line
    }
}

/// The directive of a directive line: the line without its first character
/// and without a carriage return at its end.
pub open spec fn directive_of(line: Seq<char>) -> Seq<char> {
    let l = without_cr(line);
    if l.len() > 0 {
        l.subrange(1, l.len() as int)
    } else {
        l
    }
}

/// Whether every directive among `lines` is one that is known. There is
/// one: `enable-preprocessor`.
pub open spec fn directives_known(lines: Seq<Seq<char>>) -> bool {
    forall|i: int|
        0 <= i < lines.len() && is_directive(#[trigger] lines[i]) ==> directive_of(lines[i])
            == "enable-preprocessor"@
}

/// Whether one of `lines` is a directive.
pub open spec fn has_directive(lines: Seq<Seq<char>>) -> bool {
    exists|i: int| 0 <= i < lines.len() && is_directive(#[trigger] lines[i])
}

/// The lines that are no directives, each without a carriage return at its
/// end, joined by line feeds.
pub open spec fn body_of_lines(lines: Seq<Seq<char>>) -> Seq<char>
    decreases lines.len(),
{
    if lines.len() == 0 {
        Seq::empty()
    } else {
        let before = body_of_lines(lines.drop_last());
        if is_directive(lines.last()) {
            before
        } else if plain_count(lines.drop_last()) == 0 {
            without_cr(lines.last())
        } else {
            before + seq!['\n'] + without_cr(lines.last())
        }
    }
}

/// How many of `lines` are no directives.
pub open spec fn plain_count(lines: Seq<Seq<char>>) -> nat
    decreases lines.len(),
{
    if lines.len() == 0 {
        0
    } else if is_directive(lines.last()) {
        plain_count(lines.drop_last())
    } else {
        plain_count(lines.drop_last()) + 1
    }
}

/// What is handed to the reader for a source text: the text without its
/// directive lines, run through both passes of the preprocessor if a
/// directive asks for it. `None` for a directive that is not known.
pub open spec fn prepared(text: Seq<char>) -> Option<Seq<char>> {
    let lines = crate::preprocessor::lines_of(text);
    if !directives_known(lines) {
        None
    } else if has_directive(lines) {
        Some(
            crate::preprocessor::indented(
                crate::preprocessor::strip(body_of_lines(lines), crate::preprocessor::Mode::Plain),
            ),
        )
    } else {
        Some(body_of_lines(lines))
    }
}

/// Without a line that is no directive there is no body.
pub proof fn lemma_no_plain_no_body(lines: Seq<Seq<char>>)
    ensures
        plain_count(lines) == 0 ==> body_of_lines(lines).len() == 0,
    decreases lines.len(),
{
    if lines.len() > 0 {
        lemma_no_plain_no_body(lines.drop_last());
    }
}

fn starts_with_hash(line: &Vec<char>) -> (r: bool)
    ensures
        r == is_directive(line@),
{
    let t = trimmed(line);
    t.len() > 0 && t[0] == '#'
}

/// Takes the directive lines out of a source text and runs the
/// preprocessor if one of them asks for it, as [`prepared`] says.
pub fn prepare(text: &str) -> (r: Option<String>)
    ensures
        match prepared(text@) {
            Some(t) => r is Some && r->0@ == t,
            None => r is None,
        },
{
    let chars = crate::text::chars_of(text);
    let lines = split_lines(&chars);
    let ghost all = lines@.map_values(|l: Vec<char>| l@);
    let mut use_preprocessor = false;
    let mut body: Vec<char> = Vec::new();
    let mut plain: usize = 0;
    let mut i: usize = 0;
    assert(all.subrange(0, 0) =~= Seq::empty());
    while i < lines.len()
        invariant
            i <= lines.len(),
            all == lines@.map_values(|l: Vec<char>| l@),
            all == crate::preprocessor::lines_of(text@),
            plain <= i,
            plain == plain_count(all.subrange(0, i as int)),
            body@ == body_of_lines(all.subrange(0, i as int)),
            use_preprocessor == has_directive(all.subrange(0, i as int)),
            directives_known(all.subrange(0, i as int)),
        decreases lines.len() - i,
    {
        let ghost prefix = all.subrange(0, i as int + 1);
        let ghost done = all.subrange(0, i as int);
        proof {
            assert(prefix.drop_last() =~= done);
            assert(prefix.last() == lines@[i as int]@);
            assert(forall|j: int| 0 <= j < done.len() ==> done[j] == prefix[j]);
        }
        let line = &lines[i];
        let mut end = line.len();
        if end > 0 && line[end - 1] == '\r' {
            end -= 1;
        }
        if starts_with_hash(line) {
            let mut directive: Vec<char> = Vec::new();
            let mut k: usize = 1;
            while k < end
                invariant
                    1 <= k,
                    end <= line@.len(),
                    end >= 1 ==> k <= end,
                    directive@ == (if end >= 1 {
                        line@.subrange(1, k as int)
                    } else {
                        Seq::empty()
                    }),
                decreases end - k,
            {
                directive.push(line[k]);
                assert(directive@ =~= line@.subrange(1, k as int + 1));
                k += 1;
            }
            proof {
                let l = without_cr(line@);
                assert(l =~= line@.subrange(0, end as int));
                if end >= 1 {
                    assert(directive@ =~= l.subrange(1, l.len() as int));
                } else {
                    assert(directive@ =~= l);
                }
            }
            let name = string_of(&directive);
            if !same_text(name.as_str(), "enable-preprocessor") {
                proof {
                    assert(is_directive(all[i as int]));
                    assert(!directives_known(all));
                }
                return None;
            }
            use_preprocessor = true;
            proof {
                assert(is_directive(prefix[i as int]));
                assert(has_directive(prefix));
                assert forall|j: int| 0 <= j < prefix.len() && is_directive(
                    #[trigger] prefix[j],
                ) implies directive_of(prefix[j]) == "enable-preprocessor"@ by {
                    if j < i {
                        assert(prefix[j] == done[j]);
                    }
                }
            }
        } else {
            let ghost before = body@;
            if plain > 0 {
                body.push('\n');
            }
            let mut k: usize = 0;
            let ghost start = body@;
            while k < end
                invariant
                    k <= end <= line@.len(),
                    body@ == start + line@.subrange(0, k as int),
                decreases end - k,
            {
                body.push(line[k]);
                assert(body@ =~= start + line@.subrange(0, k as int + 1));
                k += 1;
            }
            plain += 1;
            proof {
                lemma_no_plain_no_body(done);
                assert(without_cr(line@) =~= line@.subrange(0, end as int));
                if has_directive(prefix) {
                    let j = choose|j: int| 0 <= j < prefix.len() && is_directive(#[trigger] prefix[j]);
                    assert(j < i);
                    assert(is_directive(done[j]));
                }
                if has_directive(done) {
                    let j = choose|j: int| 0 <= j < done.len() && is_directive(#[trigger] done[j]);
                    assert(is_directive(prefix[j]));
                }
                assert forall|j: int| 0 <= j < prefix.len() && is_directive(
                    #[trigger] prefix[j],
                ) implies directive_of(prefix[j]) == "enable-preprocessor"@ by {
                    if j < i {
                        assert(prefix[j] == done[j]);
                    }
                }
                assert(body@ =~= body_of_lines(prefix));
            }
        }
        i += 1;
    }
    assert(all.subrange(0, i as int) =~= all);
    let removed = string_of(&body);
    if use_preprocessor {
        Some(second_pass(first_pass(removed)))
    } else {
        Some(removed)
    }
}

/// Reads every expression of a prepared source text into one `begin`
/// form. Unlike [`Parser::parse_all`] it does not stop at an expression that
/// is an error: the error becomes an item of the form.
pub fn read_all<H: Host>(text: &str, host: &H) -> (r: Expression)
    ensures
        r@ is Cons,
        text@.len() == 0 ==> r@ == ExprView::Cons(seq![ExprView::Symbol("begin"@)]),
        read_every(text@, Seq::empty()) matches Some(rd) ==> reads_as(host, rd.tree->0, r@),
{
    let mut parser = Parser::new(text);
    let mut exprs: Vec<Expression> = Vec::new();
    let ghost mut trees: Seq<Tree> = Seq::empty();
    let ghost whole = read_every(text@, Seq::empty());
    loop
        invariant_except_break
            whole is Some ==> whole == read_every(parser.remaining(), trees),
        invariant
            parser.remaining().len() <= text@.len(),
            text@.len() == 0 ==> exprs@.len() == 0,
            trees.len() == exprs@.len(),
            forall|j: int| 0 <= j < trees.len() ==> reads_as(host, #[trigger] trees[j], exprs@[j]@),
            whole == read_every(text@, Seq::empty()),
        ensures
            text@.len() == 0 ==> exprs@.len() == 0,
            trees.len() == exprs@.len(),
            forall|j: int| 0 <= j < trees.len() ==> reads_as(host, #[trigger] trees[j], exprs@[j]@),
            whole is Some ==> whole->0.tree == Some(
                Tree::List(seq![Tree::Value(ExprView::Symbol("begin"@))] + trees),
            ),
        decreases parser.remaining().len(),
    {
        let ghost s = parser.remaining();
        match parser.parse_expr(host) {
            Some(e) => {
                proof {
                    if read_expr(s) is Some {
                        trees = trees.push(read_expr(s)->0.tree->0);
                    } else {
                        trees = trees.push(Tree::Value(e@));
                    }
                }
                exprs.push(e);
            },
            None => {
                break ;
            },
        }
    }
    let list = ExprList::from_vec(exprs);
    let r = wrap_begin(list);
    proof {
        lemma_views_of(exprs@);
        if text@.len() == 0 {
            assert(list@ =~= Seq::empty());
            assert(seq![ExprView::Symbol("begin"@)] + list@ =~= seq![ExprView::Symbol("begin"@)]);
        }
        let all = seq![Tree::Value(ExprView::Symbol("begin"@))] + trees;
        let items = seq![ExprView::Symbol("begin"@)] + list@;
        assert forall|j: int| 0 <= j < all.len() implies reads_as(host, #[trigger] all[j], items[j]) by {
            if j > 0 {
                assert(all[j] == trees[j - 1]);
            }
        }
        assert(reads_as(host, Tree::List(all), r@));
    }
    r
}

/// Whether `form` is a form that the source `text` stands for: a list, and
/// a reading of the `begin` form of all the expressions of the prepared
/// text.
pub open spec fn is_source_form<H: Host>(host: &H, text: Seq<char>, form: ExprView) -> bool {
    prepared(text) is Some && form is Cons && (read_every(prepared(text)->0, Seq::empty()) matches Some(
        rd,
    ) ==> reads_as(host, rd.tree->0, form))
}

/// The form that a source text stands for: its directives obeyed and all
/// its expressions in one `begin`. `None` for a directive that is not
/// known.
pub fn load_source<H: Host>(text: &str, host: &H) -> (r: Option<Expression>)
    ensures
        r is Some <==> prepared(text@) is Some,
        r matches Some(e) ==> is_source_form(host, text@, e@),
{
    match prepare(text) {
        Some(t) => Some(read_all(t.as_str(), host)),
        None => None,
    }
}

/// The error of a file that cannot be read or holds an unknown directive.
pub open spec fn read_error(name: Seq<char>) -> ExprView {
    custom_error(14, "could not read file "@ + name)
}

/// Evaluates what the host read from a file: `None` and a text with an
/// unknown directive give the custom error with code 14; otherwise a form
/// that the text stands for is evaluated, and where that evaluation asks
/// nothing of the host, the result and the context are those of
/// [`eval_spec`] for that form.
pub fn import_text<H: Host>(
    name: &str,
    text: Option<String>,
    ctx: &mut Context,
    host: &mut H,
    depth: usize,
) -> (r: Expression)
    ensures
        frame(old(ctx)@, final(ctx)@),
        (text is None || prepared(text->0@) is None) ==> r@ == read_error(name@) && final(ctx)@
            == old(ctx)@,
        text is Some && prepared(text->0@) is Some ==> exists|form: ExprView|
            #![trigger is_source_form(&*old(host), text->0@, form)]
            is_source_form(&*old(host), text->0@, form) && agrees(
                eval_spec(form, old(ctx)@, depth),
                r@,
                final(ctx)@,
            ),
    decreases depth, 2int,
{
    let form = match text {
        Some(t) => load_source(t.as_str(), &*host),
        None => None,
    };
    match form {
        Some(e) => {
            assert(is_source_form(&*old(host), text->0@, e@));
            eval_at(&e, ctx, host, depth)
        },
        None => fail(Exception::custom(14, join2("could not read file ", name).as_str())),
    }
}

/// What `import` gives where it reads nothing: the arity error of
/// arguments that are not one string.
pub open spec fn import_leaf(args: Seq<ExprView>) -> Option<ExprView> {
    if args.len() == 1 && args[0] is Str {
        None
    } else {
        Some(arity_error(1, args.len() as usize))
    }
}

/// `import :: string -> a`
///
/// Reads the file that its one argument names, through the host, and
/// evaluates what it holds. Another number of arguments than one, or an
/// argument that is no string, gives an arity error.
pub fn import<H: Host>(args: &Vec<Expression>, ctx: &mut Context, host: &mut H) -> (r:
    Expression)
    ensures
        frame(old(ctx)@, final(ctx)@),
        import_leaf(views_of(args@)) matches Some(v) ==> r@ == v && final(ctx)@ == old(ctx)@,
{
    let depth = ctx.depth_limit();
    import_at(args, ctx, host, depth)
}

pub(crate) fn import_at<H: Host>(
    args: &Vec<Expression>,
    ctx: &mut Context,
    host: &mut H,
    depth: usize,
) -> (r: Expression)
    ensures
        frame(old(ctx)@, final(ctx)@),
        import_leaf(views_of(args@)) matches Some(v) ==> r@ == v && final(ctx)@ == old(ctx)@,
    decreases depth, 3int,
{
    proof {
        lemma_views_of(args@);
    }
    if args.len() == 1 {
        match &args[0] {
            Expression::Str(name) => {
                let text = host.read_file(name.as_str());
                import_text(name.as_str(), text, ctx, host, depth)
            },
            _ => fail(Exception::arity(1, args.len())),
        }
    } else {
        fail(Exception::arity(1, args.len()))
    }
}

} // verus!
