//! The initial context: the names under which the special forms, the
//! built-in functions and the host's native operations are bound.

use crate::context::{Context, ContextView};
use crate::display::{number_free, shows, text_of, written};
use crate::eval::{arity_error, fail, signature_error};
use crate::exception::Exception;
use crate::expression::{
    kind_name, lemma_views_of, views_of, Builtin, Callable, CallableView, ExprView, Expression,
    Intrinsic, Macro, MacroView, SpecialForm,
};
use crate::host::Host;
use crate::parser::{quote, Parser};
use crate::util::nil;
use vstd::prelude::*;
use vstd::string::StringExecFns;

verus! {

/// The bits of the double nearest to pi.
pub const PI_BITS: u64 = 0x4009_21FB_5444_2D18;

/// Binds `name` to the native operation that the host knows under `op`.
pub fn define_intrinsic(ctx: &mut Context, name: &str, op: usize)
    ensures
        final(ctx)@ == old(ctx)@.bind(
            name@,
            ExprView::Callable(CallableView::Intrinsic(Intrinsic::Native(op))),
        ),
{
    ctx.insert(name, Expression::Callable(Callable::Intrinsic(Intrinsic::Native(op))));
}

/// Binds `name` to a built-in function.
pub fn define_builtin(ctx: &mut Context, name: &str, f: Intrinsic)
    ensures
        final(ctx)@ == old(ctx)@.bind(name@, ExprView::Callable(CallableView::Intrinsic(f))),
{
    ctx.insert(name, Expression::Callable(Callable::Intrinsic(f)));
}

/// Binds `name` to a special form.
pub fn define_macro(ctx: &mut Context, name: &str, form: SpecialForm)
    ensures
        final(ctx)@ == old(ctx)@.bind(
            name@,
            ExprView::Callable(CallableView::Macro(MacroView::Form(form))),
        ),
{
    ctx.insert(name, Expression::Callable(Callable::Macro(Macro::Form(form))));
}

/// The context with every special form bound under its name.
pub open spec fn with_macros(c: ContextView) -> ContextView {
    let m = |f: SpecialForm| ExprView::Callable(CallableView::Macro(MacroView::Form(f)));
    c.bind("define"@, m(SpecialForm::Define)).bind(
        "define-macro-rule"@,
        m(SpecialForm::DefineSyntaxRule),
    ).bind("lambda"@, m(SpecialForm::Lambda)).bind("λ"@, m(SpecialForm::Lambda)).bind(
        "env"@,
        m(SpecialForm::Env),
    ).bind("if"@, m(SpecialForm::If)).bind("cond"@, m(SpecialForm::Cond)).bind(
        "let"@,
        m(SpecialForm::Let),
    ).bind("try"@, m(SpecialForm::Try)).bind("define-struct"@, m(SpecialForm::DefineStruct)).bind(
        "begin"@,
        m(SpecialForm::Begin),
    )
}

/// Binds the special forms: `define`, `define-macro-rule`, `lambda` and
/// `λ`, `env`, `if`, `cond`, `let`, `try`, `define-struct` and `begin`.
pub fn load_macros(ctx: &mut Context)
    ensures
        final(ctx)@ == with_macros(old(ctx)@),
{
    define_macro(ctx, "define", SpecialForm::Define);
    define_macro(ctx, "define-macro-rule", SpecialForm::DefineSyntaxRule);
    define_macro(ctx, "lambda", SpecialForm::Lambda);
    define_macro(ctx, "λ", SpecialForm::Lambda);
    define_macro(ctx, "env", SpecialForm::Env);
    define_macro(ctx, "if", SpecialForm::If);
    define_macro(ctx, "cond", SpecialForm::Cond);
    define_macro(ctx, "let", SpecialForm::Let);
    define_macro(ctx, "try", SpecialForm::Try);
    define_macro(ctx, "define-struct", SpecialForm::DefineStruct);
    define_macro(ctx, "begin", SpecialForm::Begin);
}

/// The context with every built-in function bound under its names.
pub open spec fn with_builtins(c: ContextView) -> ContextView {
    let f = |i: Intrinsic| ExprView::Callable(CallableView::Intrinsic(i));
    let p = |b: Builtin| ExprView::Callable(CallableView::Intrinsic(Intrinsic::Pure(b)));
    c.bind("eq?"@, p(Builtin::Eq)).bind("="@, p(Builtin::Eq)).bind("and"@, p(Builtin::And)).bind(
        "&&"@,
        p(Builtin::And),
    ).bind("or"@, p(Builtin::Or)).bind("||"@, p(Builtin::Or)).bind("not"@, p(Builtin::Not)).bind(
        "set-internal!"@,
        f(Intrinsic::Assign),
    ).bind("cons"@, p(Builtin::Cons)).bind(":"@, p(Builtin::Cons)).bind(
        "head"@,
        p(Builtin::Head),
    ).bind("tail"@, p(Builtin::Tail)).bind("++"@, p(Builtin::Append)).bind(
        "append"@,
        p(Builtin::Append),
    ).bind("empty?"@, p(Builtin::Empty)).bind("eval"@, f(Intrinsic::Eval)).bind(
        "parse"@,
        f(Intrinsic::Parse),
    ).bind("type-of"@, p(Builtin::TypeOf)).bind("string-concat"@, f(Intrinsic::Concat)).bind(
        "error-code"@,
        f(Intrinsic::Field(0)),
    ).bind("error-description"@, f(Intrinsic::Field(1))).bind(
        "error-stack"@,
        f(Intrinsic::Field(2)),
    ).bind("format"@, f(Intrinsic::Format)).bind("import"@, f(Intrinsic::Import)).bind(
        "repeat"@,
        f(Intrinsic::Repeat),
    ).bind("<"@, f(Intrinsic::Compare(crate::numeric::Comparison::Lt))).bind(
        "<="@,
        f(Intrinsic::Compare(crate::numeric::Comparison::Lte)),
    ).bind(">"@, f(Intrinsic::Compare(crate::numeric::Comparison::Gt))).bind(
        ">="@,
        f(Intrinsic::Compare(crate::numeric::Comparison::Gte)),
    ).bind("quat"@, f(Intrinsic::Quaternion))
}

/// Binds the built-in functions that need no host arithmetic: `eq?` and
/// `=`, `and` and `&&`, `or` and `||`, `not`, `set-internal!`, `cons` and
/// `:`, `head`, `tail`, `++` and `append`, `empty?`, `eval`, `parse`,
/// `type-of` and `string-concat`; and `error-code`, `error-description` and
/// `error-stack`, which read the struct that `try` hands to a handler; and
/// `format`, `import`, `repeat`, the comparisons `<`, `<=`, `>` and `>=`,
/// and `quat`.
pub fn load_functions(ctx: &mut Context)
    ensures
        final(ctx)@ == with_builtins(old(ctx)@),
{
    define_builtin(ctx, "eq?", Intrinsic::Pure(Builtin::Eq));
    define_builtin(ctx, "=", Intrinsic::Pure(Builtin::Eq));
    define_builtin(ctx, "and", Intrinsic::Pure(Builtin::And));
    define_builtin(ctx, "&&", Intrinsic::Pure(Builtin::And));
    define_builtin(ctx, "or", Intrinsic::Pure(Builtin::Or));
    define_builtin(ctx, "||", Intrinsic::Pure(Builtin::Or));
    define_builtin(ctx, "not", Intrinsic::Pure(Builtin::Not));
    define_builtin(ctx, "set-internal!", Intrinsic::Assign);
    define_builtin(ctx, "cons", Intrinsic::Pure(Builtin::Cons));
    define_builtin(ctx, ":", Intrinsic::Pure(Builtin::Cons));
    define_builtin(ctx, "head", Intrinsic::Pure(Builtin::Head));
    define_builtin(ctx, "tail", Intrinsic::Pure(Builtin::Tail));
    define_builtin(ctx, "++", Intrinsic::Pure(Builtin::Append));
    define_builtin(ctx, "append", Intrinsic::Pure(Builtin::Append));
    define_builtin(ctx, "empty?", Intrinsic::Pure(Builtin::Empty));
    define_builtin(ctx, "eval", Intrinsic::Eval);
    define_builtin(ctx, "parse", Intrinsic::Parse);
    define_builtin(ctx, "type-of", Intrinsic::Pure(Builtin::TypeOf));
    define_builtin(ctx, "string-concat", Intrinsic::Concat);
    define_builtin(ctx, "error-code", Intrinsic::Field(0));
    define_builtin(ctx, "error-description", Intrinsic::Field(1));
    define_builtin(ctx, "error-stack", Intrinsic::Field(2));
    define_builtin(ctx, "format", Intrinsic::Format);
    define_builtin(ctx, "import", Intrinsic::Import);
    define_builtin(ctx, "repeat", Intrinsic::Repeat);
    define_builtin(ctx, "<", Intrinsic::Compare(crate::numeric::Comparison::Lt));
    define_builtin(ctx, "<=", Intrinsic::Compare(crate::numeric::Comparison::Lte));
    define_builtin(ctx, ">", Intrinsic::Compare(crate::numeric::Comparison::Gt));
    define_builtin(ctx, ">=", Intrinsic::Compare(crate::numeric::Comparison::Gte));
    define_builtin(ctx, "quat", Intrinsic::Quaternion);
}

/// The context that [`init_context`] gives for `version`.
pub open spec fn initial(version: Seq<char>) -> ContextView {
    with_macros(
        with_builtins(
            ContextView {
                scopes: seq![crate::context::ScopeView::empty()],
                struct_count: 0,
                files: Set::empty(),
                depth_limit: crate::context::DEFAULT_DEPTH_LIMIT,
            },
        ),
    ).bind("pi"@, ExprView::Num(PI_BITS)).bind("version"@, ExprView::Str(version))
}

/// A context with the special forms and the built-in functions bound, `pi`
/// bound to the number pi and `version` to the given string. The native
/// operations of a host are bound on top of it with [`define_intrinsic`].
pub fn init_context(version: &str) -> (ctx: Context)
    ensures
        ctx@ == initial(version@),
{
    let mut ctx = Context::new();
    load_functions(&mut ctx);
    load_macros(&mut ctx);
    ctx.insert("pi", Expression::Num(PI_BITS));
    ctx.insert("version", Expression::Str(String::from_str(version)));
    ctx
}

/// `eval :: a -> b`
///
/// Evaluates its one argument, which is a value already, once more.
pub fn eval<H: Host>(args: &Vec<Expression>, ctx: &mut Context, host: &mut H) -> (r: Expression)
    ensures
        crate::eval::frame(old(ctx)@, final(ctx)@),
        crate::semantics::agrees(
            crate::semantics::intrinsic_spec(
                Intrinsic::Eval,
                views_of(args@),
                old(ctx)@,
                old(ctx)@.depth_limit,
            ),
            r@,
            final(ctx)@,
        ),
{
    proof {
        lemma_views_of(args@);
    }
    if args.len() == 1 {
        args[0].eval(ctx, host)
    } else {
        fail(Exception::arity(1, args.len()))
    }
}

/// What `parse` gives where it reads no expression: the errors of
/// arguments that are not one string, and `(quote ())` for a string without
/// an expression. `None` where an expression is read.
pub open spec fn parse_result(args: Seq<ExprView>) -> Option<ExprView> {
    if args.len() != 1 {
        Some(arity_error(1, args.len() as usize))
    } else {
        match args[0] {
            ExprView::Str(text) => match crate::grammar::read_expr(text) {
                Some(rd) => if rd.tree is None {
                    Some(crate::parser::quoted_nil())
                } else {
                    None
                },
                None => None,
            },
            other => Some(signature_error("string"@, kind_name(other))),
        }
    }
}

/// `parse :: string -> expr`
///
/// Reads the first expression of its one argument, a string; a string
/// without any gives `(quote ())`.
pub fn parse<H: Host>(args: &Vec<Expression>, host: &H) -> (r: Expression)
    ensures
        parse_result(views_of(args@)) matches Some(v) ==> r@ == v,
        views_of(args@).len() != 1 ==> r@ == arity_error(1, args@.len() as usize),
        views_of(args@).len() == 1 && !(views_of(args@)[0] is Str) ==> r@ == signature_error(
            "string"@,
            kind_name(views_of(args@)[0]),
        ),
        views_of(args@).len() == 1 && views_of(args@)[0] == ExprView::Str(Seq::empty()) ==> r@
            == crate::parser::quoted_nil(),
        views_of(args@).len() == 1 && views_of(args@)[0] is Str ==> (crate::grammar::read_expr(
            views_of(args@)[0]->Str_0,
        ) matches Some(rd) ==> match rd.tree {
            Some(t) => crate::grammar::reads_as(host, t, r@),
            None => r@ == crate::parser::quoted_nil(),
        }),
{
    proof {
        lemma_views_of(args@);
    }
    if args.len() == 1 {
        match &args[0] {
            Expression::Str(s) => {
                let mut parser = Parser::new(s.as_str());
                match parser.parse_expr(host) {
                    Some(e) => e,
                    None => quote(nil()),
                }
            },
            other => fail(Exception::signature("string", other.type_of().as_str())),
        }
    } else {
        fail(Exception::arity(1, args.len()))
    }
}

/// How often `repeat` calls for the number with these bits: the number
/// itself where it is whole and fits, 0 for a negative whole number, the
/// largest count for a whole number too large to fit; `None` for a number
/// that is not whole.
pub open spec fn count_of(bits: u64) -> Option<u32> {
    let negative = bits >> 63 == 1;
    let e = (bits >> 52) & 0x7ff;
    let f = bits & 0xf_ffff_ffff_ffff;
    if e == 0x7ff {
        if f != 0 {
            None
        } else if negative {
            Some(0)
        } else {
            Some(u32::MAX)
        }
    } else if e == 0 {
        if f == 0 {
            Some(0)
        } else {
            None
        }
    } else if e < 1023 {
        None
    } else if e >= 1075 {
        if negative {
            Some(0)
        } else {
            Some(u32::MAX)
        }
    } else {
        let shift = (1075 - e) as u64;
        let m = f | 0x10_0000_0000_0000;
        if m & (((1u64 << shift) - 1) as u64) != 0 {
            None
        } else if negative {
            Some(0)
        } else if (m >> shift) > u32::MAX as u64 {
            Some(u32::MAX)
        } else {
            Some((m >> shift) as u32)
        }
    }
}

/// The count that a number stands for, as [`count_of`] says.
pub fn count_from(bits: u64) -> (r: Option<u32>)
    ensures
        r == count_of(bits),
{
    let negative = bits >> 63 == 1;
    let e = (bits >> 52) & 0x7ff;
    let f = bits & 0xf_ffff_ffff_ffff;
    if e == 0x7ff {
        if f != 0 {
            None
        } else if negative {
            Some(0)
        } else {
            Some(u32::MAX)
        }
    } else if e == 0 {
        if f == 0 {
            Some(0)
        } else {
            None
        }
    } else if e < 1023 {
        None
    } else if e >= 1075 {
        if negative {
            Some(0)
        } else {
            Some(u32::MAX)
        }
    } else {
        let shift = 1075 - e;
        let m = f | 0x10_0000_0000_0000;
        assert(0 < shift <= 52);
        assert((1u64 << shift) >= 1) by (bit_vector)
            requires
                0 < shift <= 52,
        ;
        if m & ((1u64 << shift) - 1) != 0 {
            None
        } else if negative {
            Some(0)
        } else if (m >> shift) > u32::MAX as u64 {
            Some(u32::MAX)
        } else {
            Some((m >> shift) as u32)
        }
    }
}

/// What `repeat` gives where nothing is called.
pub open spec fn repeat_leaf(args: Seq<ExprView>) -> Option<ExprView> {
    if args.len() != 2 {
        Some(arity_error(2, args.len() as usize))
    } else {
        match (args[0], args[1]) {
            (ExprView::Num(n), ExprView::Callable(_)) => match count_of(n) {
                None => Some(crate::eval::custom_error(100, "expected integral number"@)),
                Some(k) => if k == 0 {
                    Some(crate::eval::nil_view())
                } else {
                    None
                },
            },
            (a, b) => Some(
                signature_error(
                    "(num, procedure)"@,
                    "("@ + kind_name(a) + ", "@ + kind_name(b) + ")"@,
                ),
            ),
        }
    }
}

/// `repeat :: num procedure -> nil`
///
/// Calls the procedure as often as the number says, without arguments. The
/// first error ends the calls and is the result; otherwise the result is
/// nil. A number that is not whole gives a custom error with code 100.
pub fn repeat<H: Host>(args: &Vec<Expression>, ctx: &mut Context, host: &mut H) -> (r:
    Expression)
    ensures
        crate::eval::frame(old(ctx)@, final(ctx)@),
        repeat_leaf(views_of(args@)) matches Some(v) ==> r@ == v && final(ctx)@ == old(ctx)@,
        crate::semantics::agrees(
            crate::semantics::repeat_spec(views_of(args@), old(ctx)@, old(ctx)@.depth_limit),
            r@,
            final(ctx)@,
        ),
{
    let depth = ctx.depth_limit();
    repeat_at(args, ctx, host, depth)
}

pub(crate) fn repeat_at<H: Host>(
    args: &Vec<Expression>,
    ctx: &mut Context,
    host: &mut H,
    depth: usize,
) -> (r: Expression)
    ensures
        crate::eval::frame(old(ctx)@, final(ctx)@),
        repeat_leaf(views_of(args@)) matches Some(v) ==> r@ == v && final(ctx)@ == old(ctx)@,
        crate::semantics::agrees(
            crate::semantics::repeat_spec(views_of(args@), old(ctx)@, depth),
            r@,
            final(ctx)@,
        ),
    decreases depth, 3int,
{
    proof {
        lemma_views_of(args@);
    }
    if args.len() != 2 {
        return fail(Exception::arity(2, args.len()));
    }
    match (&args[0], &args[1]) {
        (Expression::Num(n), Expression::Callable(_)) => {
            match count_from(*n) {
                None => fail(Exception::custom(100, "expected integral number")),
                Some(count) => {
                    if count == 0 {
                        return nil();
                    }
                    if depth == 0 {
                        return fail(
                            Exception::custom(
                                crate::eval::DEPTH_ERROR,
                                "evaluation nested too deep",
                            ),
                        );
                    }
                    let none = crate::list::ExprList::new();
                    assert(none@ =~= Seq::empty());
                    let mut i: u32 = 0;
                    assert(repeat_leaf(views_of(args@)) is None);
                    let ghost whole = crate::semantics::repeat_spec(views_of(args@), old(ctx)@, depth);
                    while i < count
                        invariant
                            i <= count,
                            depth > 0,
                            args@.len() == 2,
                            none@ == Seq::<ExprView>::empty(),
                            views_of(args@).len() == 2,
                            views_of(args@)[1] == args@[1]@,
                            repeat_leaf(views_of(args@)) is None,
                            crate::eval::frame(old(ctx)@, ctx@),
                            count > 0,
                            whole == crate::semantics::repeat_spec(
                                views_of(args@),
                                old(ctx)@,
                                depth,
                            ),
                            whole is Some ==> whole == crate::semantics::repeat_from(
                                args@[1]@,
                                count,
                                i as nat,
                                ctx@,
                                (depth - 1) as usize,
                            ),
                        decreases count - i,
                    {
                        let r = crate::eval::call_at(&args[1], &none, ctx, host, (depth - 1) as usize);
                        if r.is_exception() {
                            return r;
                        }
                        i += 1;
                    }
                    nil()
                },
            }
        },
        (a, b) => {
            let mut found = String::from_str("(");
            found.append(a.type_of().as_str());
            found.append(", ");
            found.append(b.type_of().as_str());
            found.append(")");
            fail(Exception::signature("(num, procedure)", found.as_str()))
        },
    }
}

/// The texts of `items`, one after the other.
pub open spec fn concat_of(items: Seq<ExprView>) -> Seq<char>
    decreases items.len(),
{
    if items.len() == 0 {
        Seq::empty()
    } else {
        concat_of(items.drop_last()) + text_of(items.last())
    }
}

/// The texts `parts`, one after the other.
pub open spec fn run_together(parts: Seq<Seq<char>>) -> Seq<char>
    decreases parts.len(),
{
    if parts.len() == 0 {
        Seq::empty()
    } else {
        run_together(parts.drop_last()) + parts.last()
    }
}

/// What `string-concat` gives where no argument is or holds a number;
/// `None` where one is written as the host prints it.
pub open spec fn concat_result(args: Seq<ExprView>) -> Option<ExprView> {
    if forall|i: int| 0 <= i < args.len() ==> number_free(#[trigger] args[i]) {
        Some(ExprView::Str(concat_of(args)))
    } else {
        None
    }
}

/// `string-concat :: a ... -> string`
///
/// Its arguments as they are written out, one after the other, in one
/// string.
pub fn string_concat<H: Host>(args: &Vec<Expression>, host: &H) -> (r: Expression)
    ensures
        r@ is Str,
        concat_result(views_of(args@)) matches Some(v) ==> r@ == v,
        exists|parts: Seq<Seq<char>>|
            #![trigger written(host, views_of(args@), parts)]
            written(host, views_of(args@), parts) && r@ == ExprView::Str(run_together(parts)),
{
    proof {
        lemma_views_of(args@);
    }
    let ghost all = views_of(args@);
    let mut buf = String::new();
    let mut i: usize = 0;
    let ghost mut parts: Seq<Seq<char>> = Seq::empty();
    assert(all.subrange(0, 0) =~= Seq::empty());
    while i < args.len()
        invariant
            i <= args.len(),
            all == views_of(args@),
            all.len() == args@.len(),
            forall|j: int| 0 <= j < args@.len() ==> #[trigger] all[j] == args@[j]@,
            (forall|j: int| 0 <= j < args@.len() ==> number_free(#[trigger] all[j])) ==> buf@
                == concat_of(all.subrange(0, i as int)),
            parts.len() == i,
            forall|j: int| 0 <= j < i ==> shows(host, #[trigger] all[j], parts[j]),
            buf@ == run_together(parts),
        decreases args.len() - i,
    {
        let ghost prefix = all.subrange(0, i as int + 1);
        proof {
            assert(prefix.drop_last() =~= all.subrange(0, i as int));
            assert(prefix.last() == all[i as int]);
        }
        let t = args[i].to_text(host);
        buf.append(t.as_str());
        proof {
            let ghost before = parts;
            parts = parts.push(t@);
            assert(parts.drop_last() =~= before);
        }
        i += 1;
    }
    assert(all.subrange(0, i as int) =~= all);
    assert(written(host, all, parts));
    Expression::Str(buf)
}

} // verus!
