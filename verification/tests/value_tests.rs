use rlisp::context::{Context, DEFAULT_DEPTH_LIMIT};
use rlisp::display::padded_code_text;
use rlisp::exception::{Exception, ExceptionData};
use rlisp::expression::{Callable, Expression, StructData, ValidIdentifier};
use rlisp::functions::{and, append, cons, empty, eq, head, not, or, tail, type_of};
use rlisp::host::Host;
use rlisp::import::{load_source, prepare};
use rlisp::interpolate::{split_str, StrSection};
use rlisp::intrinsics::{count_from, parse, string_concat};
use rlisp::list::ExprList;
use rlisp::number::double_from_u16;
use rlisp::numeric::{
    binary_operands, chain_operands, compare, num_less, operands, quaternion, scalar_operand,
    unary_operand, Chain, Comparison, Operands, Scalar,
};
use rlisp::util::{display_pretty, get_color, get_style, Style, Tint};
use rlisp::pattern::{extract_symbols, pattern_match, replace_symbols};
use rlisp::quat::{num_equals, Quat};
use rlisp::text::{chars_of, decimal_text, same_text, string_of};
use rlisp::util::{nil, wrap_begin};
use std::rc::Rc;

struct Printer;

impl Host for Printer {
    fn parse_num(&self, text: &str) -> Option<u64> {
        text.parse::<f64>().ok().map(f64::to_bits)
    }

    fn show_num(&self, bits: u64) -> String {
        format!("{}", f64::from_bits(bits))
    }

    fn show_quat(&self, _q: &Quat) -> String {
        "quat".to_string()
    }

    fn read_file(&mut self, _name: &str) -> Option<String> {
        None
    }

    fn call(&mut self, _op: usize, _args: &Vec<Expression>, _ctx: &mut Context) -> Expression {
        Expression::Bool(false)
    }
}

fn num(x: f64) -> Expression {
    Expression::Num(x.to_bits())
}

fn sym(s: &str) -> Expression {
    Expression::Symbol(s.to_string())
}

fn text(s: &str) -> Expression {
    Expression::Str(s.to_string())
}

fn list(items: Vec<Expression>) -> Expression {
    Expression::Cons(ExprList::from_vec(items))
}

fn data_of(e: &Expression) -> &ExceptionData {
    match e {
        Expression::Error(ex) => &ex.data,
        other => panic!("expected an error, found {:?}", other),
    }
}

#[test]
fn whole_numbers_as_doubles() {
    for n in [0u16, 1, 2, 3, 4, 7, 9, 10, 41, 42, 100, 255, 256, 1000, 4095, 32767, 32768, 65535] {
        assert_eq!(double_from_u16(n), (n as f64).to_bits(), "for {}", n);
    }
    for n in 0..=u16::MAX {
        assert_eq!(double_from_u16(n), (n as f64).to_bits());
    }
}

#[test]
fn doubles_compare_as_ieee_says() {
    let values = [
        0.0f64,
        -0.0,
        1.0,
        -1.0,
        4.73,
        f64::INFINITY,
        f64::NEG_INFINITY,
        f64::NAN,
        f64::MIN_POSITIVE,
        f64::MAX,
    ];
    for a in values {
        for b in values {
            assert_eq!(num_equals(a.to_bits(), b.to_bits()), a == b, "{} and {}", a, b);
        }
    }
    assert!(!num_equals(0x7ff8_0000_0000_0001, 0x7ff8_0000_0000_0001));
}

#[test]
fn quaternions_compare_by_component() {
    let one = 1.0f64.to_bits();
    let p = Quat(one, 0, 0, 0);
    assert!(p.equals(&Quat(one, (-0.0f64).to_bits(), 0, 0)));
    assert!(!p.equals(&Quat(one, one, 0, 0)));
    let nan = Quat(f64::NAN.to_bits(), 0, 0, 0);
    assert!(!nan.equals(&nan));
    let from = Quat::from_real(one);
    assert!(from.equals(&p));
    let zero = Quat::default();
    assert!(zero.equals(&Quat(0, 0, 0, 0)));
}

#[test]
fn decimal_numerals() {
    assert_eq!(decimal_text(0), "0");
    assert_eq!(decimal_text(7), "7");
    assert_eq!(decimal_text(10), "10");
    assert_eq!(decimal_text(1204), "1204");
    assert_eq!(decimal_text(usize::MAX), usize::MAX.to_string());
    assert_eq!(padded_code_text(4), "004");
    assert_eq!(padded_code_text(42), "042");
    assert_eq!(padded_code_text(100), "100");
    assert_eq!(padded_code_text(65535), "65535");
}

#[test]
fn strings_and_characters() {
    assert_eq!(chars_of("aλb"), vec!['a', 'λ', 'b']);
    assert_eq!(string_of(&vec!['x', 'λ']), "xλ");
    assert!(same_text("abc", "abc"));
    assert!(!same_text("abc", "abd"));
    assert!(!same_text("abc", "ab"));
}

#[test]
fn error_codes() {
    assert_eq!(ExceptionData::Arity(1, 2).error_code(), 4);
    assert_eq!(
        ExceptionData::Signature("a".to_string(), "b".to_string()).error_code(),
        9
    );
    assert_eq!(ExceptionData::Custom(77, "x".to_string()).error_code(), 77);
    assert_eq!(ExceptionData::Undefined("x".to_string()).error_code(), 1);
    assert_eq!(ExceptionData::Syntax(33, "x".to_string()).error_code(), 33);
    assert_eq!(Exception::arity(1, 2).error_code(), 4);
    assert_eq!(Exception::undefined("x").error_code(), 1);
}

#[test]
fn error_messages() {
    assert_eq!(
        Exception::arity(2, 10).to_string(),
        "arity mismatch: expected 2, found 10"
    );
    assert_eq!(
        Exception::signature("num", "bool").to_string(),
        "signature mismatch: expected num, found bool"
    );
    assert_eq!(Exception::custom(5, "as it is").to_string(), "as it is");
    assert_eq!(Exception::undefined("x").to_string(), "undefined symbol: `x`");
    assert_eq!(Exception::syntax(5, "bad").to_string(), "syntax error: bad");
    assert_eq!(Exception::syntax(5, "bad").to_text(), "error[005]: syntax error: bad");
}

#[test]
fn extend_puts_the_expression_in_front() {
    let e = Exception::custom(5, "x");
    assert_eq!(e.stack().len(), 0);
    let e1 = e.extend(&sym("inner"));
    let e2 = e1.extend(&sym("outer"));
    let trace = e2.stack().to_vec();
    assert_eq!(trace.len(), 2);
    assert_eq!(*trace[0], sym("outer"));
    assert_eq!(*trace[1], sym("inner"));
    assert_eq!(e2.error_code(), 5);
    assert_eq!(e1.stack().len(), 1);
}

#[test]
fn lists_share_and_keep_their_items() {
    let l = ExprList::from_vec(vec![sym("a"), sym("b"), sym("c")]);
    assert_eq!(l.len(), 3);
    assert!(!l.is_empty());
    assert!(ExprList::new().is_empty());
    assert_eq!(*l.nth(0).unwrap(), sym("a"));
    assert_eq!(*l.nth(2).unwrap(), sym("c"));
    assert!(l.nth(3).is_none());
    let rest = l.skip(1);
    assert_eq!(rest.len(), 2);
    assert_eq!(*rest.nth(0).unwrap(), sym("b"));
    assert_eq!(l.skip(5).len(), 0);
    assert_eq!(l.len(), 3);
    let copy = l.clone();
    assert_eq!(Expression::Cons(copy), Expression::Cons(l));
}

#[test]
fn values_know_their_types() {
    assert_eq!(num(1.0).type_of(), "num");
    assert_eq!(Expression::Bool(true).type_of(), "bool");
    assert_eq!(text("a").type_of(), "string");
    assert_eq!(list(vec![]).type_of(), "cons");
    assert_eq!(sym("a").type_of(), "symbol");
    assert_eq!(Expression::Callable(Callable::Quote).type_of(), "procedure");
    assert_eq!(
        Expression::Error(Rc::new(Exception::custom(1, "x"))).type_of(),
        "error"
    );
    let s = Expression::Struct(Rc::new(StructData { name: "point".to_string(), data: vec![] }));
    assert_eq!(s.type_of(), "point");
    assert_eq!(Expression::Quaternion(Rc::new(Quat(0, 0, 0, 0))).type_of(), "quaternion");
}

#[test]
fn predicates_on_values() {
    assert!(nil().is_nil());
    assert!(Expression::default().is_nil());
    assert!(!list(vec![sym("a")]).is_nil());
    assert!(!num(0.0).is_nil());
    assert!(Expression::Error(Rc::new(Exception::custom(1, "x"))).is_exception());
    assert!(!num(0.0).is_exception());
    assert!(Expression::Callable(Callable::Unquote).is_callable());
    assert!(!sym("f").is_callable());
}

#[test]
fn reserved_words_are_no_identifiers() {
    for word in ["define", "cond", "lambda", "if", "let"] {
        assert!(!word.to_string().is_valid_identifier());
        assert!(!sym(word).is_valid_identifier());
    }
    assert!("begin".to_string().is_valid_identifier());
    assert!(sym("x").is_valid_identifier());
    assert!(!text("x").is_valid_identifier());
}

#[test]
fn equality_of_values() {
    assert_eq!(num(1.0), num(1.0));
    assert_ne!(num(1.0), num(2.0));
    assert_ne!(num(f64::NAN), num(f64::NAN));
    assert_eq!(num(0.0), num(-0.0));
    assert_eq!(text("a"), text("a"));
    assert_ne!(text("a"), sym("a"));
    assert_eq!(list(vec![num(1.0), sym("a")]), list(vec![num(1.0), sym("a")]));
    assert_ne!(list(vec![num(1.0)]), list(vec![num(1.0), num(1.0)]));
    assert_ne!(
        Expression::Callable(Callable::Quote),
        Expression::Callable(Callable::Quote)
    );
    let e = Expression::Error(Rc::new(Exception::custom(1, "x")));
    assert_ne!(e.clone(), e);
}

#[test]
fn values_are_written_out() {
    let h = Printer;
    assert_eq!(Expression::Bool(true).to_text(&h), "true");
    assert_eq!(num(2.5).to_text(&h), "2.5");
    assert_eq!(text("a b").to_text(&h), "\"a b\"");
    assert_eq!(sym("name").to_text(&h), "name");
    assert_eq!(list(vec![]).to_text(&h), "()");
    assert_eq!(list(vec![sym("f"), num(1.0), text("x")]).to_text(&h), "(f 1 \"x\")");
    let q = |c: Callable| list(vec![Expression::Callable(c), sym("a")]);
    assert_eq!(q(Callable::Quote).to_text(&h), "'a");
    assert_eq!(q(Callable::Quasiquote).to_text(&h), "`a");
    assert_eq!(q(Callable::Unquote).to_text(&h), ",a");
    assert_eq!(Expression::Callable(Callable::Quote).to_text(&h), "quote");
    assert_eq!(Expression::Callable(Callable::Quasiquote).to_text(&h), "quasiquote");
    assert_eq!(Expression::Callable(Callable::Unquote).to_text(&h), "unquote");
    let e = Expression::Error(Rc::new(Exception::undefined("x")));
    assert_eq!(e.to_text(&h), "error[001]: undefined symbol: `x`");
    let s = Expression::Struct(Rc::new(StructData {
        name: "point".to_string(),
        data: vec![num(1.0), sym("b")],
    }));
    assert_eq!(s.to_text(&h), "(make-point 1 b)");
    let unit = Expression::Struct(Rc::new(StructData { name: "unit".to_string(), data: vec![] }));
    assert_eq!(unit.to_text(&h), "(make-unit)");
    assert_eq!(Expression::Quaternion(Rc::new(Quat(0, 0, 0, 0))).to_text(&h), "quat");
}

#[test]
fn wrap_begin_puts_begin_in_front() {
    let body = ExprList::from_vec(vec![num(1.0), num(2.0)]);
    assert_eq!(wrap_begin(body), list(vec![sym("begin"), num(1.0), num(2.0)]));
}

#[test]
fn context_scopes() {
    let mut ctx = Context::new();
    assert_eq!(ctx.depth(), 1);
    assert_eq!(ctx.depth_limit(), DEFAULT_DEPTH_LIMIT);
    ctx.insert("x", num(1.0));
    ctx.ascend_scope();
    assert_eq!(ctx.depth(), 2);
    assert_eq!(*ctx.get("x").unwrap(), num(1.0));
    ctx.insert("x", num(2.0));
    ctx.insert("y", num(3.0));
    assert_eq!(*ctx.get("x").unwrap(), num(2.0));
    ctx.remove("x");
    assert_eq!(*ctx.get("x").unwrap(), num(1.0));
    ctx.descend_scope();
    assert!(ctx.get("y").is_none());
    assert_eq!(*ctx.get("x").unwrap(), num(1.0));
    ctx.descend_scope();
    ctx.descend_scope();
    assert_eq!(ctx.depth(), 0);
    ctx.insert("z", num(1.0));
    assert!(ctx.get("z").is_none());
}

#[test]
fn context_assign_changes_the_scope_that_binds() {
    let mut ctx = Context::new();
    ctx.insert("x", num(1.0));
    ctx.ascend_scope();
    assert!(ctx.assign("x", num(5.0)));
    assert!(!ctx.assign("y", num(5.0)));
    ctx.descend_scope();
    assert_eq!(*ctx.get("x").unwrap(), num(5.0));
    assert!(ctx.get("y").is_none());
}

#[test]
fn context_struct_ids() {
    let mut ctx = Context::new();
    assert_eq!(ctx.define_struct("a"), Some(1));
    assert_eq!(ctx.define_struct("b"), Some(2));
    ctx.ascend_scope();
    assert_eq!(ctx.define_struct("a"), Some(3));
    assert_eq!(ctx.get_struct_id("a"), Some(3));
    assert_eq!(ctx.get_struct_id("b"), Some(2));
    ctx.descend_scope();
    assert_eq!(ctx.get_struct_id("a"), Some(1));
    assert_eq!(ctx.get_struct_id("c"), None);
    ctx.descend_scope();
    assert_eq!(ctx.define_struct("d"), None);
}

#[test]
fn context_files() {
    let mut ctx = Context::new();
    assert!(!ctx.has_read_file("a.rl"));
    ctx.add_file("a.rl");
    assert!(ctx.has_read_file("a.rl"));
    ctx.remove_file("a.rl");
    assert!(!ctx.has_read_file("a.rl"));
}

#[test]
fn extract_symbols_takes_what_is_bound() {
    let mut ctx = Context::new();
    ctx.insert("a", num(1.0));
    ctx.insert("c", num(3.0));
    let body = list(vec![sym("c"), list(vec![sym("a"), sym("b"), sym("c")]), num(1.0)]);
    let capture = body.extract_symbols(&ctx);
    assert_eq!(capture.len(), 2);
    assert_eq!(capture[0].0, "c");
    assert_eq!(capture[0].1, num(3.0));
    assert_eq!(capture[1].0, "a");
}

#[test]
fn pattern_binds_symbols_and_demands_keywords() {
    let h = Printer;
    let syntax = vec!["for".to_string(), "in".to_string()];
    let pattern = list(vec![sym("for"), sym("x"), sym("in"), sym("xs"), list(vec![sym("body")])]);
    let input = list(vec![sym("for"), sym("i"), sym("in"), list(vec![num(1.0)]), list(vec![text("b")])]);
    let m = pattern_match(&syntax, &pattern, &input, &h).unwrap();
    assert_eq!(m.len(), 3);
    assert_eq!(*m.get("x").unwrap(), sym("i"));
    assert_eq!(*m.get("xs").unwrap(), list(vec![num(1.0)]));
    assert_eq!(*m.get("body").unwrap(), text("b"));
    assert!(m.get("for").is_none());

    let wrong = list(vec![sym("for"), sym("i"), sym("of"), sym("l"), list(vec![sym("b")])]);
    let e = pattern_match(&syntax, &pattern, &wrong, &h).err().unwrap();
    assert_eq!(e.error_code(), 42);
    assert_eq!(e.to_string(), "pattern match failure: expected `in`, found `of`");

    let short = list(vec![sym("for")]);
    let e = pattern_match(&syntax, &pattern, &short, &h).err().unwrap();
    assert_eq!(
        e.to_string(),
        "pattern match failure: expected `(for x in xs (body))`, found `(for)`"
    );

    let literal = list(vec![sym("f"), text("lit")]);
    assert!(pattern_match(&syntax, &literal, &list(vec![num(2.0), text("lit")]), &h).is_ok());
    let e = pattern_match(&syntax, &literal, &list(vec![num(2.0), text("other")]), &h).err().unwrap();
    assert_eq!(
        e.to_string(),
        "pattern match failure: expected `\"lit\"`, found `\"other\"`"
    );
}

#[test]
fn replace_symbols_is_one_pass() {
    let h = Printer;
    let syntax: Vec<String> = vec![];
    let m = pattern_match(
        &syntax,
        &list(vec![sym("a"), sym("b")]),
        &list(vec![sym("b"), num(2.0)]),
        &h,
    )
    .unwrap();
    let body = list(vec![sym("a"), list(vec![sym("b"), sym("c")]), text("a")]);
    assert_eq!(
        replace_symbols(&body, &m),
        list(vec![sym("b"), list(vec![num(2.0), sym("c")]), text("a")])
    );
}

#[test]
fn extract_symbols_of_a_pattern() {
    let syntax = vec!["m".to_string()];
    let pattern = list(vec![sym("m"), sym("a"), list(vec![sym("b"), sym("a"), num(1.0)])]);
    assert_eq!(extract_symbols(&syntax, &pattern), vec!["a", "b", "a"]);
}

#[test]
fn functions_on_truth_values() {
    let t = Expression::Bool(true);
    let f = Expression::Bool(false);
    assert_eq!(and(&vec![t.clone(), t.clone()]), t);
    assert_eq!(and(&vec![t.clone(), f.clone()]), f);
    assert_eq!(and(&vec![]), t);
    assert_eq!(or(&vec![f.clone(), t.clone()]), t);
    assert_eq!(or(&vec![f.clone(), f.clone()]), f);
    assert_eq!(or(&vec![]), f);
    assert_eq!(not(&vec![t.clone()]), f);
    assert!(matches!(data_of(&and(&vec![t.clone(), num(1.0)])), ExceptionData::Signature(_, _)));
    assert!(matches!(data_of(&or(&vec![text("a")])), ExceptionData::Signature(_, _)));
    assert!(matches!(data_of(&not(&vec![num(1.0)])), ExceptionData::Signature(_, _)));
    assert!(matches!(data_of(&not(&vec![])), ExceptionData::Arity(1, 0)));
}

#[test]
fn functions_on_lists() {
    let l = list(vec![num(1.0), num(2.0)]);
    assert_eq!(cons(&vec![num(0.0), l.clone()]), list(vec![num(0.0), num(1.0), num(2.0)]));
    assert_eq!(head(&vec![l.clone()]), num(1.0));
    assert_eq!(tail(&vec![l.clone()]), list(vec![num(2.0)]));
    assert_eq!(
        append(&vec![l.clone(), list(vec![]), list(vec![sym("a")])]),
        list(vec![num(1.0), num(2.0), sym("a")])
    );
    assert_eq!(append(&vec![]), list(vec![]));
    assert_eq!(empty(&vec![list(vec![])]), Expression::Bool(true));
    assert_eq!(empty(&vec![l.clone()]), Expression::Bool(false));
    match data_of(&cons(&vec![num(0.0), num(1.0)])) {
        ExceptionData::Signature(e, f) => {
            assert_eq!(e, "any, cons");
            assert_eq!(f, "num, num");
        }
        other => panic!("expected a signature error, found {:?}", other),
    }
    assert!(matches!(data_of(&cons(&vec![num(0.0)])), ExceptionData::Arity(2, 1)));
    assert!(matches!(data_of(&head(&vec![list(vec![])])), ExceptionData::Custom(10, _)));
    assert!(matches!(data_of(&tail(&vec![list(vec![])])), ExceptionData::Custom(11, _)));
    assert!(matches!(data_of(&head(&vec![num(1.0)])), ExceptionData::Signature(_, _)));
    assert!(matches!(data_of(&tail(&vec![])), ExceptionData::Signature(_, _)));
    assert!(matches!(data_of(&append(&vec![l.clone(), num(1.0)])), ExceptionData::Signature(_, _)));
    assert!(matches!(data_of(&empty(&vec![num(1.0)])), ExceptionData::Signature(_, _)));
    assert!(matches!(data_of(&empty(&vec![])), ExceptionData::Arity(1, 0)));
}

#[test]
fn functions_on_any_value() {
    assert_eq!(eq(&vec![num(1.0), num(1.0)]), Expression::Bool(true));
    assert_eq!(eq(&vec![num(1.0), text("1")]), Expression::Bool(false));
    assert!(matches!(data_of(&eq(&vec![num(1.0)])), ExceptionData::Arity(2, 1)));
    assert_eq!(type_of(&vec![num(1.0)]), sym("num"));
    assert!(matches!(data_of(&type_of(&vec![])), ExceptionData::Arity(1, 0)));
    let h = Printer;
    assert_eq!(
        string_concat(&vec![sym("a"), num(1.5), text("b")], &h),
        text("a1.5\"b\"")
    );
    assert_eq!(parse(&vec![text("(a 1)")], &h), list(vec![sym("a"), num(1.0)]));
    match parse(&vec![text("")], &h) {
        Expression::Cons(l) => {
            assert_eq!(l.len(), 2);
            assert!(matches!(&*l.nth(0).unwrap(), Expression::Callable(Callable::Quote)));
            assert!(l.nth(1).unwrap().is_nil());
        }
        other => panic!("expected a list, found {:?}", other),
    }
    assert!(matches!(data_of(&parse(&vec![num(1.0)], &h)), ExceptionData::Signature(_, _)));
    assert!(matches!(data_of(&parse(&vec![], &h)), ExceptionData::Arity(1, 0)));
}

#[test]
fn counts_from_numbers() {
    for x in [
        0.0f64,
        -0.0,
        1.0,
        2.0,
        3.0,
        7.0,
        255.0,
        65536.0,
        4294967295.0,
        4294967296.0,
        1e30,
        -1.0,
        -5.0,
        f64::INFINITY,
        f64::NEG_INFINITY,
    ] {
        assert_eq!(count_from(x.to_bits()), Some(x as u32), "for {}", x);
    }
    for x in [0.5f64, 2.5, -0.25, 1e-300, f64::NAN, f64::MIN_POSITIVE, 4294967295.5] {
        assert_eq!(x.trunc() == x, false);
        assert_eq!(count_from(x.to_bits()), None, "for {}", x);
    }
}

#[test]
fn strings_are_split_into_sections() {
    let parts = |s: &str| -> Vec<(bool, String)> {
        split_str(s)
            .unwrap()
            .into_iter()
            .map(|x| match x {
                StrSection::Literal(t) => (false, t),
                StrSection::Expr(t) => (true, t),
            })
            .collect()
    };
    assert_eq!(
        parts("a #{(f {x})} b"),
        vec![
            (false, "a ".to_string()),
            (true, "(f {x})".to_string()),
            (false, " b".to_string())
        ]
    );
    assert_eq!(parts("#{x}"), vec![(false, String::new()), (true, "x".to_string())]);
    assert_eq!(parts("a {b} c"), vec![(false, "a {b} c".to_string())]);
    assert_eq!(parts(""), vec![]);
    let e = split_str("a #{b").err().unwrap();
    assert_eq!(e.error_code(), 32);
}

#[test]
fn sources_are_prepared() {
    assert_eq!(prepare("a\r\nb\n"), Some("a\nb\n".to_string()));
    assert_eq!(prepare("  #enable-preprocessor\na"), None);
    assert_eq!(
        prepare("#enable-preprocessor\r\nf x\n  g y\n"),
        Some(" (f x (g y))".to_string())
    );
    assert_eq!(prepare("#other\na"), None);
    assert_eq!(prepare(""), Some(String::new()));
    let h = Printer;
    assert_eq!(load_source("a b", &h), Some(list(vec![sym("begin"), sym("a"), sym("b")])));
    assert_eq!(load_source("#x\na", &h), None);
}

#[test]
fn doubles_are_ordered_as_ieee_says() {
    let values = [
        0.0f64,
        -0.0,
        1.0,
        -1.0,
        4.73,
        -4.73,
        1e300,
        -1e300,
        f64::INFINITY,
        f64::NEG_INFINITY,
        f64::NAN,
        f64::MIN_POSITIVE,
        -f64::MIN_POSITIVE,
    ];
    for a in values {
        for b in values {
            assert_eq!(num_less(a.to_bits(), b.to_bits()), a < b, "{} < {}", a, b);
        }
    }
}

#[test]
fn comparisons_of_numbers() {
    let h = Printer;
    let pairs = [(1.0f64, 2.0f64), (2.0, 1.0), (1.0, 1.0), (0.0, -0.0), (f64::NAN, 1.0)];
    for (a, b) in pairs {
        let args = vec![num(a), num(b)];
        assert_eq!(compare(Comparison::Lt, &args, &h), Expression::Bool(a < b));
        assert_eq!(compare(Comparison::Lte, &args, &h), Expression::Bool(a <= b));
        assert_eq!(compare(Comparison::Gt, &args, &h), Expression::Bool(a > b));
        assert_eq!(compare(Comparison::Gte, &args, &h), Expression::Bool(a >= b));
    }
    match data_of(&compare(Comparison::Lt, &vec![sym("a"), text("b")], &h)) {
        ExceptionData::Signature(e, f) => {
            assert_eq!(e, "(num, num)");
            assert_eq!(f, "(a, \"b\")");
        }
        other => panic!("expected a signature error, found {:?}", other),
    }
    assert!(matches!(
        data_of(&compare(Comparison::Gt, &vec![num(1.0)], &h)),
        ExceptionData::Arity(2, 1)
    ));
}

#[test]
fn operands_are_sorted_into_their_tower() {
    match operands(&vec![num(1.0), num(2.0)]) {
        Operands::Reals(v) => assert_eq!(v, vec![1.0f64.to_bits(), 2.0f64.to_bits()]),
        other => panic!("expected reals, found {:?}", other),
    }
    match operands(&vec![]) {
        Operands::Reals(v) => assert!(v.is_empty()),
        other => panic!("expected reals, found {:?}", other),
    }
    let q = Quat(0, 1.0f64.to_bits(), 0, 0);
    match operands(&vec![num(3.0), Expression::Quaternion(Rc::new(q))]) {
        Operands::Quats(v) => {
            assert_eq!(v.len(), 2);
            assert!(v[0].equals(&Quat(3.0f64.to_bits(), 0, 0, 0)));
            assert!(v[1].equals(&q));
        }
        other => panic!("expected quaternions, found {:?}", other),
    }
    match operands(&vec![num(3.0), text("x"), sym("y")]) {
        Operands::Other(k) => assert_eq!(k, 1),
        other => panic!("expected the position, found {:?}", other),
    }
}

#[test]
fn conversions_into_values() {
    assert_eq!(Expression::from(true), Expression::Bool(true));
    assert_eq!(Expression::from("s".to_string()), text("s"));
    assert_eq!(Expression::from_str("s"), text("s"));
    assert_eq!(Expression::from_u16(9), num(9.0));
    assert_eq!(num(1.0).into_result().ok(), Some(num(1.0)));
    let e = Expression::Error(Rc::new(Exception::custom(7, "x")));
    assert_eq!(e.into_result().err().map(|e| e.error_code()), Some(7));
}

#[test]
fn operands_of_functions_of_numbers() {
    assert_eq!(unary_operand(&vec![num(2.0)]).ok(), Some(2.0f64.to_bits()));
    assert!(matches!(
        data_of(&unary_operand(&vec![text("a")]).err().unwrap()),
        ExceptionData::Signature(_, _)
    ));
    assert!(matches!(
        data_of(&unary_operand(&vec![]).err().unwrap()),
        ExceptionData::Arity(1, 0)
    ));
    assert_eq!(
        binary_operands(&vec![num(2.0), num(3.0)]).ok(),
        Some((2.0f64.to_bits(), 3.0f64.to_bits()))
    );
    match data_of(&binary_operands(&vec![num(2.0), sym("x")]).err().unwrap()) {
        ExceptionData::Signature(e, f) => {
            assert_eq!(e, "num, num");
            assert_eq!(f, "num, symbol");
        }
        other => panic!("expected a signature error, found {:?}", other),
    }
    assert!(matches!(
        data_of(&binary_operands(&vec![num(2.0)]).err().unwrap()),
        ExceptionData::Arity(2, 1)
    ));
}

#[test]
fn operands_of_a_subtraction() {
    match chain_operands(&vec![]) {
        Chain::Stop(e) => match data_of(&e) {
            ExceptionData::Custom(4, text) => {
                assert_eq!(text, "arity mismatch: expected at least 1 argument, found 0")
            }
            other => panic!("expected custom 4, found {:?}", other),
        },
        other => panic!("expected an error, found {:?}", other),
    }
    match chain_operands(&vec![num(5.0)]) {
        Chain::Reals(v) => assert_eq!(v, vec![5.0f64.to_bits()]),
        other => panic!("expected reals, found {:?}", other),
    }
    match chain_operands(&vec![num(5.0), num(2.0), num(1.0)]) {
        Chain::Reals(v) => {
            assert_eq!(v, vec![5.0f64.to_bits(), 2.0f64.to_bits(), 1.0f64.to_bits()])
        }
        other => panic!("expected reals, found {:?}", other),
    }
    let q = Quat(0, 1.0f64.to_bits(), 0, 0);
    match chain_operands(&vec![num(1.0), Expression::Quaternion(Rc::new(q))]) {
        Chain::Quats(v) => {
            assert_eq!(v.len(), 2);
            assert!(v[0].equals(&Quat(1.0f64.to_bits(), 0, 0, 0)));
            assert!(v[1].equals(&q));
        }
        other => panic!("expected quaternions, found {:?}", other),
    }
    match chain_operands(&vec![Expression::Quaternion(Rc::new(q)), num(1.0)]) {
        Chain::Quats(v) => assert!(v[0].equals(&q)),
        other => panic!("expected quaternions, found {:?}", other),
    }
    for args in [
        vec![num(5.0), text("a")],
        vec![num(5.0), num(2.0), text("x")],
        vec![text("x"), num(1.0)],
        vec![Expression::Quaternion(Rc::new(q)), text("x")],
    ] {
        match chain_operands(&args) {
            Chain::Stop(e) => match data_of(&e) {
                ExceptionData::Signature(expected, found) => {
                    assert_eq!(expected, "num");
                    assert_eq!(found, "string");
                }
                other => panic!("expected a signature error, found {:?}", other),
            },
            other => panic!("expected an error, found {:?}", other),
        }
    }
}

#[test]
fn quaternion_of_four_numbers() {
    let h = Printer;
    match quaternion(&vec![num(1.0), num(2.0), num(3.0), num(4.0)], &h) {
        Expression::Quaternion(q) => {
            assert!(q.equals(&Quat(
                1.0f64.to_bits(),
                2.0f64.to_bits(),
                3.0f64.to_bits(),
                4.0f64.to_bits()
            )))
        }
        other => panic!("expected a quaternion, found {:?}", other),
    }
    match data_of(&quaternion(&vec![num(1.0), sym("b"), num(3.0), num(4.0)], &h)) {
        ExceptionData::Signature(e, f) => {
            assert_eq!(e, "(num, num, num, num)");
            assert_eq!(f, "(1, b, 3, 4)");
        }
        other => panic!("expected a signature error, found {:?}", other),
    }
    assert!(matches!(
        data_of(&quaternion(&vec![num(1.0)], &h)),
        ExceptionData::Arity(4, 1)
    ));
}

#[test]
fn pretty_printing_requests() {
    assert!(matches!(get_style("bold"), Ok(Style::Bold)));
    assert!(matches!(get_style("normal"), Ok(Style::Normal)));
    assert_eq!(get_style("loud").err().unwrap().to_string(), "style not found: loud");
    assert_eq!(get_style("loud").err().unwrap().error_code(), 35);
    assert!(matches!(get_color("red"), Ok(Some(Tint::Red))));
    assert!(matches!(get_color("yellow"), Ok(Some(Tint::Yellow))));
    assert!(matches!(get_color("green"), Ok(Some(Tint::Green))));
    assert!(matches!(get_color("blue"), Ok(Some(Tint::Blue))));
    assert!(matches!(get_color("none"), Ok(None)));
    assert_eq!(get_color("pink").err().unwrap().to_string(), "color not found: pink");
    assert_eq!(get_color("pink").err().unwrap().error_code(), 34);
    let request = display_pretty(&vec![sym("green"), sym("bold"), text("go")]).unwrap();
    assert!(matches!(request.color, Some(Tint::Green)));
    assert!(matches!(request.style, Style::Bold));
    assert_eq!(request.text, "go");
    let request = display_pretty(&vec![sym("none"), sym("normal"), text("")]).unwrap();
    assert!(request.color.is_none());
    assert!(matches!(request.style, Style::Normal));
    assert_eq!(request.text, "");
    let e = display_pretty(&vec![sym("pink"), sym("loud"), text("go")]).err().unwrap();
    assert!(matches!(data_of(&e), ExceptionData::Custom(34, _)));
    let e = display_pretty(&vec![sym("red"), sym("loud"), text("go")]).err().unwrap();
    assert!(matches!(data_of(&e), ExceptionData::Custom(35, _)));
    let e = display_pretty(&vec![sym("red"), text("bold"), text("go")]).err().unwrap();
    match data_of(&e) {
        ExceptionData::Signature(x, y) => {
            assert_eq!(x, "(symbol, symbol, any)");
            assert_eq!(y, "(symbol, string, string)");
        }
        other => panic!("expected a signature error, found {:?}", other),
    }
    let e = display_pretty(&vec![sym("red")]).err().unwrap();
    assert!(matches!(data_of(&e), ExceptionData::Arity(2, 1)));
}

#[test]
fn shared_values_are_the_same_value() {
    let s = Expression::Struct(Rc::new(StructData {
        name: "p".to_string(),
        data: vec![num(1.0), text("x")],
    }));
    assert_eq!(s.clone(), s);
    assert_eq!(s.clone().type_of(), "p");
}

#[test]
fn values_in_the_debug_format() {
    let host = Printer;
    assert_eq!(num(1.0).to_debug_text(&host), "<Num:1>");
    assert_eq!(num(2.5).to_debug_text(&host), "<Num:2.5>");
    assert_eq!(Expression::Bool(true).to_debug_text(&host), "<Bool:true>");
    assert_eq!(Expression::Bool(false).to_debug_text(&host), "<Bool:false>");
    assert_eq!(text("a b").to_debug_text(&host), "<Str:\"a b\">");
    assert_eq!(sym("a").to_debug_text(&host), "<Symbol:a>");
    assert_eq!(list(vec![]).to_debug_text(&host), "<Cons:[]>");
    assert_eq!(list(vec![num(1.0)]).to_debug_text(&host), "<Cons:[<Num:1>]>");
    assert_eq!(
        list(vec![num(1.0), sym("a"), list(vec![text("s"), Expression::Bool(true)])])
            .to_debug_text(&host),
        "<Cons:[<Num:1>, <Symbol:a>, <Cons:[<Str:\"s\">, <Bool:true>]>]>"
    );
    let point = Expression::Struct(Rc::new(StructData {
        name: "point".to_string(),
        data: vec![num(1.0), sym("y")],
    }));
    assert_eq!(point.to_debug_text(&host), "<point:[<Num:1>, <Symbol:y>]>");
    let error = Expression::Error(Rc::new(Exception::custom(3, "no")));
    assert_eq!(error.to_debug_text(&host), error.to_text(&host));
}

#[test]
fn one_operand_that_is_real_or_a_quaternion() {
    let q = Quat(0, 1.0f64.to_bits(), 0, 0);
    match scalar_operand(&vec![num(2.0)]) {
        Ok(Scalar::Real(x)) => assert_eq!(x, 2.0f64.to_bits()),
        other => panic!("expected a real, found {:?}", other),
    }
    match scalar_operand(&vec![Expression::Quaternion(Rc::new(q))]) {
        Ok(Scalar::Quat(p)) => assert!(p.equals(&q)),
        other => panic!("expected a quaternion, found {:?}", other),
    }
    match scalar_operand(&vec![text("a")]) {
        Err(e) => match data_of(&e) {
            ExceptionData::Signature(expected, found) => {
                assert_eq!(expected, "num");
                assert_eq!(found, "string");
            }
            other => panic!("expected a signature error, found {:?}", other),
        },
        other => panic!("expected an error, found {:?}", other),
    }
    for args in [vec![], vec![num(1.0), num(2.0)]] {
        let n = args.len();
        match scalar_operand(&args) {
            Err(e) => match data_of(&e) {
                ExceptionData::Arity(1, found) => assert_eq!(*found, n),
                other => panic!("expected an arity error, found {:?}", other),
            },
            other => panic!("expected an error, found {:?}", other),
        }
    }
}

#[test]
fn substituting_what_was_matched_gives_the_input_back() {
    let h = Printer;
    let syntax = vec!["for".to_string(), "in".to_string()];
    let pattern = list(vec![
        sym("for"),
        sym("x"),
        sym("in"),
        sym("xs"),
        list(vec![sym("body"), num(1.0), text("s")]),
    ]);
    let input = list(vec![
        sym("for"),
        sym("body"),
        sym("in"),
        list(vec![num(1.0), sym("x")]),
        list(vec![list(vec![]), num(1.0), text("s")]),
    ]);
    let m = pattern_match(&syntax, &pattern, &input, &h).unwrap();
    assert_eq!(replace_symbols(&pattern, &m), input);
    let twice = list(vec![sym("a"), sym("a")]);
    let m = pattern_match(&syntax, &twice, &list(vec![num(1.0), num(2.0)]), &h).unwrap();
    assert_eq!(replace_symbols(&twice, &m), list(vec![num(2.0), num(2.0)]));
}
