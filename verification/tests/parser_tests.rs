use rlisp::context::Context;
use rlisp::exception::ExceptionData;
use rlisp::expression::{Callable, Expression};
use rlisp::host::Host;
use rlisp::list::ExprList;
use rlisp::parser::{is_valid_ident, Parser, Stop};
use rlisp::preprocessor::{first_pass, process, second_pass};
use rlisp::quat::Quat;
use rlisp::quat_text::{parse_quat, part, quat_parts};

struct Reader;

impl Host for Reader {
    fn parse_num(&self, text: &str) -> Option<u64> {
        text.parse::<f64>().ok().map(f64::to_bits)
    }

    fn show_num(&self, bits: u64) -> String {
        format!("{}", f64::from_bits(bits))
    }

    fn show_quat(&self, _q: &Quat) -> String {
        String::new()
    }

    fn read_file(&mut self, _name: &str) -> Option<String> {
        None
    }

    fn call(&mut self, _op: usize, _args: &Vec<Expression>, _ctx: &mut Context) -> Expression {
        Expression::Bool(false)
    }
}

fn num(x: f64) -> Expression {
    Expression::Num(x.to_bits())
}

fn sym(s: &str) -> Expression {
    Expression::Symbol(s.to_string())
}

fn list(items: Vec<Expression>) -> Expression {
    Expression::Cons(ExprList::from_vec(items))
}

fn marked(e: Option<Expression>) -> (Callable, Expression) {
    match e {
        Some(Expression::Cons(l)) => {
            assert_eq!(l.len(), 2);
            match (&*l.nth(0).unwrap(), &*l.nth(1).unwrap()) {
                (Expression::Callable(c), inner) => (c.clone(), inner.clone()),
                other => panic!("expected a mark, found {:?}", other),
            }
        }
        other => panic!("expected a list, found {:?}", other),
    }
}

fn read(source: &str) -> Option<Expression> {
    Parser::new(source).parse_expr(&Reader)
}

fn syntax_of(e: Option<Expression>) -> (u16, String) {
    match e {
        Some(Expression::Error(ex)) => match &ex.data {
            ExceptionData::Syntax(code, text) => (*code, text.clone()),
            other => panic!("expected a syntax error, found {:?}", other),
        },
        other => panic!("expected an error, found {:?}", other),
    }
}

#[test]
fn mod_test_parse_list() {
    let input = "(1 2 3)";
    let mut parser = Parser::new(input);
    let found = parser.parse_expr(&Reader);
    let expected = Some(list(vec![num(1.0), num(2.0), num(3.0)]));
    assert_eq!(&found, &expected);

    let input = "( 1 2 3 )";
    let mut parser = Parser::new(input);
    let found = parser.parse_expr(&Reader);
    let expected = Some(list(vec![num(1.0), num(2.0), num(3.0)]));
    assert_eq!(&found, &expected);
}

#[test]
fn mod_test_parse_num() {
    let input = "4.73";
    let mut parser = Parser::new(input);
    let found = parser.parse_expr(&Reader);
    let expected = Some(num(4.73));
    assert_eq!(&found, &expected);
}

#[test]
fn mod_test_parse_str() {
    let input = "\"Hello, world!\"";
    let mut parser = Parser::new(input);
    let found = parser.parse_expr(&Reader);
    let expected = Some(Expression::Str("Hello, world!".into()));
    assert_eq!(&found, &expected);
}

#[test]
fn lib_test_parse_list() {
    let input = "(1 2 3)";
    let mut parser = Parser::new(input);
    let found = parser.parse_expr(&Reader);
    let expected = Some(Expression::Cons(ExprList::from_vec(vec![
        num(1.0),
        num(2.0),
        num(3.0),
    ])));
    assert_eq!(&found, &expected);

    let input = "( 1 2 3 )";
    let mut parser = Parser::new(input);
    let found = parser.parse_expr(&Reader);
    let expected = Some(Expression::Cons(ExprList::from_vec(vec![
        num(1.0),
        num(2.0),
        num(3.0),
    ])));
    assert_eq!(&found, &expected);
}

#[test]
fn lib_test_parse_num() {
    let input = "4.73";
    let mut parser = Parser::new(input);
    let found = parser.parse_expr(&Reader);
    let expected = Some(Expression::Num(4.73f64.to_bits()));
    assert_eq!(&found, &expected);
}

#[test]
fn lib_test_parse_str() {
    let input = "\"Hello, world!\"";
    let mut parser = Parser::new(input);
    let found = parser.parse_expr(&Reader);
    let expected = Some(Expression::Str("Hello, world!".into()));
    assert_eq!(&found, &expected);
}

#[test]
fn nothing_to_read() {
    assert!(read("").is_none());
    assert!(read("   \n\t ").is_none());
    assert!(read("; only a comment").is_none());
    assert!(read("#| a block |#").is_none());
}

#[test]
fn quote_marks() {
    let (c, e) = marked(read("'a"));
    assert!(matches!(c, Callable::Quote));
    assert_eq!(e, sym("a"));
    let (c, e) = marked(read("`(a)"));
    assert!(matches!(c, Callable::Quasiquote));
    assert_eq!(e, list(vec![sym("a")]));
    let (c, e) = marked(read(",a"));
    assert!(matches!(c, Callable::Unquote));
    assert_eq!(e, sym("a"));
    assert!(read("'").is_none());
}

#[test]
fn keywords_and_symbols() {
    assert_eq!(read("true"), Some(Expression::Bool(true)));
    assert_eq!(read("false"), Some(Expression::Bool(false)));
    for word in ["nil", "empty"] {
        let (c, e) = marked(read(word));
        assert!(matches!(c, Callable::Quote));
        assert_eq!(e, list(vec![]));
    }
    assert!(matches!(read("quote"), Some(Expression::Callable(Callable::Quote))));
    assert!(matches!(
        read("quasiquote"),
        Some(Expression::Callable(Callable::Quasiquote))
    ));
    assert!(matches!(read("unquote"), Some(Expression::Callable(Callable::Unquote))));
    assert_eq!(read("set-internal!"), Some(sym("set-internal!")));
    assert_eq!(read("a(b"), Some(sym("a")));
}

#[test]
fn brackets_and_nesting() {
    assert_eq!(
        read("[a (b [c]) d]"),
        Some(list(vec![
            sym("a"),
            list(vec![sym("b"), list(vec![sym("c")])]),
            sym("d")
        ]))
    );
    assert_eq!(read("()"), Some(list(vec![])));
}

#[test]
fn comments_are_skipped() {
    assert_eq!(read("; first\n a"), Some(sym("a")));
    assert_eq!(read("#| block |# a"), Some(sym("a")));
    assert_eq!(read("(a ; inside\n b)"), Some(list(vec![sym("a"), sym("b")])));
    assert_eq!(
        syntax_of(read("#| never closed")),
        (42, "unclosed block comment".to_string())
    );
}

#[test]
fn string_escapes() {
    assert_eq!(
        read("\"a\\n\\t\\r\\\\\\\"b\""),
        Some(Expression::Str("a\n\t\r\\\"b".to_string()))
    );
    assert_eq!(
        syntax_of(read("\"open")),
        (8, "unclosed string literal".to_string())
    );
}

#[test]
fn list_errors() {
    assert_eq!(syntax_of(read("(a b")), (6, "unclosed list".to_string()));
    assert_eq!(syntax_of(read(")")), (5, "unexpected list close".to_string()));
    assert_eq!(syntax_of(read("(a ])")), (5, "unexpected list close".to_string()));
}

#[test]
fn infix_lists() {
    assert_eq!(
        read("{1 + 2 + 3}"),
        Some(list(vec![sym("+"), num(1.0), num(2.0), num(3.0)]))
    );
    assert_eq!(read("{1}"), Some(num(1.0)));
    assert_eq!(read("{}"), Some(list(vec![])));
    assert_eq!(
        syntax_of(read("{1 + 2 - 3}")),
        (6, "infix list operators must be equal".to_string())
    );
}

#[test]
fn parse_all_wraps_in_begin() {
    let all = Parser::new("a b").parse_all(&Reader);
    assert_eq!(all, list(vec![sym("begin"), sym("a"), sym("b")]));
    let none = Parser::new("").parse_all(&Reader);
    assert_eq!(none, list(vec![sym("begin")]));
    let bad = Parser::new("a )").parse_all(&Reader);
    assert!(bad.is_exception());
}

#[test]
fn reader_primitives() {
    let mut p = Parser::new("ab  c");
    assert_eq!(p.peek_char(), Some('a'));
    assert_eq!(p.next_char(), Some('a'));
    p.unread('z');
    assert_eq!(p.read_to(Stop::AtomEnd), Some("zb".to_string()));
    assert_eq!(p.read_to(Stop::AtomEnd), None);
    assert_eq!(p.read_to(Stop::NonBlank), Some("  ".to_string()));
    assert_eq!(p.read_to(Stop::Newline), Some("c".to_string()));
    assert_eq!(p.next_char(), None);
}

#[test]
fn identifier_characters() {
    for c in "()[]{}'\"`,".chars() {
        assert!(!is_valid_ident(c));
    }
    for c in "ab-!?+*:#;λ".chars() {
        assert!(is_valid_ident(c));
    }
}

#[test]
fn first_pass_strips_comments_and_opens_colons() {
    assert_eq!(first_pass("a ; note\nb".to_string()), "a \nb");
    assert_eq!(
        first_pass("define : square x\n  * x x\n".to_string()),
        "define ( square x)\n  * x x\n"
    );
    assert_eq!(first_pass("a : b".to_string()), "a ( b");
    assert_eq!(first_pass("; to the end".to_string()), "");
    assert_eq!(first_pass(String::new()), "");
}

#[test]
fn second_pass_wraps_by_indentation() {
    assert_eq!(
        second_pass("define (square x)\n  * x x\n".to_string()),
        " (define (square x) (* x x))"
    );
    assert_eq!(second_pass("a\nb\n".to_string()), " (a) (b)");
    assert_eq!(second_pass("a\n  b\n    c\n  d\n".to_string()), " (a (b (c)) (d))");
    assert_eq!(second_pass("f x\n  . y\n".to_string()), " (f xy)");
    assert_eq!(second_pass("\n   \n".to_string()), "");
    assert_eq!(process("a\n b".to_string()), " (a (b))");
}

#[test]
fn both_passes_give_the_square_example() {
    let text = "define : square x\n  * x x\n".to_string();
    let out = second_pass(first_pass(text));
    assert_eq!(out, " (define ( square x) (* x x))");
    let form = read(&out).unwrap();
    assert_eq!(
        form,
        list(vec![
            sym("define"),
            list(vec![sym("square"), sym("x")]),
            list(vec![sym("*"), sym("x"), sym("x")])
        ])
    );
}

#[test]
fn quaternion_literals_are_split_by_shape() {
    let parts = |s: &str| {
        let q = quat_parts(s).unwrap();
        (q.a, q.b, q.c, q.d)
    };
    let some = |s: &str| Some(s.to_string());
    assert_eq!(parts("1+2i-3j+4k"), (some("1"), some("+2"), some("-3"), some("+4")));
    assert_eq!(parts("1.5i+2j-3k"), (None, some("1.5"), some("+2"), some("-3")));
    assert_eq!(parts("1i+2j"), (None, some("1"), some("+2"), None));
    assert_eq!(parts("1i-2k"), (None, some("1"), None, some("-2")));
    assert_eq!(parts("1j+2k"), (None, None, some("1"), some("+2")));
    assert_eq!(parts("1+2i+3j"), (None, some("+2"), some("+3"), None));
    assert_eq!(parts("1+2i+3k"), (None, some("+2"), None, some("+3")));
    assert_eq!(parts("1+2j+3k"), (None, None, some("+2"), some("+3")));
    assert_eq!(parts("1-2k"), (some("1"), None, None, some("-2")));
    assert_eq!(parts("1-2j"), (some("1"), None, some("-2"), None));
    assert_eq!(parts("-1+2i"), (some("-1"), some("+2"), None, None));
    assert_eq!(parts("7i"), (None, some("7"), None, None));
    assert_eq!(parts("7.25j"), (None, None, some("7.25"), None));
    assert_eq!(parts("-7k"), (None, None, None, some("-7")));
    assert!(quat_parts("seven").is_err());
    assert!(quat_parts("7").is_err());
    assert!(quat_parts("").is_err());
}

#[test]
fn quaternion_literals_are_read() {
    let bits = |x: f64| x.to_bits();
    let q = parse_quat("1+2i-3j+4k", &Reader).unwrap();
    assert_eq!((q.0, q.1, q.2, q.3), (bits(1.0), bits(2.0), bits(-3.0), bits(4.0)));
    let q = parse_quat("2.5j", &Reader).unwrap();
    assert_eq!((q.0, q.1, q.2, q.3), (0, 0, bits(2.5), 0));
    assert!(parse_quat("x", &Reader).is_err());
    match read("3k") {
        Some(Expression::Quaternion(q)) => assert_eq!((q.0, q.1, q.2, q.3), (0, 0, 0, bits(3.0))),
        other => panic!("expected a quaternion, found {:?}", other),
    }
    assert_eq!(read("3"), Some(num(3.0)));
}

#[test]
fn components_are_taken_from_the_groups_of_a_shape() {
    let some = |t: &str| Some(t.to_string());
    let full = vec![
        some("1+2i+3j+4k"),
        some("1"),
        None,
        some("+2"),
        None,
        some("+3"),
        None,
        some("+4"),
        None,
    ];
    assert_eq!(part(0, 0, &full), some("1"));
    assert_eq!(part(0, 1, &full), some("+2"));
    assert_eq!(part(0, 2, &full), some("+3"));
    assert_eq!(part(0, 3, &full), some("+4"));
    assert_eq!(part(0, 4, &full), None);
    let jk = vec![some("2j-3k"), some("2"), None, some("-3"), None];
    assert_eq!(part(4, 0, &jk), None);
    assert_eq!(part(4, 1, &jk), None);
    assert_eq!(part(4, 2, &jk), some("2"));
    assert_eq!(part(4, 3, &jk), some("-3"));
    let k = vec![some("5k"), some("5"), None];
    assert_eq!(part(13, 3, &k), some("5"));
    assert_eq!(part(13, 2, &k), None);
    let gaps = vec![some("x"), None, None, None, None];
    assert_eq!(part(10, 0, &gaps), some(""));
    assert_eq!(part(10, 1, &gaps), some("1"));
    assert_eq!(part(10, 1, &vec![]), some("1"));
}

#[test]
fn the_second_pass_closes_what_it_opens() {
    for source in [
        "define x 1",
        "define f\n  lambda (x)\n    + x x\nf 2\n",
        "a\n  b\n    c\n  d\n\ne\n    f\n",
        "cond\n  . (a 1)\n  . (b 2)\n",
        "",
        "\n\n",
    ] {
        let out = second_pass(source.to_string());
        let opened = out.chars().filter(|c| *c == '(').count();
        let closed = out.chars().filter(|c| *c == ')').count();
        assert_eq!(opened, closed, "{:?} gave {:?}", source, out);
    }
    assert_eq!(second_pass("a\n  b\nc".to_string()), " (a (b)) (c)");
}
