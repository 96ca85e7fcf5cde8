use rlisp::context::Context;
use rlisp::exception::{Exception, ExceptionData};
use rlisp::expression::{Callable, Expression, Intrinsic, LambdaData, StructData};
use rlisp::host::Host;
use rlisp::import::import_text;
use rlisp::intrinsics::{define_intrinsic, init_context};
use rlisp::list::ExprList;
use rlisp::numeric::{chain_operands, Chain};
use rlisp::parser::Parser;
use rlisp::quat::Quat;

const ADD: usize = 0;
const MUL: usize = 1;
const PROBE: usize = 2;
const SUB: usize = 3;
const LEAK: usize = 4;

struct TestHost {
    probes: usize,
}

fn num(x: f64) -> Expression {
    Expression::Num(x.to_bits())
}

fn as_quat(e: &Expression) -> Option<[f64; 4]> {
    match e {
        Expression::Num(n) => Some([f64::from_bits(*n), 0.0, 0.0, 0.0]),
        Expression::Quaternion(q) => Some([
            f64::from_bits(q.0),
            f64::from_bits(q.1),
            f64::from_bits(q.2),
            f64::from_bits(q.3),
        ]),
        _ => None,
    }
}

impl Host for TestHost {
    fn parse_num(&self, text: &str) -> Option<u64> {
        text.parse::<f64>().ok().map(f64::to_bits)
    }

    fn show_num(&self, bits: u64) -> String {
        format!("{}", f64::from_bits(bits))
    }

    fn show_quat(&self, q: &Quat) -> String {
        format!(
            "{}{:+}i{:+}j{:+}k",
            f64::from_bits(q.0),
            f64::from_bits(q.1),
            f64::from_bits(q.2),
            f64::from_bits(q.3)
        )
    }

    fn read_file(&mut self, name: &str) -> Option<String> {
        match name {
            "plain.rl" => Some("(define loaded 7)\r\n(+ loaded 1)".to_string()),
            "indented.rl" => Some("#enable-preprocessor\ndefine : twice x\n  + x x\ntwice 4\n".to_string()),
            "unknown.rl" => Some("#no-such-thing\n1".to_string()),
            _ => None,
        }
    }

    fn call(&mut self, op: usize, args: &Vec<Expression>, ctx: &mut Context) -> Expression {
        match op {
            SUB => match chain_operands(args) {
                Chain::Reals(xs) => {
                    let mut xs = xs.into_iter().map(f64::from_bits);
                    let first = xs.next().expect("an operand");
                    num(xs.fold(None, |acc, x| Some(acc.unwrap_or(first) - x)).unwrap_or(-first))
                }
                Chain::Quats(qs) => {
                    let part = |q: &Quat, k: usize| f64::from_bits([q.0, q.1, q.2, q.3][k]);
                    let sign = if qs.len() == 1 { -1.0 } else { 1.0 };
                    let mut acc = [0.0; 4];
                    for k in 0..4 {
                        acc[k] = sign * part(&qs[0], k);
                        for q in &qs[1..] {
                            acc[k] -= part(q, k);
                        }
                    }
                    Expression::Quaternion(std::rc::Rc::new(Quat(
                        acc[0].to_bits(),
                        acc[1].to_bits(),
                        acc[2].to_bits(),
                        acc[3].to_bits(),
                    )))
                }
                Chain::Stop(e) => e,
            },
            ADD | MUL => {
                let all_real = args.iter().all(|a| matches!(a, Expression::Num(_)));
                let mut acc = if op == MUL { [1.0, 0.0, 0.0, 0.0] } else { [0.0; 4] };
                for a in args.iter() {
                    let q = match as_quat(a) {
                        Some(q) => q,
                        None => {
                            return Expression::Error(std::rc::Rc::new(Exception::signature(
                                "num",
                                a.type_of().as_str(),
                            )))
                        }
                    };
                    if op == MUL {
                        acc[0] *= q[0];
                    } else {
                        for k in 0..4 {
                            acc[k] += q[k];
                        }
                    }
                }
                if all_real {
                    num(acc[0])
                } else {
                    Expression::Quaternion(std::rc::Rc::new(Quat(
                        acc[0].to_bits(),
                        acc[1].to_bits(),
                        acc[2].to_bits(),
                        acc[3].to_bits(),
                    )))
                }
            }
            PROBE => {
                self.probes += 1;
                Expression::Bool(true)
            }
            LEAK => {
                ctx.ascend_scope();
                ctx.ascend_scope();
                ctx.insert("leaked", Expression::Bool(true));
                ctx.set_depth_limit(3);
                Expression::Bool(true)
            }
            _ => Expression::Error(std::rc::Rc::new(Exception::custom(99, "unknown native"))),
        }
    }
}

fn setup() -> (Context, TestHost) {
    let mut ctx = init_context("test");
    define_intrinsic(&mut ctx, "+", ADD);
    define_intrinsic(&mut ctx, "*", MUL);
    define_intrinsic(&mut ctx, "-", SUB);
    define_intrinsic(&mut ctx, "probe", PROBE);
    define_intrinsic(&mut ctx, "leak", LEAK);
    (ctx, TestHost { probes: 0 })
}

fn run_in(ctx: &mut Context, host: &mut TestHost, source: &str) -> Expression {
    let program = Parser::new(source).parse_all(&*host);
    program.eval(ctx, host)
}

fn run(source: &str) -> Expression {
    let (mut ctx, mut host) = setup();
    run_in(&mut ctx, &mut host, source)
}

fn error_data(e: &Expression) -> &ExceptionData {
    match e {
        Expression::Error(ex) => &ex.data,
        other => panic!("expected an error, found {:?}", other),
    }
}

fn list(items: Vec<Expression>) -> Expression {
    Expression::Cons(ExprList::from_vec(items))
}

#[test]
fn inner_let_shadows_and_outer_value_returns() {
    let (mut ctx, mut host) = setup();
    let depth = ctx.depth();
    let inner = run_in(&mut ctx, &mut host, "(define x 1) (let ([x 2]) x)");
    assert_eq!(inner, num(2.0));
    assert_eq!(run_in(&mut ctx, &mut host, "x"), num(1.0));
    assert_eq!(ctx.depth(), depth);
}

#[test]
fn lambda_parameter_shadows_and_outer_value_returns() {
    let (mut ctx, mut host) = setup();
    let inner = run_in(&mut ctx, &mut host, "(define x 1) ((lambda (x) x) 5)");
    assert_eq!(inner, num(5.0));
    assert_eq!(run_in(&mut ctx, &mut host, "x"), num(1.0));
}

#[test]
fn scopes_are_balanced_after_an_error_in_cond() {
    let (mut ctx, mut host) = setup();
    let depth = ctx.depth();
    let r = run_in(&mut ctx, &mut host, "(cond [(missing) 1])");
    assert!(r.is_exception());
    assert_eq!(ctx.depth(), depth);
    let r = run_in(&mut ctx, &mut host, "(let ([x 1]) (missing))");
    assert!(r.is_exception());
    assert_eq!(ctx.depth(), depth);
}

#[test]
fn lambda_capture_is_a_snapshot() {
    let r = run("(define x 1) (define f (lambda () x)) (define x 2) (f)");
    assert_eq!(r, num(1.0));
}

#[test]
fn lambda_captures_only_what_its_body_names() {
    let (mut ctx, mut host) = setup();
    let f = run_in(&mut ctx, &mut host, "(define x 1) (define y 2) (lambda (y) (+ x y z))");
    match f {
        Expression::Callable(Callable::Lambda(data)) => {
            let capture = data.capture.as_ref().expect("a capture");
            let names: Vec<&str> = capture.iter().map(|(k, _)| k.as_str()).collect();
            assert_eq!(names, vec!["+", "x"]);
            assert_eq!(capture[1].1, num(1.0));
        }
        other => panic!("expected a lambda, found {:?}", other),
    }
}

#[test]
fn arity_of_a_lambda_is_exact() {
    let r = run("((lambda (a b) a) 1)");
    assert!(matches!(error_data(&r), ExceptionData::Arity(2, 1)));
    let r = run("((lambda (a b) a) 1 2 3)");
    assert!(matches!(error_data(&r), ExceptionData::Arity(2, 3)));
    let r = run("((lambda () 7))");
    assert_eq!(r, num(7.0));
}

#[test]
fn arity_mismatch_binds_nothing() {
    let (mut ctx, mut host) = setup();
    let r = run_in(&mut ctx, &mut host, "((lambda (fresh other) fresh) 1)");
    assert!(r.is_exception());
    assert!(ctx.get("fresh").is_none());
    assert_eq!(ctx.depth(), 1);
}

#[test]
fn argument_error_stops_the_call_and_later_arguments() {
    let (mut ctx, mut host) = setup();
    let r = run_in(&mut ctx, &mut host, "(+ 1 (undefined-symbol) (probe))");
    match error_data(&r) {
        ExceptionData::Undefined(name) => assert_eq!(name, "undefined-symbol"),
        other => panic!("expected undefined, found {:?}", other),
    }
    assert_eq!(host.probes, 0);
    let r = run_in(&mut ctx, &mut host, "(+ 1 (probe) (undefined-symbol))");
    assert!(r.is_exception());
    assert_eq!(host.probes, 1);
}

#[test]
fn plain_addition_error_is_the_undefined_symbol() {
    let r = run("(+ 1 (undefined-symbol))");
    assert!(matches!(error_data(&r), ExceptionData::Undefined(_)));
    assert_eq!(error_data(&r).error_code(), 1);
}

#[test]
fn quote_round_trip() {
    assert_eq!(run("(eval (quote (+ 1 2)))"), num(3.0));
    assert_eq!(run("'(1 2 3)"), list(vec![num(1.0), num(2.0), num(3.0)]));
    let r = run("'(+ 1 2)");
    assert_eq!(
        r,
        list(vec![Expression::Symbol("+".to_string()), num(1.0), num(2.0)])
    );
}

#[test]
fn quote_takes_one_argument() {
    let r = run("(quote 1 2)");
    assert!(matches!(error_data(&r), ExceptionData::Arity(1, 2)));
    let r = run("(quote)");
    assert!(matches!(error_data(&r), ExceptionData::Arity(1, 0)));
}

#[test]
fn quasiquote_evaluates_what_is_unquoted() {
    assert_eq!(run("`(1 2 ,(+ 1 2))"), list(vec![num(1.0), num(2.0), num(3.0)]));
    assert_eq!(
        run("`(1 (2 ,(+ 1 2)))"),
        list(vec![num(1.0), list(vec![num(2.0), num(3.0)])])
    );
}

#[test]
fn unquote_outside_a_quasiquote_is_a_syntax_error() {
    let r = run(",(+ 1 2)");
    match error_data(&r) {
        ExceptionData::Syntax(code, text) => {
            assert_eq!(*code, 33);
            assert_eq!(text, "unquote expression must be contained in a quasiquote");
        }
        other => panic!("expected a syntax error, found {:?}", other),
    }
}

#[test]
fn struct_identity() {
    let (mut ctx, mut host) = setup();
    run_in(&mut ctx, &mut host, "(define-struct point [x y])");
    assert_eq!(
        run_in(&mut ctx, &mut host, "(is-point? (make-point 1 2))"),
        Expression::Bool(true)
    );
    assert_eq!(run_in(&mut ctx, &mut host, "(is-point? 5)"), Expression::Bool(false));
    run_in(&mut ctx, &mut host, "(define-struct vec [x y])");
    assert_eq!(
        run_in(&mut ctx, &mut host, "(is-point? (make-vec 1 2))"),
        Expression::Bool(false)
    );
    assert_eq!(
        run_in(&mut ctx, &mut host, "(is-vec? (make-vec 1 2))"),
        Expression::Bool(true)
    );
    assert_eq!(run_in(&mut ctx, &mut host, "(point-y (make-point 1 2))"), num(2.0));
    assert_ne!(ctx.get_struct_id("point"), ctx.get_struct_id("vec"));
}

#[test]
fn struct_constructor_checks_its_arity_after_its_arguments() {
    let (mut ctx, mut host) = setup();
    run_in(&mut ctx, &mut host, "(define-struct point [x y])");
    let r = run_in(&mut ctx, &mut host, "(make-point 1)");
    assert!(matches!(error_data(&r), ExceptionData::Arity(2, 1)));
    let r = run_in(&mut ctx, &mut host, "(make-point (missing) 1 2)");
    assert!(matches!(error_data(&r), ExceptionData::Undefined(_)));
    let r = run_in(&mut ctx, &mut host, "(make-point 1 2)");
    match r {
        Expression::Struct(data) => {
            assert_eq!(data.name, "point");
            assert_eq!(data.data, vec![num(1.0), num(2.0)]);
        }
        other => panic!("expected a struct, found {:?}", other),
    }
}

#[test]
fn struct_accessor_errors() {
    let (mut ctx, mut host) = setup();
    run_in(&mut ctx, &mut host, "(define-struct point [x y])");
    run_in(&mut ctx, &mut host, "(define-struct unit [])");
    let r = run_in(&mut ctx, &mut host, "(point-y (make-unit))");
    match error_data(&r) {
        ExceptionData::Custom(29, text) => {
            assert_eq!(text, "struct does not contain specified field")
        }
        other => panic!("expected custom 29, found {:?}", other),
    }
    let r = run_in(&mut ctx, &mut host, "(point-y 1 2)");
    assert!(matches!(error_data(&r), ExceptionData::Arity(1, 2)));
    let r = run_in(&mut ctx, &mut host, "(point-y 1)");
    assert!(matches!(error_data(&r), ExceptionData::Custom(29, _)));
}

#[test]
fn define_struct_errors() {
    let r = run("(define-struct point)");
    assert!(matches!(error_data(&r), ExceptionData::Arity(2, 1)));
    let r = run("(define-struct 5 [x])");
    match error_data(&r) {
        ExceptionData::Signature(e, f) => {
            assert_eq!(e, "symbol");
            assert_eq!(f, "num");
        }
        other => panic!("expected a signature error, found {:?}", other),
    }
    let r = run("(define-struct point 5)");
    match error_data(&r) {
        ExceptionData::Signature(e, f) => {
            assert_eq!(e, "cons");
            assert_eq!(f, "symbol");
        }
        other => panic!("expected a signature error, found {:?}", other),
    }
    let r = run("(define-struct point [x \"y\"])");
    match error_data(&r) {
        ExceptionData::Signature(e, f) => {
            assert_eq!(e, "symbol");
            assert_eq!(f, "string");
        }
        other => panic!("expected a signature error, found {:?}", other),
    }
    let mut ctx = Context::new();
    ctx.descend_scope();
    let form = Parser::new("(define-struct point [x])")
        .parse_expr(&TestHost { probes: 0 })
        .unwrap();
    let r = match &form {
        Expression::Cons(l) => rlisp::macros::define_struct(l, &mut ctx),
        _ => unreachable!(),
    };
    match error_data(&r) {
        ExceptionData::Custom(31, text) => assert_eq!(text, "could not define struct"),
        other => panic!("expected custom 31, found {:?}", other),
    }
}

#[test]
fn cond_without_a_match_is_nil() {
    assert!(run("(cond [false 1] [false 2])").is_nil());
    assert!(run("(cond)").is_nil());
}

#[test]
fn cond_takes_the_first_true_clause_and_knows_else() {
    assert_eq!(run("(cond [false 1] [true 2] [true 3])"), num(2.0));
    assert_eq!(run("(cond [false 1] [else 4])"), num(4.0));
}

#[test]
fn cond_errors() {
    let r = run("(cond [1 2])");
    match error_data(&r) {
        ExceptionData::Syntax(18, text) => assert_eq!(text, "condition must be a boolean value"),
        other => panic!("expected syntax 18, found {:?}", other),
    }
    let r = run("(cond 5)");
    match error_data(&r) {
        ExceptionData::Syntax(20, text) => assert_eq!(text, "condition case must be a list"),
        other => panic!("expected syntax 20, found {:?}", other),
    }
    let r = run("(cond [true 1 2])");
    assert!(matches!(error_data(&r), ExceptionData::Syntax(20, _)));
}

#[test]
fn try_hands_the_error_to_the_handler() {
    assert_eq!(run("(try (undefined-symbol) (lambda (e) (error-code e)))"), num(1.0));
    assert_eq!(
        run("(try (undefined-symbol) (lambda (e) (error-description e)))"),
        Expression::Str("undefined symbol: `undefined-symbol`".to_string())
    );
    assert_eq!(run("(try 5 (lambda (e) 6))"), num(5.0));
}

#[test]
fn try_report_carries_code_message_and_trace() {
    let r = run("(try (undefined-symbol) (lambda (e) e))");
    match r {
        Expression::Struct(data) => {
            assert_eq!(data.name, "error");
            assert_eq!(data.data.len(), 3);
            assert_eq!(data.data[0], num(1.0));
            match &data.data[2] {
                Expression::Cons(trace) => assert_eq!(trace.len(), 1),
                other => panic!("expected a list, found {:?}", other),
            }
        }
        other => panic!("expected a struct, found {:?}", other),
    }
}

#[test]
fn try_errors() {
    let r = run("(try 1)");
    assert!(matches!(error_data(&r), ExceptionData::Arity(2, 1)));
    let r = run("(try 1 \"handler\")");
    match error_data(&r) {
        ExceptionData::Custom(2, text) => assert_eq!(text, "not a callable value: `\"handler\"`"),
        other => panic!("expected custom 2, found {:?}", other),
    }
}

#[test]
fn square_of_five() {
    assert_eq!(run("(define (square x) (* x x)) (square 5)"), num(25.0));
}

#[test]
fn quaternion_promotion() {
    let r = run("(+ 1 1i 2j)");
    match r {
        Expression::Quaternion(q) => {
            assert_eq!(f64::from_bits(q.0), 1.0);
            assert_eq!(f64::from_bits(q.1), 1.0);
            assert_eq!(f64::from_bits(q.2), 2.0);
            assert_eq!(f64::from_bits(q.3), 0.0);
        }
        other => panic!("expected a quaternion, found {:?}", other),
    }
}

#[test]
fn atoms_evaluate_to_themselves() {
    assert_eq!(run("5"), num(5.0));
    assert_eq!(run("\"text\""), Expression::Str("text".to_string()));
    assert_eq!(run("true"), Expression::Bool(true));
    let (mut ctx, mut host) = setup();
    let empty = list(vec![]);
    assert!(empty.eval(&mut ctx, &mut host).is_nil());
}

#[test]
fn undefined_symbol() {
    let (mut ctx, mut host) = setup();
    let r = Expression::Symbol("nothing".to_string()).eval(&mut ctx, &mut host);
    match error_data(&r) {
        ExceptionData::Undefined(name) => assert_eq!(name, "nothing"),
        other => panic!("expected undefined, found {:?}", other),
    }
    match &r {
        Expression::Error(ex) => assert_eq!(ex.stack().len(), 0),
        _ => unreachable!(),
    }
}

#[test]
fn calling_what_is_not_callable() {
    let r = run("(\"text\" 1)");
    match error_data(&r) {
        ExceptionData::Custom(3, text) => assert_eq!(text, "not a callable value: `\"text\"`"),
        other => panic!("expected custom 3, found {:?}", other),
    }
    let r = run("(5 1)");
    match error_data(&r) {
        ExceptionData::Custom(3, text) => assert_eq!(text, "not a callable value: `5`"),
        other => panic!("expected custom 3, found {:?}", other),
    }
}

#[test]
fn errors_gather_the_calls_they_pass() {
    let r = run("(begin (+ 1 (missing)))");
    match &r {
        Expression::Error(ex) => {
            assert!(matches!(ex.data, ExceptionData::Undefined(_)));
            let trace = ex.stack().to_vec();
            assert_eq!(trace.len(), 4);
            assert_eq!(
                *trace[3],
                list(vec![Expression::Symbol("missing".to_string())])
            );
        }
        other => panic!("expected an error, found {:?}", other),
    }
}

#[test]
fn evaluation_deeper_than_the_limit_is_an_error() {
    let (mut ctx, mut host) = setup();
    ctx.set_depth_limit(50);
    let r = run_in(&mut ctx, &mut host, "(define (loop n) (loop n)) (loop 1)");
    match error_data(&r) {
        ExceptionData::Custom(41, text) => assert_eq!(text, "evaluation nested too deep"),
        other => panic!("expected custom 41, found {:?}", other),
    }
    assert_eq!(ctx.depth(), 1);
    ctx.set_depth_limit(0);
    let r = run_in(&mut ctx, &mut host, "(+ 1 2)");
    assert!(matches!(error_data(&r), ExceptionData::Custom(41, _)));
    let pi = Expression::Symbol("pi".to_string()).eval(&mut ctx, &mut host);
    assert_eq!(pi, Expression::Num(rlisp::intrinsics::PI_BITS));
    assert_eq!(pi, num(std::f64::consts::PI));
}

#[test]
fn recursion_goes_through_the_environment() {
    let r = run("(define (count n) (if (eq? n 0) 0 (count (- n 1)))) (count 20)");
    assert_eq!(r, num(0.0));
}

#[test]
fn define_binds_and_refuses_reserved_words() {
    let (mut ctx, mut host) = setup();
    assert!(run_in(&mut ctx, &mut host, "(define x 3)").is_nil());
    assert_eq!(*ctx.get("x").unwrap(), num(3.0));
    let r = run_in(&mut ctx, &mut host, "(define if 3)");
    match error_data(&r) {
        ExceptionData::Custom(28, text) => assert_eq!(text, "reserved identifier: if"),
        other => panic!("expected custom 28, found {:?}", other),
    }
    let r = run_in(&mut ctx, &mut host, "(define (let a) a)");
    assert!(matches!(error_data(&r), ExceptionData::Custom(28, _)));
}

#[test]
fn define_errors() {
    let r = run("(define)");
    assert!(matches!(error_data(&r), ExceptionData::Arity(2, 0)));
    let r = run("(define x)");
    assert!(matches!(error_data(&r), ExceptionData::Arity(3, 2)));
    let r = run("(define x 1 2)");
    assert!(matches!(error_data(&r), ExceptionData::Arity(3, 4)));
    let r = run("(define () 1)");
    assert!(matches!(error_data(&r), ExceptionData::Arity(2, 0)));
    let r = run("(define (5 a) a)");
    match error_data(&r) {
        ExceptionData::Signature(e, f) => {
            assert_eq!(e, "symbol");
            assert_eq!(f, "num");
        }
        other => panic!("expected a signature error, found {:?}", other),
    }
    let r = run("(define (f 5) 1)");
    match error_data(&r) {
        ExceptionData::Syntax(27, text) => assert_eq!(text, "function parameters must be symbols"),
        other => panic!("expected syntax 27, found {:?}", other),
    }
    let r = run("(define 5 1)");
    match error_data(&r) {
        ExceptionData::Syntax(26, text) => {
            assert_eq!(text, "define must bind either a function or a symbol")
        }
        other => panic!("expected syntax 26, found {:?}", other),
    }
    let (mut ctx, mut host) = setup();
    let r = run_in(&mut ctx, &mut host, "(define y (missing))");
    assert!(matches!(error_data(&r), ExceptionData::Undefined(_)));
    assert!(ctx.get("y").is_none());
}

#[test]
fn lambda_errors() {
    for source in ["(lambda)", "(lambda 5 1)", "(lambda (a 5) a)"] {
        let r = run(source);
        match error_data(&r) {
            ExceptionData::Syntax(17, text) => assert_eq!(text, "(lambda [args...] body)"),
            other => panic!("expected syntax 17, found {:?}", other),
        }
    }
}

#[test]
fn lambda_body_of_several_expressions_is_a_begin() {
    assert_eq!(run("((lambda (a) (define b a) (+ b 1)) 2)"), num(3.0));
    assert!(run("((lambda ()))").is_nil());
}

#[test]
fn if_evaluates_one_branch() {
    let (mut ctx, mut host) = setup();
    assert_eq!(run_in(&mut ctx, &mut host, "(if true 1 (probe))"), num(1.0));
    assert_eq!(host.probes, 0);
    assert_eq!(run_in(&mut ctx, &mut host, "(if false (probe) 2)"), num(2.0));
    assert_eq!(host.probes, 0);
}

#[test]
fn if_errors() {
    let r = run("(if true 1)");
    assert!(matches!(error_data(&r), ExceptionData::Arity(3, 3)));
    let r = run("(if true 1 2 3)");
    assert!(matches!(error_data(&r), ExceptionData::Arity(3, 5)));
    let r = run("(if (missing) 1 2)");
    assert!(matches!(error_data(&r), ExceptionData::Undefined(_)));
    let r = run("(if 5 \"a\" b)");
    match error_data(&r) {
        ExceptionData::Signature(e, f) => {
            assert_eq!(e, "bool, any, any");
            assert_eq!(f, "num, string, symbol");
        }
        other => panic!("expected a signature error, found {:?}", other),
    }
}

#[test]
fn let_binds_in_sequence() {
    assert_eq!(run("(let ([x 1] [y (+ x 1)]) (+ x y))"), num(3.0));
    assert!(run("(let ())").is_nil());
    assert_eq!(run("(let ([x 1]) (define y 2) (+ x y))"), num(3.0));
}

#[test]
fn let_skips_a_binding_whose_value_fails() {
    let r = run("(let ([x (missing)] [y 2]) y)");
    assert_eq!(r, num(2.0));
    let r = run("(let ([x (missing)]) x)");
    assert!(matches!(error_data(&r), ExceptionData::Undefined(_)));
}

#[test]
fn let_errors() {
    let r = run("(let)");
    assert!(matches!(error_data(&r), ExceptionData::Arity(2, 0)));
    let r = run("(let 5 1)");
    match error_data(&r) {
        ExceptionData::Syntax(21, text) => {
            assert_eq!(text, "binding list must be a list of bindings")
        }
        other => panic!("expected syntax 21, found {:?}", other),
    }
    let r = run("(let ([\"x\" 1]) 1)");
    match error_data(&r) {
        ExceptionData::Syntax(22, text) => {
            assert_eq!(text, "identifier in binding must be a symbol, found \"x\"")
        }
        other => panic!("expected syntax 22, found {:?}", other),
    }
    let r = run("(let ([x 1 2]) 1)");
    assert!(matches!(error_data(&r), ExceptionData::Arity(2, 3)));
    let r = run("(let (x) 1)");
    match error_data(&r) {
        ExceptionData::Syntax(23, text) => assert_eq!(
            text,
            "binding must be a list containing a symbol and a value, found x"
        ),
        other => panic!("expected syntax 23, found {:?}", other),
    }
}

#[test]
fn begin_gives_the_last_value_and_stops_at_an_error() {
    let (mut ctx, mut host) = setup();
    assert_eq!(run_in(&mut ctx, &mut host, "(begin 1 2 3)"), num(3.0));
    assert!(run_in(&mut ctx, &mut host, "(begin)").is_nil());
    let r = run_in(&mut ctx, &mut host, "(begin (missing) (probe))");
    assert!(r.is_exception());
    assert_eq!(host.probes, 0);
}

#[test]
fn env_looks_a_symbol_up() {
    assert_eq!(run("(define x 4) (env 'x)"), num(4.0));
    assert!(run("(env 'nothing)").is_nil());
    let r = run("(env)");
    assert!(matches!(error_data(&r), ExceptionData::Arity(1, 99)));
    let r = run("(env 5)");
    assert!(matches!(error_data(&r), ExceptionData::Signature(_, _)));
}

#[test]
fn set_replaces_the_innermost_binding() {
    let (mut ctx, mut host) = setup();
    let r = run_in(
        &mut ctx,
        &mut host,
        "(define x 1) (let ([y 0]) (set-internal! 'x 5)) x",
    );
    assert_eq!(r, num(5.0));
    let r = run_in(&mut ctx, &mut host, "(set-internal! 'nothing 5)");
    assert!(matches!(error_data(&r), ExceptionData::Undefined(_)));
    let r = run_in(&mut ctx, &mut host, "(set-internal! 5 5)");
    assert!(matches!(error_data(&r), ExceptionData::Signature(_, _)));
    let r = run_in(&mut ctx, &mut host, "(set-internal! 'x)");
    assert!(matches!(error_data(&r), ExceptionData::Arity(2, 1)));
}

#[test]
fn pattern_macro_expands_and_evaluates() {
    let (mut ctx, mut host) = setup();
    let r = run_in(
        &mut ctx,
        &mut host,
        "(define-macro-rule (swap a b) (quote (b a))) (swap 1 2)",
    );
    assert_eq!(r, list(vec![num(2.0), num(1.0)]));
    let r = run_in(&mut ctx, &mut host, "(swap 1)");
    match error_data(&r) {
        ExceptionData::Custom(42, text) => assert_eq!(
            text,
            "pattern match failure: expected `(swap a b)`, found `(swap 1)`"
        ),
        other => panic!("expected custom 42, found {:?}", other),
    }
    let r = run_in(
        &mut ctx,
        &mut host,
        "(define-macro-rule (unless c body) (if c '() body)) (unless false 7)",
    );
    assert_eq!(r, num(7.0));
}

#[test]
fn define_macro_rule_errors() {
    let r = run("(define-macro-rule (m a))");
    assert!(matches!(error_data(&r), ExceptionData::Arity(2, 1)));
    let r = run("(define-macro-rule () 1)");
    match error_data(&r) {
        ExceptionData::Syntax(37, text) => assert_eq!(text, "macro definition must include a name"),
        other => panic!("expected syntax 37, found {:?}", other),
    }
    let r = run("(define-macro-rule (5 a) 1)");
    match error_data(&r) {
        ExceptionData::Custom(38, text) => assert_eq!(text, "macro name must be a symbol"),
        other => panic!("expected custom 38, found {:?}", other),
    }
    let r = run("(define-macro-rule m 1)");
    match error_data(&r) {
        ExceptionData::Syntax(40, text) => assert_eq!(text, "syntax rule must be a list"),
        other => panic!("expected syntax 40, found {:?}", other),
    }
}

#[test]
fn call_on_a_list_built_by_hand() {
    let (mut ctx, mut host) = setup();
    let quote = Expression::Callable(Callable::Quote);
    let form = ExprList::from_vec(vec![quote.clone(), Expression::Symbol("a".to_string())]);
    assert_eq!(
        quote.call(&form, &mut ctx, &mut host),
        Expression::Symbol("a".to_string())
    );
    let error = Expression::Error(std::rc::Rc::new(Exception::custom(77, "kept")));
    let r = error.call(&form, &mut ctx, &mut host);
    assert!(matches!(error_data(&r), ExceptionData::Custom(77, _)));
    let native = Expression::Callable(Callable::Intrinsic(Intrinsic::Native(ADD)));
    let sum = ExprList::from_vec(vec![native.clone(), num(1.0), num(2.0)]);
    assert_eq!(native.call(&sum, &mut ctx, &mut host), num(3.0));
}

#[test]
fn lambda_without_capture_can_be_applied() {
    let (mut ctx, mut host) = setup();
    let data = LambdaData {
        params: ExprList::from_vec(vec![Expression::Symbol("a".to_string())]),
        body: std::rc::Rc::new(Expression::Symbol("a".to_string())),
        capture: None,
    };
    let f = Expression::Callable(Callable::Lambda(std::rc::Rc::new(data)));
    let form = ExprList::from_vec(vec![f.clone(), num(9.0)]);
    assert_eq!(f.call(&form, &mut ctx, &mut host), num(9.0));
}

#[test]
fn struct_values_compare_by_name_and_fields() {
    let a = Expression::Struct(std::rc::Rc::new(StructData {
        name: "p".to_string(),
        data: vec![num(1.0)],
    }));
    let b = Expression::Struct(std::rc::Rc::new(StructData {
        name: "p".to_string(),
        data: vec![num(1.0)],
    }));
    let c = Expression::Struct(std::rc::Rc::new(StructData {
        name: "q".to_string(),
        data: vec![num(1.0)],
    }));
    assert_eq!(a, b);
    assert_ne!(a, c);
}

#[test]
fn format_puts_values_into_a_string() {
    assert_eq!(
        run("(format \"1 + 2 = #{(+ 1 2)}\")"),
        Expression::Str("1 + 2 = 3".to_string())
    );
    assert_eq!(
        run("(define name \"you\") (format \"to #{name}, #{'(a b)}!\")"),
        Expression::Str("to you, (a b)!".to_string())
    );
    assert_eq!(run("(format \"\")"), Expression::Str(String::new()));
    assert_eq!(run("(format \"plain\")"), Expression::Str("plain".to_string()));
}

#[test]
fn format_errors() {
    let (mut ctx, mut host) = setup();
    let r = run_in(&mut ctx, &mut host, "(format \"a #{(+ 1 2)\")");
    match error_data(&r) {
        ExceptionData::Syntax(32, text) => {
            assert_eq!(text, "unclosed expression while interpolating string")
        }
        other => panic!("expected syntax 32, found {:?}", other),
    }
    let r = run_in(&mut ctx, &mut host, "(format \"a #{}\")");
    match error_data(&r) {
        ExceptionData::Syntax(31, text) => {
            assert_eq!(text, "format string must contain expression to interpolate")
        }
        other => panic!("expected syntax 31, found {:?}", other),
    }
    let r = run_in(&mut ctx, &mut host, "(format \"#{(missing)}\")");
    assert!(matches!(error_data(&r), ExceptionData::Undefined(_)));
    assert_eq!(ctx.depth(), 1);
    let r = run_in(&mut ctx, &mut host, "(format 5)");
    assert!(matches!(error_data(&r), ExceptionData::Signature(_, _)));
    let r = run_in(&mut ctx, &mut host, "(format)");
    assert!(matches!(error_data(&r), ExceptionData::Arity(1, 0)));
}

#[test]
fn import_evaluates_what_the_host_reads() {
    let (mut ctx, mut host) = setup();
    assert_eq!(run_in(&mut ctx, &mut host, "(import \"plain.rl\")"), num(8.0));
    assert_eq!(*ctx.get("loaded").unwrap(), num(7.0));
    assert_eq!(run_in(&mut ctx, &mut host, "(import \"indented.rl\")"), num(8.0));
    for name in ["missing.rl", "unknown.rl"] {
        let r = run_in(&mut ctx, &mut host, &format!("(import \"{}\")", name));
        match error_data(&r) {
            ExceptionData::Custom(14, text) => {
                assert_eq!(*text, format!("could not read file {}", name))
            }
            other => panic!("expected custom 14, found {:?}", other),
        }
    }
    let r = run_in(&mut ctx, &mut host, "(import 5)");
    assert!(matches!(error_data(&r), ExceptionData::Arity(1, 1)));
}

#[test]
fn repeat_calls_as_often_as_told() {
    let (mut ctx, mut host) = setup();
    assert!(run_in(&mut ctx, &mut host, "(repeat 3 (lambda () (probe)))").is_nil());
    assert_eq!(host.probes, 3);
    assert!(run_in(&mut ctx, &mut host, "(repeat 0 (lambda () (probe)))").is_nil());
    assert_eq!(host.probes, 3);
    let r = run_in(&mut ctx, &mut host, "(repeat 2.5 (lambda () 1))");
    match error_data(&r) {
        ExceptionData::Custom(100, text) => assert_eq!(text, "expected integral number"),
        other => panic!("expected custom 100, found {:?}", other),
    }
    let r = run_in(&mut ctx, &mut host, "(repeat 2 (lambda () (missing)))");
    assert!(matches!(error_data(&r), ExceptionData::Undefined(_)));
    let r = run_in(&mut ctx, &mut host, "(repeat 2 5)");
    match error_data(&r) {
        ExceptionData::Signature(e, f) => {
            assert_eq!(e, "(num, procedure)");
            assert_eq!(f, "(num, num)");
        }
        other => panic!("expected a signature error, found {:?}", other),
    }
    let r = run_in(&mut ctx, &mut host, "(repeat 2)");
    assert!(matches!(error_data(&r), ExceptionData::Arity(2, 1)));
}

#[test]
fn numbers_are_compared() {
    assert_eq!(run("(< 1 2)"), Expression::Bool(true));
    assert_eq!(run("(>= 1 2)"), Expression::Bool(false));
    assert_eq!(run("(if (<= 2 2) 'yes 'no)"), Expression::Symbol("yes".to_string()));
    let r = run("(> 1 \"a\")");
    match error_data(&r) {
        ExceptionData::Signature(e, f) => {
            assert_eq!(e, "(num, num)");
            assert_eq!(f, "(1, \"a\")");
        }
        other => panic!("expected a signature error, found {:?}", other),
    }
}

#[test]
fn scopes_that_a_native_leaves_behind_are_dropped() {
    let (mut ctx, mut host) = setup();
    let limit = ctx.depth_limit();
    assert_eq!(run_in(&mut ctx, &mut host, "(leak)"), Expression::Bool(true));
    assert_eq!(ctx.depth(), 1);
    assert_eq!(ctx.depth_limit(), limit);
    assert!(ctx.get("leaked").is_none());
    let mut ctx = Context::new();
    ctx.insert("kept", Expression::Bool(true));
    ctx.settle(3, 5, 9);
    assert_eq!(ctx.depth(), 3);
    assert_eq!(ctx.struct_count(), 5);
    assert_eq!(ctx.depth_limit(), 9);
    assert!(ctx.get("kept").is_some());
    ctx.settle(0, 2, 9);
    assert_eq!(ctx.depth(), 0);
    assert_eq!(ctx.struct_count(), 5);
}

#[test]
fn a_depth_limit_of_some_hundred_is_reached_without_harm() {
    let (mut ctx, mut host) = setup();
    assert_eq!(ctx.depth_limit(), usize::MAX);
    ctx.set_depth_limit(400);
    let r = run_in(&mut ctx, &mut host, "(define (loop n) (loop (+ n 1))) (loop 1)");
    assert!(matches!(error_data(&r), ExceptionData::Custom(41, _)));
    assert_eq!(ctx.depth(), 1);
    let r = run_in(
        &mut ctx,
        &mut host,
        "(define (down n) (if (eq? n 0) 'done (down (- n 1)))) (down 60)",
    );
    assert_eq!(r, Expression::Symbol("done".to_string()));
}

#[test]
fn subtraction_refuses_an_operand_that_is_no_number() {
    for source in ["(- 5 \"a\")", "(- \"a\" 5)", "(- 5 2 'x)", "(- \"a\")"] {
        let r = run(source);
        match error_data(&r) {
            ExceptionData::Signature(expected, _) => assert_eq!(expected, "num"),
            other => panic!("{}: expected a signature error, found {:?}", source, other),
        }
    }
    match error_data(&run("(- 5 \"a\")")) {
        ExceptionData::Signature(_, found) => assert_eq!(found, "string"),
        other => panic!("expected a signature error, found {:?}", other),
    }
    assert_eq!(run("(- 5 2 1)"), num(2.0));
    assert_eq!(run("(- 5)"), num(-5.0));
    assert!(run("(-)").is_exception());
}

#[test]
fn a_head_that_is_no_callable_is_refused_before_the_arguments() {
    let (mut ctx, mut host) = setup();
    let depth = ctx.depth();
    let r = run_in(&mut ctx, &mut host, "(1 (probe))");
    match error_data(&r) {
        ExceptionData::Custom(3, text) => assert_eq!(text, "not a callable value: `1`"),
        other => panic!("expected custom 3, found {:?}", other),
    }
    assert_eq!(host.probes, 0);
    assert_eq!(ctx.depth(), depth);
    let r = run_in(&mut ctx, &mut host, "(1 y)");
    match error_data(&r) {
        ExceptionData::Custom(3, text) => assert_eq!(text, "not a callable value: `1`"),
        other => panic!("expected custom 3, found {:?}", other),
    }
    let r = run_in(&mut ctx, &mut host, "(\"f\" 1)");
    match error_data(&r) {
        ExceptionData::Custom(3, text) => assert_eq!(text, "not a callable value: `\"f\"`"),
        other => panic!("expected custom 3, found {:?}", other),
    }
}

#[test]
fn call_refuses_a_value_that_is_no_callable() {
    let (mut ctx, mut host) = setup();
    let args = ExprList::from_vec(vec![Expression::Symbol("f".to_string()), num(1.0)]);
    let r = num(2.5).call(&args, &mut ctx, &mut host);
    match error_data(&r) {
        ExceptionData::Custom(3, text) => assert_eq!(text, "not a callable value: `2.5`"),
        other => panic!("expected custom 3, found {:?}", other),
    }
}

#[test]
fn let_refuses_a_binding_that_is_no_list() {
    let (mut ctx, mut host) = setup();
    let depth = ctx.depth();
    let r = run_in(&mut ctx, &mut host, "(let (5) (define z 1))");
    match error_data(&r) {
        ExceptionData::Syntax(23, _) => {}
        other => panic!("expected syntax 23, found {:?}", other),
    }
    assert_eq!(ctx.depth(), depth);
    assert!(ctx.get("z").is_none());
    let r = run_in(&mut ctx, &mut host, "(let ([a 1] 5) (probe))");
    match error_data(&r) {
        ExceptionData::Syntax(23, _) => {}
        other => panic!("expected syntax 23, found {:?}", other),
    }
    assert_eq!(host.probes, 0);
    assert_eq!(ctx.depth(), depth);
    assert!(ctx.get("a").is_none());
}

#[test]
fn let_refuses_a_name_that_is_no_symbol() {
    let (mut ctx, mut host) = setup();
    let depth = ctx.depth();
    let r = run_in(&mut ctx, &mut host, "(let ([\"x\" 1]) (probe))");
    match error_data(&r) {
        ExceptionData::Syntax(22, _) => {}
        other => panic!("expected syntax 22, found {:?}", other),
    }
    assert_eq!(host.probes, 0);
    assert_eq!(ctx.depth(), depth);
    let r = run_in(&mut ctx, &mut host, "(let ([7 1]) (probe))");
    match error_data(&r) {
        ExceptionData::Syntax(22, _) => {}
        other => panic!("expected syntax 22, found {:?}", other),
    }
    assert_eq!(host.probes, 0);
}

#[test]
fn a_lambda_is_called_with_as_many_arguments_as_parameters() {
    let (mut ctx, mut host) = setup();
    let depth = ctx.depth();
    run_in(&mut ctx, &mut host, "(define f (lambda (a b) (probe)))");
    for (source, given) in [("(f)", 0), ("(f 1)", 1), ("(f 1 2 3)", 3)] {
        let r = run_in(&mut ctx, &mut host, source);
        match error_data(&r) {
            ExceptionData::Arity(2, found) => assert_eq!(*found, given),
            other => panic!("{}: expected an arity error, found {:?}", source, other),
        }
        assert_eq!(ctx.depth(), depth);
    }
    assert_eq!(host.probes, 0);
    assert_eq!(run_in(&mut ctx, &mut host, "(f 1 2)"), Expression::Bool(true));
    assert_eq!(host.probes, 1);
}

#[test]
fn an_outer_binding_outlives_a_let_that_binds_the_name() {
    let (mut ctx, mut host) = setup();
    run_in(&mut ctx, &mut host, "(define x 1)");
    let depth = ctx.depth();
    for body in [
        "x",
        "(define x 9)",
        "(set-internal! 'x 7)",
        "((lambda () (set-internal! 'x 8)))",
        "(eval '(set-internal! 'x 6))",
        "(missing)",
        "(begin (define y x) (+ x y))",
        "((lambda (x) x) 4)",
    ] {
        let source = format!("(let ([x 2]) {})", body);
        run_in(&mut ctx, &mut host, &source);
        assert_eq!(ctx.get("x"), Some(&num(1.0)), "{}", source);
        assert_eq!(ctx.depth(), depth, "{}", source);
    }
}

#[test]
fn a_text_that_was_read_is_evaluated() {
    let (mut ctx, mut host) = setup();
    let depth = ctx.depth();
    let limit = ctx.depth_limit();
    let r = import_text("a.rl", Some("(define a 3)\n(+ a 4)".to_string()), &mut ctx, &mut host, limit);
    assert_eq!(r, num(7.0));
    assert_eq!(ctx.get("a"), Some(&num(3.0)));
    assert_eq!(ctx.depth(), depth);
    let r = import_text("b.rl", None, &mut ctx, &mut host, limit);
    match error_data(&r) {
        ExceptionData::Custom(14, text) => assert_eq!(text, "could not read file b.rl"),
        other => panic!("expected custom 14, found {:?}", other),
    }
    let r = import_text("c.rl", Some("#what\n(define c 1)".to_string()), &mut ctx, &mut host, limit);
    match error_data(&r) {
        ExceptionData::Custom(14, text) => assert_eq!(text, "could not read file c.rl"),
        other => panic!("expected custom 14, found {:?}", other),
    }
    assert!(ctx.get("c").is_none());
}

#[test]
fn an_outer_binding_outlives_a_call_that_binds_the_name() {
    let (mut ctx, mut host) = setup();
    run_in(&mut ctx, &mut host, "(define x 1)");
    let depth = ctx.depth();
    for body in ["x", "(define x 9)", "(set-internal! 'x 7)", "(missing)", "(let ([y 2]) (set-internal! 'x y))"] {
        let source = format!("((lambda (x) {}) 5)", body);
        run_in(&mut ctx, &mut host, &source);
        assert_eq!(ctx.get("x"), Some(&num(1.0)), "{}", source);
        assert_eq!(ctx.depth(), depth, "{}", source);
    }
}

#[test]
fn assignment_reaches_the_innermost_binding_only() {
    let (mut ctx, mut host) = setup();
    let r = run_in(&mut ctx, &mut host, "(define x 1) (let ([x 2]) (begin (set-internal! 'x 3) x))");
    assert_eq!(r, num(3.0));
    assert_eq!(ctx.get("x"), Some(&num(1.0)));
    let r = run_in(&mut ctx, &mut host, "(let ([y 2]) (begin (set-internal! 'x 4) x))");
    assert_eq!(r, num(4.0));
    assert_eq!(ctx.get("x"), Some(&num(4.0)));
}

#[test]
fn try_refuses_a_handler_that_is_no_callable() {
    let (mut ctx, mut host) = setup();
    let depth = ctx.depth();
    let r = run_in(&mut ctx, &mut host, "(try (probe) 5)");
    match error_data(&r) {
        ExceptionData::Custom(2, text) => assert_eq!(text, "not a callable value: `5`"),
        other => panic!("expected custom 2, found {:?}", other),
    }
    assert_eq!(host.probes, 0);
    assert_eq!(ctx.depth(), depth);
}

#[test]
fn a_lambda_sees_its_arguments_and_what_it_captured() {
    let (mut ctx, mut host) = setup();
    run_in(
        &mut ctx,
        &mut host,
        "(define x 1) (define y 2) (define f (lambda (x) (cons x (cons y '()))))",
    );
    run_in(&mut ctx, &mut host, "(define x 7) (define y 8)");
    assert_eq!(run_in(&mut ctx, &mut host, "(f 9)"), list(vec![num(9.0), num(2.0)]));
    assert_eq!(
        run_in(&mut ctx, &mut host, "(let ([y 5] [x 6]) (f 4))"),
        list(vec![num(4.0), num(2.0)])
    );
    assert_eq!(run_in(&mut ctx, &mut host, "y"), num(8.0));
}

#[test]
fn what_the_host_prints_is_run_together() {
    let r = run("(string-concat \"x=\" 5 'a \"b\")");
    assert_eq!(r, Expression::Str("\"x=\"5a\"b\"".to_string()));
    let r = run("(string-concat \"a\" \"b\")");
    assert_eq!(r, Expression::Str("\"a\"\"b\"".to_string()));
    let r = run("(parse \"(f 1)\")");
    assert_eq!(r, list(vec![Expression::Symbol("f".to_string()), num(1.0)]));
    let r = run("(parse 5)");
    assert!(matches!(error_data(&r), ExceptionData::Signature(_, _)));
}

#[test]
fn a_call_that_no_pattern_matches_is_refused() {
    let (mut ctx, mut host) = setup();
    let depth = ctx.depth();
    run_in(&mut ctx, &mut host, "(define-macro-rule (twice e) (begin e e))");
    let r = run_in(&mut ctx, &mut host, "(twice 1 (probe))");
    match error_data(&r) {
        ExceptionData::Custom(42, text) => assert_eq!(
            text,
            "pattern match failure: expected `(twice e)`, found `(twice 1 (probe))`"
        ),
        other => panic!("expected custom 42, found {:?}", other),
    }
    assert_eq!(host.probes, 0);
    assert_eq!(ctx.depth(), depth);
    assert_eq!(run_in(&mut ctx, &mut host, "(twice (probe))"), Expression::Bool(true));
    assert_eq!(host.probes, 2);
}
