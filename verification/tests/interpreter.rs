use scheme::env::Env;
use scheme::float::FloatHost;
use scheme::heap::{Heap, PrimOp};
use scheme::interp::Interp;
use scheme::parser::Parser;
use scheme::types::{Number, SchemeError, Value};

/// The host's floating-point services, backed by the machine's binary64 unit.
struct HostFloat;

impl FloatHost for HostFloat {

    // The spec members of the trait exist only for verification; they are
    // never called at run time.
    fn from_int_spec(_i: i64) -> u64 {
        panic!()
    }

    fn add_spec(_a: u64, _b: u64) -> u64 {
        panic!()
    }

    fn sub_spec(_a: u64, _b: u64) -> u64 {
        panic!()
    }

    fn mul_spec(_a: u64, _b: u64) -> u64 {
        panic!()
    }

    fn div_spec(_a: u64, _b: u64) -> u64 {
        panic!()
    }

    fn rem_spec(_a: u64, _b: u64) -> u64 {
        panic!()
    }

    fn neg_spec(_a: u64) -> u64 {
        panic!()
    }

    fn cmp_spec(_a: u64, _b: u64) -> Option<i8> {
        panic!()
    }

    fn to_i32_spec(_a: u64) -> Option<i32> {
        panic!()
    }

    fn parse_spec(_s: scheme::float::GhostChars) -> Option<u64> {
        panic!()
    }

    fn format_spec(_a: u64) -> scheme::float::GhostChars {
        panic!()
    }

    fn from_int(&self, i: i64) -> u64 {
        (i as f64).to_bits()
    }

    fn add(&self, a: u64, b: u64) -> u64 {
        (f64::from_bits(a) + f64::from_bits(b)).to_bits()
    }

    fn sub(&self, a: u64, b: u64) -> u64 {
        (f64::from_bits(a) - f64::from_bits(b)).to_bits()
    }

    fn mul(&self, a: u64, b: u64) -> u64 {
        (f64::from_bits(a) * f64::from_bits(b)).to_bits()
    }

    fn div(&self, a: u64, b: u64) -> u64 {
        (f64::from_bits(a) / f64::from_bits(b)).to_bits()
    }

    fn rem(&self, a: u64, b: u64) -> u64 {
        (f64::from_bits(a) % f64::from_bits(b)).to_bits()
    }

    fn neg(&self, a: u64) -> u64 {
        (-f64::from_bits(a)).to_bits()
    }

    fn cmp(&self, a: u64, b: u64) -> Option<i8> {
        let x = f64::from_bits(a);
        let y = f64::from_bits(b);
        if x < y {
            Some(-1)
        } else if x == y {
            Some(0)
        } else if x > y {
            Some(1)
        } else {
            None
        }
    }

    fn to_i32(&self, a: u64) -> Option<i32> {
        let f = f64::from_bits(a);
        if f > i32::MAX as f64 || f < i32::MIN as f64 {
            None
        } else {
            Some(f as i32)
        }
    }

    fn parse(&self, s: &str) -> Option<u64> {
        match s.parse::<f64>() {
            Ok(f) => Some(f.to_bits()),
            Err(_) => None,
        }
    }

    fn format(&self, a: u64) -> String {
        let fl = f64::from_bits(a);
        if fl.fract() == 0.0 && fl.is_finite() {
            format!("{:.1}", fl)
        } else {
            format!("{}", fl)
        }
    }
}

fn new_interp() -> Interp<HostFloat> {
    Interp::new(HostFloat)
}

fn fbits(f: f64) -> Value {
    Value::Number(Number::Float(f.to_bits()))
}

fn intval(i: i64) -> Value {
    Value::Number(Number::Int(i))
}

fn read_one(interp: &mut Interp<HostFloat>, text: &str) -> Result<Value, SchemeError> {
    let mut parser = Parser::new(text.as_bytes());
    parser.read(interp)
}

fn run(interp: &mut Interp<HostFloat>, text: &str) -> Result<Value, SchemeError> {
    let expr = read_one(interp, text)?;
    interp.eval(expr)
}

fn check_exprs(interp: &mut Interp<HostFloat>, inputs: &Vec<(&str, Value)>) {
    for (text, expected) in inputs {
        match read_one(interp, text) {
            Ok(expr) => match interp.eval(expr) {
                Ok(value) => assert_eq!(value, *expected, "wrong value for {}", text),
                Err(e) => panic!("Eval {} failed with error: {:?}", text, e),
            },
            Err(e) => panic!("Parse {} failed, error: {:?}.", text, e),
        }
    }
}

fn run_display(interp: &mut Interp<HostFloat>, text: &str) -> String {
    let v = run(interp, text).unwrap();
    interp.display(v)
}

#[test]
fn test_parse_number() {
    let host = HostFloat;
    let inputs = vec!["42", "-3", "0", "3.14", "-0.001", "2e10", "-1.5E-3"];
    let expected = vec![
        intval(42),
        intval(-3),
        intval(0),
        fbits(3.14),
        fbits(-0.001),
        fbits(2e10),
        fbits(-1.5e-3),
    ];
    for (input, expect) in inputs.iter().zip(expected.iter()) {
        let mut parser = Parser::new(input.as_bytes());
        let result = parser.parse_number(&host).unwrap();
        assert_eq!(&result, expect);
    }
}

#[test]
fn test_parse_hash() {
    let ok_inputs = vec![
        ("#t", Value::Boolean(true)),
        ("#f", Value::Boolean(false)),
        ("#T", Value::Boolean(true)),
        ("#F", Value::Boolean(false)),
        ("#d10", intval(10)),
        ("#b101", intval(5)),
        ("#o10", intval(8)),
        ("#xFF", intval(255)),
        ("#\\backspace", Value::Char(8)),
        ("#\\tab", Value::Char(9)),
        ("#\\newline", Value::Char(10)),
        ("#\\return", Value::Char(13)),
        ("#\\space", Value::Char(32)),
        ("#\\A", Value::Char(65)),
    ];
    for (text, value) in ok_inputs {
        let mut parser = Parser::new(text.as_bytes());
        assert_eq!(Ok(value), parser.parse_hash());
    }
}

#[test]
fn test_parse_symbol() {
    let mut interp = new_interp();
    let inputs = vec!["some-symbol"];
    for text in inputs {
        let mut parser = Parser::new(text.as_bytes());
        let result = parser.parse_symbol(&mut interp.heap);
        assert!(matches!(result, Ok(Value::Object(_id))));
    }
}

#[test]
fn test_parse_string() {
    let mut interp = new_interp();
    let inputs = vec!["\"Hello World\""];
    for text in inputs {
        let mut parser = Parser::new(text.as_bytes());
        let result = parser.parse_string(&mut interp.heap);
        assert!(matches!(result, Ok(Value::Object(_id))));
    }
}

#[test]
fn test_parse_list() {
    let mut interp = new_interp();
    let inputs = vec![")", "1 2 3)"];
    for text in inputs {
        let mut parser = Parser::new(text.as_bytes());
        let result = parser.parse_list(&mut interp);
        if let Ok(list) = result {
            println!("{}", interp.display(list));
        }
    }
}

#[test]
fn test_parse_some_exprs() {
    let mut interp = new_interp();
    let inputs = vec!["(* 2 3)", "(1 2 3)", "((lambda (x) (+ x 1)) 2)"];
    for text in inputs {
        let result = read_one(&mut interp, text);
        assert!(result.is_ok(), "parse of {} failed: {:?}", text, result);
    }
}

#[test]
fn test_parse_fails() {
    let mut interp = new_interp();
    let result = read_one(&mut interp, "(*, 2 3)");
    assert!(matches!(result, Err(SchemeError::SyntaxError(_))));
}

#[test]
fn test_eval_self_types() {
    let mut interp = new_interp();

    let int_val = intval(42);
    let float_val = fbits(3.14);
    let bool_val = Value::Boolean(true);
    let nil_val = Value::Nil;

    assert_eq!(interp.eval(int_val).unwrap(), int_val);
    assert_eq!(interp.eval(float_val).unwrap(), float_val);
    assert_eq!(interp.eval(bool_val).unwrap(), bool_val);
    assert_eq!(interp.eval(nil_val).unwrap(), nil_val);
}

#[test]
fn test_intern_symbol() {
    let mut heap = Heap::new();

    let sym1 = heap.intern_symbol("test");
    let sym2 = heap.intern_symbol("test");

    assert_eq!(sym1, sym2, "Interned symbols should be the same");
}

#[test]
fn test_intern_distinct_names() {
    let mut heap = Heap::new();
    let a = heap.intern_symbol("alpha");
    let b = heap.intern_symbol("beta");
    assert_ne!(a, b, "distinct names must intern to distinct identifiers");
    assert_eq!(a, heap.intern_symbol("alpha"));
    assert_eq!(b, heap.intern_symbol("beta"));
}

#[test]
fn test_eval_symbol() {
    let mut interp = new_interp();
    let symbol = interp.heap.intern_symbol("test-symbol");

    let result = interp.eval(symbol);
    assert!(
        matches!(result, Err(SchemeError::UnboundVariable(_))),
        "Evaluated result should be an UnboundVariable error"
    );

    interp.define("test-symbol", intval(42));
    assert!(
        matches!(interp.eval(symbol), Ok(Value::Number(Number::Int(42)))),
        "Evaluated symbol should return bound value"
    );
}

#[test]
fn test_eval_string() {
    let mut interp = new_interp();
    let string = interp.heap.alloc_string(String::from("Hello, World!"));
    let Value::Object(string_id) = string else {
        panic!("Expected Value::Object");
    };
    let result = interp.eval(string);
    assert!(
        matches!(result, Ok(Value::Object(id)) if id == string_id),
        "Evaluated string should return the same object ID"
    );
}

#[test]
fn test_true_and_false_symbols() {
    let mut interp = new_interp();

    let true_sym = interp.heap.intern_symbol("#t");
    let false_sym = interp.heap.intern_symbol("#f");

    assert!(
        matches!(interp.eval(true_sym), Ok(Value::Boolean(true))),
        "#t should evaluate to Boolean(true)"
    );
    assert!(
        matches!(interp.eval(false_sym), Ok(Value::Boolean(false))),
        "#f should evaluate to Boolean(false)"
    );
}

fn eval_expr(interp: &mut Interp<HostFloat>, expr: Value) {
    println!("{}", interp.display(expr));
    let result = interp.eval(expr);
    match result {
        Ok(val) => println!("{}", interp.display(val)),
        Err(e) => println!("Error: {:?}", e),
    }
}

#[test]
fn test_cond() {
    let mut interp = new_interp();
    let cond = interp.lookup("if");
    let tru = interp.lookup("#t");
    let fls = interp.lookup("#f");

    let cond_expr_true = interp.heap.alloc_list(vec![cond, tru, intval(42), intval(0)]);
    let cond_expr_false = interp.heap.alloc_list(vec![cond, fls, intval(42), intval(0)]);

    eval_expr(&mut interp, cond_expr_true);
    eval_expr(&mut interp, cond_expr_false);

    assert_eq!(interp.eval(cond_expr_true).unwrap(), intval(42));
    assert_eq!(interp.eval(cond_expr_false).unwrap(), intval(0));
}

#[test]
fn test_nested_expr() {
    let mut interp = new_interp();

    let add = interp.lookup("+");
    let mul = interp.lookup("*");

    let expr = interp.heap.alloc_list(vec![mul, intval(2), intval(3)]);
    let list: Value = interp.heap.alloc_list(vec![add, expr, intval(1), intval(2)]);

    eval_expr(&mut interp, list);
    assert_eq!(interp.eval(list).unwrap(), intval(9));
}

#[test]
fn test_setbang_special_form() {
    let mut interp = new_interp();

    let define = interp.lookup("define");
    let x = interp.lookup("x");

    let expr = interp.heap.alloc_list(vec![define, x, intval(1)]);

    eval_expr(&mut interp, expr);
    eval_expr(&mut interp, x);
    assert_eq!(interp.eval(x).unwrap(), intval(1));
}

#[test]
fn test_lambda() {
    let mut interp = new_interp();

    let x = interp.lookup("x");
    let add = interp.lookup("+");
    let lambda = interp.lookup("lambda");

    let params = interp.heap.alloc_list(vec![x]);
    let body = interp.heap.alloc_list(vec![add, x, intval(1)]);
    let lam = interp.heap.alloc_list(vec![lambda, params, body]);
    let call = interp.heap.alloc_list(vec![lam, intval(41)]);

    eval_expr(&mut interp, call);
    assert_eq!(interp.eval(call).unwrap(), intval(42));
}

#[test]
fn test_read_eval_number() {
    let inputs = vec![
        ("(* 3 2)", intval(6)),
        ("(- 1)", intval(-1)),
        ("(- 2 1)", intval(1)),
        ("(/ 2)", fbits(0.5)),
        ("(/ 4 2)", fbits(2.0)),
        ("(% 10 3)", intval(1)),
        ("(= 10. 10.0)", Value::Boolean(true)),
        ("(> 10 3)", Value::Boolean(true)),
        ("(>= 10 10)", Value::Boolean(true)),
        ("(< 10 3)", Value::Boolean(false)),
        ("(<= 3 3)", Value::Boolean(true)),
        ("(number? 1)", Value::Boolean(true)),
        ("(number? \"x\")", Value::Boolean(false)),
        ("(integer? 1)", Value::Boolean(true)),
        ("(integer? 1.0)", Value::Boolean(false)),
        ("(float? 1.0)", Value::Boolean(true)),
        ("(float? 1)", Value::Boolean(false)),
        ("(max 4 2.0 1)", intval(4)),
        ("(min 4 2.0 7)", fbits(2.0)),
    ];
    let mut interp = new_interp();
    check_exprs(&mut interp, &inputs);
}

#[test]
fn test_read_eval_closure() {
    let inputs = vec![
        ("((lambda (x) (+ x 1)) 2)", intval(3)),
        ("((lambda (x y) (+ x y)) 1 2)", intval(3)),
    ];
    let mut interp = new_interp();
    check_exprs(&mut interp, &inputs);
}

#[test]
fn test_read_eval_list() {
    let inputs = vec![
        ("(list? '(1 2))", Value::Boolean(true)),
        ("(list? \"hello\")", Value::Boolean(false)),
        ("(null? '(1 2))')", Value::Boolean(false)),
        ("(null? ())", Value::Boolean(true)),
        ("(car '(1 2))", intval(1)),
        ("(car (cdr '(1 2)))", intval(2)),
    ];
    let mut interp = new_interp();
    check_exprs(&mut interp, &inputs);
}

#[test]
fn test_scenarios_from_printer() {
    let rows = vec![
        ("(* 3 2)", "6"),
        ("(+ (* 2 3) 1 2)", "9"),
        ("((lambda (x) (+ x 1)) 2)", "3"),
        ("((lambda (x y) (+ x y)) 1 2)", "3"),
        ("(if #t 42 0)", "42"),
        ("(if #f 42 0)", "0"),
        ("(/ 4 2)", "2.0"),
        ("(% 10 3)", "1"),
        ("(car '(1 2))", "1"),
        ("(car (cdr '(1 2)))", "2"),
        ("(null? ())", "#t"),
        ("(null? '(1))", "#f"),
    ];
    let mut interp = new_interp();
    for (input, expected) in rows {
        assert_eq!(run_display(&mut interp, input), expected, "for input {}", input);
    }
}

#[test]
fn test_truthiness_everything_but_false() {
    let mut interp = new_interp();
    assert_eq!(run(&mut interp, "(if 1 2 3)").unwrap(), intval(2));
    assert_eq!(run(&mut interp, "(if () 2 3)").unwrap(), intval(2));
    assert_eq!(run(&mut interp, "(if 0 2 3)").unwrap(), intval(2));
    assert_eq!(run(&mut interp, "(if #f 2 3)").unwrap(), intval(3));
}

#[test]
fn test_error_scenarios() {
    let mut interp = new_interp();
    assert!(matches!(
        run(&mut interp, "(set! z 1)"),
        Err(SchemeError::UnboundVariable(_))
    ));
    assert!(matches!(run(&mut interp, "(car 5)"), Err(SchemeError::TypeError(_))));
    assert!(matches!(run(&mut interp, "(if 1 2)"), Err(SchemeError::EvalError(_))));
    assert!(matches!(run(&mut interp, "(+ 1 \"x\")"), Err(SchemeError::TypeError(_))));
    assert!(matches!(run(&mut interp, "(% 1)"), Err(SchemeError::ArgCountError(_))));
    assert!(matches!(run(&mut interp, "(% 1 0)"), Err(SchemeError::EvalError(_))));
    assert!(matches!(
        run(&mut interp, "(+ 9223372036854775807 1)"),
        Err(SchemeError::OverflowError(_))
    ));
    assert!(matches!(
        run(&mut interp, "(exit 99999999999)"),
        Err(SchemeError::OverflowError(_))
    ));
    assert!(matches!(
        read_one(&mut interp, "\"unterminated"),
        Err(SchemeError::SyntaxError(_))
    ));
    assert!(matches!(read_one(&mut interp, "(1 2"), Err(SchemeError::SyntaxError(_))));
    assert!(matches!(read_one(&mut interp, "#q"), Err(SchemeError::SyntaxError(_))));
    assert!(matches!(
        read_one(&mut interp, "9223372036854775808"),
        Err(SchemeError::SyntaxError(_))
    ));
}

#[test]
fn test_define_then_lookup() {
    let mut interp = new_interp();
    assert_eq!(run(&mut interp, "(define x 41)").unwrap(), intval(41));
    assert_eq!(run(&mut interp, "x").unwrap(), intval(41));
    assert_eq!(run(&mut interp, "(define x 42)").unwrap(), intval(42));
    assert_eq!(run(&mut interp, "x").unwrap(), intval(42));
    assert_eq!(run(&mut interp, "(set! x 7)").unwrap(), intval(7));
    assert_eq!(run(&mut interp, "x").unwrap(), intval(7));
}

#[test]
fn test_closure_capture() {
    let mut interp = new_interp();
    run(&mut interp, "(define make-adder (lambda (n) (lambda (x) (+ x n))))").unwrap();
    run(&mut interp, "(define add3 (make-adder 3))").unwrap();
    assert_eq!(run(&mut interp, "(add3 4)").unwrap(), intval(7));
    run(&mut interp, "(define mk (lambda (n) (lambda () (set! n (+ n 1)))))").unwrap();
    run(&mut interp, "(define tick (mk 0))").unwrap();
    assert_eq!(run(&mut interp, "(tick)").unwrap(), intval(1));
    assert_eq!(run(&mut interp, "(tick)").unwrap(), intval(2));
}

#[test]
fn test_argument_order_left_to_right() {
    let mut interp = new_interp();
    let result = run_display(&mut interp, "(list (define a 1) a (define a 2) a)");
    assert_eq!(result, "(1 1 2 2)");
}

#[test]
fn test_reader_printer_round_trip() {
    let inputs = vec![
        "42",
        "-17",
        "0",
        "#t",
        "#f",
        "()",
        "(1 2 3)",
        "(+ x (quote y))",
        "\"hello\"",
        "\"he\\\"llo\\\\there\"",
        "#\\A",
        "#\\space",
        "#\\newline",
        "3.5",
        "-0.5",
        "some-symbol",
    ];
    let mut interp = new_interp();
    for input in inputs {
        let v1 = read_one(&mut interp, input).unwrap();
        let p1 = interp.display(v1);
        let v2 = read_one(&mut interp, &p1).unwrap();
        let p2 = interp.display(v2);
        assert_eq!(p1, p2, "printing is not stable under re-reading for {}", input);
    }
}

#[test]
fn test_cons_and_pairs() {
    let mut interp = new_interp();
    assert_eq!(run_display(&mut interp, "(cons 1 2)"), "(1 . 2)");
    assert_eq!(run_display(&mut interp, "(cons 1 (list 2 3))"), "(1 2 3)");
    assert_eq!(run(&mut interp, "(car (cons 1 2))").unwrap(), intval(1));
    assert_eq!(run(&mut interp, "(cdr (cons 1 2))").unwrap(), intval(2));
    assert_eq!(run_display(&mut interp, "(list)"), "()");
}

#[test]
fn test_opaque_printed_forms() {
    let mut interp = new_interp();
    let prim = run(&mut interp, "+").unwrap();
    let Value::Object(pid) = prim else {
        panic!("a primitive value should be a heap reference");
    };
    assert_eq!(interp.display(prim), format!("<primitive 0x{:x}>", pid));
    let clo = run(&mut interp, "(lambda (x) x)").unwrap();
    let Value::Object(cid) = clo else {
        panic!("a closure value should be a heap reference");
    };
    assert_eq!(interp.display(clo), format!("<closure {}>", cid));
}

#[test]
fn test_remainder_edges() {
    let mut interp = new_interp();
    assert_eq!(run(&mut interp, "(% 10 3)").unwrap(), intval(1));
    assert_eq!(run(&mut interp, "(% -9223372036854775808 -1)").unwrap(), intval(0));
    assert!(matches!(run(&mut interp, "(% 10 0)"), Err(SchemeError::EvalError(_))));
}

#[test]
fn test_exit_status() {
    let mut interp = new_interp();
    assert!(interp.exit_status.is_none());
    run(&mut interp, "(exit 3)").unwrap();
    assert_eq!(interp.exit_status, Some(3));
    let mut interp2 = new_interp();
    run(&mut interp2, "(quit 0)").unwrap();
    assert_eq!(interp2.exit_status, Some(0));
}

#[test]
fn test_quote_and_symbols() {
    let mut interp = new_interp();
    assert_eq!(run_display(&mut interp, "'foo"), "foo");
    assert_eq!(run_display(&mut interp, "'(1 2)"), "(1 2)");
    assert_eq!(run_display(&mut interp, "(quote bar)"), "bar");
    // A keyword name is an ordinary symbol outside operator position.
    assert_eq!(run_display(&mut interp, "'if"), "if");
}

#[test]
fn test_env_shadowing() {
    let mut env = Env::new();
    let inner = env.extend(0);
    env.define(0, 100, intval(1));
    assert_eq!(env.lookup(inner, 100), Some(intval(1)));
    env.define(inner, 100, intval(2));
    assert_eq!(env.lookup(inner, 100), Some(intval(2)));
    assert_eq!(env.lookup(0, 100), Some(intval(1)));
    assert!(env.set_bang(inner, 100, intval(3)).is_ok());
    assert_eq!(env.lookup(inner, 100), Some(intval(3)));
    assert_eq!(env.lookup(0, 100), Some(intval(1)));
    assert!(env.set_bang(0, 555, intval(9)).is_err());
}

#[test]
fn test_define_primitive_extension() {
    let mut interp = new_interp();
    interp.define_primitive("sum", PrimOp::Add);
    assert_eq!(run(&mut interp, "(sum 1 2 3)").unwrap(), intval(6));
}

#[test]
fn test_comments_and_whitespace() {
    let mut interp = new_interp();
    assert_eq!(run(&mut interp, "; a comment\n  (+ 1 2)").unwrap(), intval(3));
    assert_eq!(run(&mut interp, "(+ 1 ; inline\n 2)").unwrap(), intval(3));
}

#[test]
fn test_float_printing() {
    let mut interp = new_interp();
    assert_eq!(run_display(&mut interp, "5."), "5.0");
    assert_eq!(run_display(&mut interp, "(/ 1 2)"), "0.5");
    assert_eq!(run_display(&mut interp, "(+ 1 2.5)"), "3.5");
}
