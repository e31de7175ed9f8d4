use monkey::ast::Node;
use monkey::eval::{eval, EvalError};
use monkey::lexer;
use monkey::object::{Int, Object};
use monkey::parser;

fn try_eval(input: &str) -> Result<Object, EvalError> {
    let mut l = lexer::new(&input);
    let mut p = parser::new(&mut l);
    let program = p.parse_program();
    assert_eq!(p.errors().len(), 0);
    let mut env = monkey::env::new();
    eval(Node::Program(program), &mut env)
}

fn test_eval(input: &str) -> Object {
    match try_eval(input) {
        Ok(obj) => obj,
        Err(e) => panic!("evaluation failed: {:?}", e),
    }
}

fn test_int(obj: Object, expected: i64) {
    match obj {
        Object::Int(i) => assert_eq!(i.val, expected),
        _ => panic!("We evaled other than integer."),
    };
}

fn test_bool(obj: Object, expected: bool) {
    match obj {
        Object::Bool(b) => assert_eq!(b.val, expected),
        _ => panic!("We evaled other than boolean."),
    };
}

fn test_null(obj: Object) {
    match obj {
        Object::Null(_) => return,
        _ => panic!("We evaled other than null."),
    };
}

#[test]
fn eval_return() {
    struct Test<'a> {
        input: &'a str,
        expected: i64,
    }

    let tests: Vec<Test> = vec![
        Test { input: "return 10;", expected: 10 },
        Test { input: "return 10; 11;", expected: 10 },
        Test { input: "return 2 * 5; 11;", expected: 10 },
        Test { input: "9; return 2 * 5; 11;", expected: 10 },
        Test {
            input: "
                if (10 > 1) {
                    if (10 > 1) {
                        return 10;
                    }
                    return 1;
                }",
            expected: 10,
        },
    ];

    for test in tests.iter() {
        let evaled = test_eval(test.input);
        test_int(evaled, test.expected);
    }
}

#[test]
fn eval_let() {
    struct Test<'a> {
        input: &'a str,
        expected: i64,
    }

    let tests: Vec<Test> = vec![
        Test { input: "let a = 5; a;", expected: 5 },
        Test { input: "let a = 5 * 5; a;", expected: 25 },
        Test { input: "let a = 5; let b = a; b;", expected: 5 },
        Test { input: "let a = 5; let b = a; let c = a + b + 5; c;", expected: 15 },
    ];

    for test in tests.iter() {
        let evaled = test_eval(test.input);
        test_int(evaled, test.expected);
    }
}

#[test]
fn eval_int() {
    struct Test<'a> {
        input: &'a str,
        expected: i64,
    }

    let tests: Vec<Test> = vec![
        Test { input: "5", expected: 5 },
        Test { input: "10", expected: 10 },
        Test { input: "-5", expected: -5 },
        Test { input: "10", expected: 10 },
        Test { input: "5 + 5 + 5 - 5", expected: 10 },
        Test { input: "2 * 2 * 2 * 2", expected: 16 },
        Test { input: "2 + 3 * 4", expected: 14 },
        Test { input: "2 * 3 + 4", expected: 10 },
        Test { input: "-10 + 100 + -10", expected: 80 },
        Test { input: "50 / 2 * 2 + 10", expected: 60 },
        Test { input: "2 * (5 + 10)", expected: 30 },
        Test { input: "3 * 3 * 3 + 10", expected: 37 },
        Test { input: "3 * (3 * 3) + 10", expected: 37 },
        Test { input: "(5 + 10 * 2 + 15 / 3) * 2 + -10", expected: 50 },
    ];

    for test in tests.iter() {
        let evaled = test_eval(test.input);
        test_int(evaled, test.expected);
    }
}

#[test]
fn eval_bool() {
    struct Test<'a> {
        input: &'a str,
        expected: bool,
    }

    let tests: Vec<Test> = vec![
        Test { input: "true", expected: true },
        Test { input: "false", expected: false },
        Test { input: "1 < 2", expected: true },
        Test { input: "1 > 2", expected: false },
        Test { input: "1 < 1", expected: false },
        Test { input: "1 < 1", expected: false },
        Test { input: "1 == 1", expected: true },
        Test { input: "1 != 1", expected: false },
        Test { input: "1 == 2", expected: false },
        Test { input: "1 != 2", expected: true },
        Test { input: "true == true", expected: true },
        Test { input: "false == false", expected: true },
        Test { input: "true == false", expected: false },
        Test { input: "true != false", expected: true },
        Test { input: "false != true", expected: true },
        Test { input: "(1 < 2) == true", expected: true },
        Test { input: "(1 < 2) == false", expected: false },
        Test { input: "(1 > 2) == true", expected: false },
        Test { input: "(1 > 2) == false", expected: true },
    ];

    for test in tests.iter() {
        let evaled = test_eval(test.input);
        test_bool(evaled, test.expected);
    }
}

#[test]
fn eval_bang() {
    struct Test<'a> {
        input: &'a str,
        expected: bool,
    }

    let tests: Vec<Test> = vec![
        Test { input: "!true", expected: false },
        Test { input: "!false", expected: true },
        Test { input: "!!true", expected: true },
        Test { input: "!!false", expected: false },
        Test { input: "!5", expected: false },
        Test { input: "!!5", expected: true },
    ];

    for test in tests.iter() {
        let evaled = test_eval(test.input);
        test_bool(evaled, test.expected);
    }
}

#[test]
fn eval_if() {
    struct Test<'a> {
        input: &'a str,
        expected: i64,
    }

    let tests: Vec<Test> = vec![
        Test { input: "if (true) { 10 }", expected: 10 },
        Test { input: "if (1) { 10 }", expected: 10 },
        Test { input: "if (1 < 2) { 10 }", expected: 10 },
        Test { input: "if (1 < 2) { 10 } else { 20 }", expected: 10 },
        Test { input: "if (1 > 2) { 10 } else { 20 }", expected: 20 },
    ];

    for test in tests.iter() {
        let evaled = test_eval(test.input);
        test_int(evaled, test.expected);
    }

    let inputs = vec!["if (false) { 10 }", "if (1 > 2) { 10 }"];
    for input in inputs.iter() {
        let evaled = test_eval(input);
        test_null(evaled);
    }
}

#[test]
fn closures_capture_their_environment() {
    let input = "let newAdder = fn(x) { fn(y) { x + y; }; };
        let addTwo = newAdder(2);
        addTwo(3);";
    test_int(test_eval(input), 5);
}

#[test]
fn closure_sees_later_bindings_of_its_frame() {
    test_int(test_eval("let x = 1; let f = fn() { x }; let x = 2; f();"), 2);
}

#[test]
fn call_frame_does_not_leak_into_caller() {
    test_int(test_eval("let x = 1; let f = fn(x) { let y = x * 10; y }; f(5) + x;"), 51);
    test_null(test_eval("let f = fn() { let hidden = 3; hidden }; f(); hidden;"));
}

#[test]
fn scoping_is_lexical_not_dynamic() {
    let input = "let x = 10;
        let f = fn() { x };
        let g = fn(x) { f() };
        g(99);";
    test_int(test_eval(input), 10);
}

#[test]
fn return_leaves_only_the_function() {
    test_int(test_eval("let f = fn() { if (true) { return 1; } 2; }; f() + 10;"), 11);
}

#[test]
fn recursion_through_global_binding() {
    let input = "let fib = fn(n) { if (n < 2) { n } else { fib(n - 1) + fib(n - 2) } };
        fib(15);";
    test_int(test_eval(input), 610);
}

#[test]
fn arity_mismatch_is_an_error() {
    let r = try_eval("let f = fn(x) { x; }; f(1, 2);");
    assert_eq!(r.unwrap_err(), EvalError::ArityMismatch { expected: 1, got: 2 });
}

#[test]
fn division_by_zero_is_an_error() {
    assert_eq!(try_eval("5 / 0").unwrap_err(), EvalError::DivisionByZero);
    assert_eq!(try_eval("let a = 1; a / (a - 1); 7").unwrap_err(), EvalError::DivisionByZero);
}

#[test]
fn recursion_deeper_than_a_hundred_calls() {
    let input = "let count = fn(n) { if (n == 0) { 0 } else { 1 + count(n - 1) } };
        count(150);";
    test_int(test_eval(input), 150);
}

#[test]
fn return_signal_is_unwrapped_once_at_program() {
    test_int(test_eval("return if (true) { return 5; };"), 5);
    test_int(test_eval("1 + if (true) { return 5; }; 7"), 5);
    test_int(test_eval("-if (true) { return 4; }"), 4);
}

#[test]
fn return_signal_is_unwrapped_once_at_call() {
    test_int(test_eval("let f = fn() { return if (true) { return 1; }; }; f() + 1"), 2);
    test_int(test_eval("let g = fn(x) { x }; let f = fn() { g(if (true) { return 3; }) }; f()"), 3);
}

#[test]
fn return_signal_is_never_bound() {
    let mut l = lexer::new("let x = if (true) { return 5; }; 9");
    let mut p = parser::new(&mut l);
    let program = p.parse_program();
    let mut env = monkey::env::new();
    test_int(eval(Node::Program(program), &mut env).unwrap(), 5);
    assert!(env.get(String::from("x")).is_none());
}

#[test]
fn permissive_cases_give_null() {
    test_null(test_eval("missing"));
    test_null(test_eval("-true"));
    test_null(test_eval("5(1)"));
    test_null(test_eval("(fn(x) { x }) + 1"));
    test_bool(test_eval("!missing"), true);
}

#[test]
fn booleans_count_as_integers_in_arithmetic() {
    test_int(test_eval("true + true"), 2);
    test_int(test_eval("10 * false"), 0);
    test_bool(test_eval("true == 1"), true);
}

#[test]
fn arithmetic_wraps_and_division_truncates() {
    test_int(test_eval("9223372036854775807 + 1"), i64::MIN);
    test_int(test_eval("-7 / 2"), -3);
    test_int(test_eval("7 / -2"), -3);
    test_int(test_eval("let m = -9223372036854775807 - 1; m / -1"), i64::MIN);
    test_int(test_eval("let m = -9223372036854775807 - 1; -m"), i64::MIN);
}

#[test]
fn integer_expression_ignores_environment() {
    let mut l = lexer::new("2 * (3 + 4) - -1");
    let mut p = parser::new(&mut l);
    let program = p.parse_program();
    let mut env1 = monkey::env::new();
    env1.set(String::from("x"), Object::Int(Int { val: 40 }));
    let r1 = eval(Node::Program(program), &mut env1).unwrap();
    let mut l = lexer::new("2 * (3 + 4) - -1");
    let mut p = parser::new(&mut l);
    let program = p.parse_program();
    let mut env2 = monkey::env::new();
    let r2 = eval(Node::Program(program), &mut env2).unwrap();
    test_int(r1, 15);
    test_int(r2, 15);
    assert_eq!(env1.frames(), 1);
    assert!(env2.get(String::from("x")).is_none());
}

#[test]
fn environment_persists_across_programs() {
    let mut env = monkey::env::new();
    for (input, expected) in [("let a = 5;", 5), ("let b = a * 2;", 10), ("a + b", 15)].iter() {
        let mut l = lexer::new(input);
        let mut p = parser::new(&mut l);
        let program = p.parse_program();
        test_int(eval(Node::Program(program), &mut env).unwrap(), *expected);
    }
    match env.get(String::from("b")) {
        Some(Object::Int(i)) => assert_eq!(i.val, 10),
        _ => panic!("b is not bound to an integer"),
    }
}

#[test]
fn set_shadows_and_get_reads_latest() {
    let mut env = monkey::env::new();
    assert!(env.get(String::from("a")).is_none());
    env.set(String::from("a"), Object::Int(Int { val: 1 }));
    env.set(String::from("a"), Object::Int(Int { val: 2 }));
    match env.get(String::from("a")) {
        Some(Object::Int(i)) => assert_eq!(i.val, 2),
        _ => panic!("a is not bound to an integer"),
    }
}

#[test]
fn values_render() {
    assert_eq!(test_eval("-42").render(), "-42");
    assert_eq!(test_eval("0").render(), "0");
    assert_eq!(test_eval("1 < 2").render(), "true");
    assert_eq!(test_eval("if (false) { 1 }").render(), "null");
    assert_eq!(test_eval("fn(x, y) { x + y; }").render(), "fn(x, y) { (x + y); }");
    assert_eq!(test_eval("-9223372036854775807 - 1").render(), "-9223372036854775808");
}

#[test]
fn pure_expression_depends_only_on_bindings() {
    let src = "if (x > 1) { x * 2 } else { return 0; }";
    let mut results = Vec::new();
    for extra in [false, true].iter() {
        let mut env = monkey::env::new();
        if *extra {
            env.set(String::from("unused"), Object::Int(Int { val: 7 }));
        }
        env.set(String::from("x"), Object::Int(Int { val: 5 }));
        let mut l = lexer::new(src);
        let mut p = parser::new(&mut l);
        let program = p.parse_program();
        let frames_before = env.frames();
        let r = eval(Node::Program(program), &mut env).unwrap();
        assert_eq!(env.frames(), frames_before);
        match env.get(String::from("x")) {
            Some(Object::Int(i)) => assert_eq!(i.val, 5),
            _ => panic!("x changed"),
        }
        results.push(r);
    }
    for r in results.into_iter() {
        test_int(r, 10);
    }
}
