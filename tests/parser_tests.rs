use monkey::ast::{Expr, ExprStmt, Program, Stmt};
use monkey::lexer;
use monkey::parser::{self, ParseError};
use monkey::token::Type;

fn test_parse_program(input: &str) -> Program {
    let mut l = lexer::new(input);
    let mut p = parser::new(&mut l);
    let program = p.parse_program();
    assert_eq!(p.errors().len(), 0);
    program
}

fn parse_with_errors(input: &str) -> (Program, Vec<ParseError>) {
    let mut l = lexer::new(input);
    let mut p = parser::new(&mut l);
    let program = p.parse_program();
    let mut errors = Vec::new();
    for e in p.errors().iter() {
        errors.push(match e {
            ParseError::UnexpectedToken { expected, got } => {
                ParseError::UnexpectedToken { expected: *expected, got: *got }
            },
            ParseError::NoPrefixRule { got } => ParseError::NoPrefixRule { got: *got },
            ParseError::BadInteger { literal } => {
                ParseError::BadInteger { literal: literal.clone() }
            },
        });
    }
    (program, errors)
}

fn test_expr_stmt(stmt: &Stmt) -> &ExprStmt {
    match stmt {
        Stmt::ExprStmt(es) => es,
        _ => panic!("We parsed other than expression statement."),
    }
}

fn test_int(n: &Expr, expected: i64) {
    match n {
        Expr::Int(int) => assert_eq!(int.val, expected),
        _ => panic!("We parsed other than integer."),
    };
}

fn test_ident(ident: &Expr, expected: &str) {
    match ident {
        Expr::Ident(id) => assert_eq!(id.val, expected),
        _ => panic!("We parsed other than identifer."),
    };
}

#[test]
fn let_stmts() {
    let input = "let x = 5;
            let y = 10;
            let foobar = 838383;";

    let mut l = lexer::new(input);
    let mut p = parser::new(&mut l);
    let program = p.parse_program();

    assert_eq!(program.stmts.len(), 3);

    let idents = ["x", "y", "foobar"];

    let exprs = [5, 10, 838383];

    for (i, stmt) in program.stmts.iter().enumerate() {
        match stmt {
            Stmt::Let(ls) => {
                assert_eq!(ls.token.literal, "let");
                assert_eq!(ls.name.val, idents[i]);
                assert_eq!(ls.name.token.literal, idents[i]);
                test_int(&ls.val, exprs[i]);
            },
            _ => panic!("We parsed other than let statement."),
        }
    }
}

#[test]
fn return_stmts() {
    let input = "return 5;
            return 10;
            return 993322;";
    let expects = [5, 10, 993322];
    let program = test_parse_program(input);

    assert_eq!(program.stmts.len(), 3);

    for (i, stmt) in program.stmts.iter().enumerate() {
        match stmt {
            Stmt::Return(rs) => {
                assert_eq!(rs.token.literal, "return");
                test_int(&rs.val, expects[i]);
            },
            _ => panic!("We parsed other than return statement."),
        }
    }
}

#[test]
fn ident_expr() {
    let input = "foobar;";
    let program = test_parse_program(input);

    assert_eq!(program.stmts.len(), 1);

    let stmt = &program.stmts[0];
    let es = test_expr_stmt(stmt);

    test_ident(&es.expr, "foobar");
}

#[test]
fn int_expr() {
    let input = "5;";
    let program = test_parse_program(input);

    assert_eq!(program.stmts.len(), 1);

    let stmt = &program.stmts[0];
    let es = test_expr_stmt(stmt);

    test_int(&es.expr, 5);
}

#[test]
fn boolean_expr() {
    let inputs = vec!["true;", "false;"];
    let expects = vec![true, false];

    for (i, input) in inputs.iter().enumerate() {
        let program = test_parse_program(input);

        assert_eq!(program.stmts.len(), 1);

        let stmt = &program.stmts[0];
        let es = test_expr_stmt(stmt);

        match &es.expr {
            Expr::Boolean(b) => assert_eq!(b.val, expects[i]),
            _ => panic!("We parsed other than boolean expression."),
        }
    }
}

#[test]
fn if_expr() {
    let inputs = vec!["if (x < y) { x };", "if (x < y) { x } else { y };"];

    let has_alt = vec![false, true];

    for (i, input) in inputs.iter().enumerate() {
        let program = test_parse_program(input);

        assert_eq!(program.stmts.len(), 1);

        let stmt = &program.stmts[0];
        let es = test_expr_stmt(stmt);

        let ifstmt = match &es.expr {
            Expr::If(i) => i,
            _ => panic!("We parsed other than integer."),
        };

        if has_alt[i] {
            assert!(ifstmt.alt.is_some());
        } else {
            assert!(ifstmt.alt.is_none());
        }
    }
}

#[test]
fn fn_expr() {
    let input = "fn(x, y) { x + y; }";
    let program = test_parse_program(input);

    assert_eq!(program.stmts.len(), 1);

    let stmt = &program.stmts[0];
    let es = test_expr_stmt(stmt);

    let f = match &es.expr {
        Expr::Func(f) => f,
        _ => panic!("We parsed other than function expression."),
    };

    assert_eq!(f.params[0].val, "x");
    assert_eq!(f.params[1].val, "y");
}

#[test]
fn call_expr() {
    let input = "add(1, 2 * 3, 4 + 5);";
    let program = test_parse_program(input);

    assert_eq!(program.stmts.len(), 1);

    let stmt = &program.stmts[0];
    let es = test_expr_stmt(stmt);

    let c = match &es.expr {
        Expr::Call(c) => c,
        _ => panic!("We parsed other than function call."),
    };

    test_ident(&*(c.func), "add");
    test_int(&c.args[0], 1);
}

#[test]
fn prefix_exprs() {
    let inputs = vec!["!5;", "-15;"];
    let expect_prefixes = vec!["!", "-"];
    let expect_ints = vec![5, 15];

    for (i, input) in inputs.iter().enumerate() {
        let program = test_parse_program(input);

        assert_eq!(program.stmts.len(), 1);

        let stmt = &program.stmts[0];
        let es = test_expr_stmt(stmt);

        let pre = match &es.expr {
            Expr::Prefix(pre) => pre,
            _ => panic!("We parsed other than prefix expression."),
        };

        assert_eq!(pre.op, expect_prefixes[i]);
        test_int(&*pre.rhs, expect_ints[i]);
    }
}

#[test]
fn infix_exprs() {
    struct Test<'a> {
        input: &'a str,
        lhs: i64,
        op: &'a str,
        rhs: i64,
    }

    let tests: Vec<Test> = vec![
        Test { input: "5+5;", lhs: 5, op: "+", rhs: 5 },
        Test { input: "5-5;", lhs: 5, op: "-", rhs: 5 },
        Test { input: "5*5;", lhs: 5, op: "*", rhs: 5 },
        Test { input: "5/5;", lhs: 5, op: "/", rhs: 5 },
        Test { input: "5>5;", lhs: 5, op: ">", rhs: 5 },
        Test { input: "5<5;", lhs: 5, op: "<", rhs: 5 },
        Test { input: "5==5;", lhs: 5, op: "==", rhs: 5 },
        Test { input: "5!=5;", lhs: 5, op: "!=", rhs: 5 },
    ];

    for test in tests.iter() {
        let program = test_parse_program(&test.input);
        assert_eq!(program.stmts.len(), 1);

        let stmt = &program.stmts[0];
        let es = test_expr_stmt(stmt);

        let i = match &es.expr {
            Expr::Infix(i) => i,
            _ => panic!("We parsed other than infix expression."),
        };

        test_int(&*(i.lhs), test.lhs);
        test_int(&*(i.rhs), test.rhs);
        assert_eq!(i.op, test.op);
    }
}

#[test]
fn operator_precedence() {
    struct Test<'a> {
        input: &'a str,
        expected: &'a str,
    }

    let tests: Vec<Test> = vec![
        Test { input: "true", expected: "true" },
        Test { input: "false", expected: "false" },
        Test { input: "3 > 5 == false", expected: "((3 > 5) == false)" },
        Test { input: "3 < 5 == true", expected: "((3 < 5) == true)" },
        Test { input: "1 + (2 + 3) + 4", expected: "((1 + (2 + 3)) + 4)" },
        Test { input: "(2 + 5) * 4", expected: "((2 + 5) * 4)" },
        Test { input: "2 / (5 + 4)", expected: "(2 / (5 + 4))" },
        Test { input: "-(5 + 4)", expected: "(-(5 + 4))" },
        Test { input: "!(true + true)", expected: "(!(true + true))" },
        Test { input: "a + add(b * c) + d", expected: "((a + add((b * c))) + d)" },
        Test {
            input: "add(a, b, 1, 2 * 3, 4 + 5, add(6, 7 * 8))",
            expected: "add(a, b, 1, (2 * 3), (4 + 5), add(6, (7 * 8)))",
        },
        Test {
            input: "add(a + b + c * d / f + g)",
            expected: "add((((a + b) + ((c * d) / f)) + g))",
        },
    ];

    for test in tests.iter() {
        let program = test_parse_program(&test.input);
        let stmt = &program.stmts[0];
        let stmt_str = stmt.render();
        assert_eq!(stmt_str, test.expected);
    }
}

#[test]
fn prefix_binds_tighter_than_sum() {
    let program = test_parse_program("-5 + 4");
    assert_eq!(program.stmts[0].render(), "((-5) + 4)");
    let program = test_parse_program("a * b - c / d < e == !f");
    assert_eq!(program.stmts[0].render(), "((((a * b) - (c / d)) < e) == (!f))");
}

#[test]
fn let_without_identifier_is_reported() {
    let (program, errors) = parse_with_errors("let = 5;");
    assert!(matches!(
        errors[0],
        ParseError::UnexpectedToken { expected: Type::Ident, got: Type::Assign }
    ));
    // the failed statement yields no node; parsing goes on from the next token
    for stmt in program.stmts.iter() {
        assert!(!matches!(stmt, Stmt::Let(_)));
    }
}

#[test]
fn let_without_assign_is_reported() {
    let (program, errors) = parse_with_errors("let x 5; let y = 7;");
    assert!(matches!(
        errors[0],
        ParseError::UnexpectedToken { expected: Type::Assign, got: Type::Int }
    ));
    let last = program.stmts.last().unwrap();
    match last {
        Stmt::Let(l) => {
            assert_eq!(l.name.val, "y");
            test_int(&l.val, 7);
        },
        _ => panic!("the later statement was not parsed"),
    }
}

#[test]
fn token_without_prefix_rule_is_reported() {
    let (program, errors) = parse_with_errors(")");
    assert_eq!(program.stmts.len(), 0);
    assert_eq!(errors.len(), 1);
    assert!(matches!(errors[0], ParseError::NoPrefixRule { got: Type::Rparen }));
}

#[test]
fn oversized_integer_is_reported() {
    let (program, errors) = parse_with_errors("9223372036854775808;");
    assert_eq!(program.stmts.len(), 0);
    match &errors[0] {
        ParseError::BadInteger { literal } => assert_eq!(literal, "9223372036854775808"),
        _ => panic!("expected an integer error"),
    }
    let program = test_parse_program("9223372036854775807;");
    test_int(&test_expr_stmt(&program.stmts[0]).expr, i64::MAX);
}

#[test]
fn unclosed_block_and_call_are_reported() {
    let (_, errors) = parse_with_errors("if (x) { 1");
    assert!(matches!(
        errors.last().unwrap(),
        ParseError::UnexpectedToken { expected: Type::Rbrace, got: Type::Eof }
    ));
    let (_, errors) = parse_with_errors("f(1, 2");
    assert!(matches!(
        errors.last().unwrap(),
        ParseError::UnexpectedToken { expected: Type::Rparen, got: Type::Eof }
    ));
    let (_, errors) = parse_with_errors("fn(x, 1) { x }");
    assert!(matches!(
        errors[0],
        ParseError::UnexpectedToken { expected: Type::Ident, got: Type::Int }
    ));
}

#[test]
fn rendering_reparses_to_the_same_tree() {
    let inputs = [
        "let a = 5; let b = a * (2 + 3); b;",
        "if (1 < 2) { 10 } else { 20 }",
        "let f = fn(x, y) { let z = x + y; return z * 2; }; f(1, 2);",
        "let newAdder = fn(x) { fn(y) { x + y; }; }; let addTwo = newAdder(2); addTwo(3);",
        "!-a; -(5 + 4) * 3; add(a, b, 1, 2 * 3, 4 + 5, add(6, 7 * 8))",
        "if (x) { if (y) { return 1; } return 2; }",
    ];
    for input in inputs.iter() {
        let first = test_parse_program(input);
        let text = first.render();
        let second = test_parse_program(&text);
        assert_eq!(second.render(), text);
        assert_eq!(first.stmts.len(), second.stmts.len());
    }
}

#[test]
fn program_rendering_closes_expression_statements() {
    let program = test_parse_program("let x = 1; x; return x;");
    assert_eq!(program.render(), "let x = 1; x; return x;");
    let program = test_parse_program("fn(x, y) { x + y; }");
    assert_eq!(program.render(), "fn(x, y) { (x + y); };");
    let program = test_parse_program("if (a) { b } else { c }");
    assert_eq!(program.render(), "if (a) { b; } else { c; };");
}

#[test]
fn errors_read_as_messages() {
    let (_, errors) = parse_with_errors("let = 5;");
    assert_eq!(errors[0].message(), "expected next token to be identifier, got `=` instead");
    let (_, errors) = parse_with_errors(")");
    assert_eq!(errors[0].message(), "no expression can start with `)`");
    let (_, errors) = parse_with_errors("99999999999999999999");
    assert_eq!(errors[0].message(), "could not parse 99999999999999999999 as an integer");
}

#[test]
fn parser_pulls_two_tokens_at_start() {
    let mut l = lexer::new("a b c");
    let p = parser::new(&mut l);
    let next = l.next_token();
    assert_eq!(next.t, Type::Ident);
    assert_eq!(next.literal, "c");
    assert_eq!(p.errors().len(), 0);
}
