//! Tests of the statement/block parser: `let` and `return` statements,
//! function literals, and call expressions.

use script_front::ast::{Expression, Statement};
use script_front::parser::Parser;
use script_front::pratt::ParseErrorKind;

#[test]
fn test_let_statement() {
    let tests = vec![
        (
            "let x = 5;",
            Statement::Let { name: String::from("x"), value: Expression::Int(5) },
        ),
        (
            "let y = true;",
            Statement::Let { name: String::from("y"), value: Expression::Boolean(true) },
        ),
        (
            "let foobar = y;",
            Statement::Let {
                name: String::from("foobar"),
                value: Expression::Ident(String::from("y")),
            },
        ),
    ];

    for (input, expected_ast) in tests {
        let statement = Parser::new(String::from(input)).unwrap().parse_statement().unwrap();
        println!("Test: {:?}\n\nGot: {:?}\n\n\n", expected_ast, statement);
        assert!(matches!(statement, Statement::Let { .. }));
        assert_eq!(statement, expected_ast);
    }
}

#[test]
fn parser_test_let_statement() {
    let input = "let test = 5;";
    let statement = Parser::new(String::from(input)).unwrap().parse_statement().unwrap();
    assert_eq!(
        statement,
        Statement::Let { name: String::from("test"), value: Expression::Int(5) }
    );
}

#[test]
fn test_return_statements() {
    let tests = vec![
        ("return 5;", Expression::Int(5)),
        ("return true;", Expression::Boolean(true)),
    ];

    for (input, expected_value) in tests {
        let statement = Parser::new(String::from(input)).unwrap().parse_statement().unwrap();
        match statement {
            Statement::Return(value) => {
                assert_eq!(expected_value, value);
            },
            _ => panic!(),
        }
    }
}

#[test]
fn test_function_parameter_parsing() {
    let tests: Vec<(&str, Vec<String>)> = vec![
        ("fn() {};", Vec::new()),
        ("fn(x) {};", vec![String::from("x")]),
        (
            "fn(x, y, z) {};",
            vec![String::from("x"), String::from("y"), String::from("z")],
        ),
    ];

    for (i, (input, expected_parameters)) in tests.iter().enumerate() {
        println!("{}", i);
        let expression = Parser::new(String::from(*input)).unwrap().parse_expression().unwrap();
        match expression {
            Expression::Function { ref params, .. } => {
                println!("Expected length {}, got {} !", expected_parameters.len(), params.len());
                assert_eq!(params.len(), expected_parameters.len());
                expected_parameters.iter().zip(params.iter()).for_each(|(expected, got)| {
                    println!("Expected: {}\nGot: {}\n\n", expected, got);
                    assert_eq!(expected, got);
                });
            },
            _ => panic!(),
        }
    }
}

#[test]
fn test_call_expression_parsing() {
    let input = String::from("add(1, foobar, { 45; }); rec()(1);");
    let mut pars = Parser::new(input).unwrap();
    let stmnt_1 = pars.parse_statement().unwrap();
    match stmnt_1 {
        Statement::Expr(Expression::CallExpression { parameters, lambda }) => {
            println!("Parameters: {:?}", parameters);
            println!("Lambda: {:?}", *lambda);
            assert_eq!(
                parameters,
                vec![
                    Expression::Int(1),
                    Expression::Ident(String::from("foobar")),
                    Expression::BlockExpression(vec![Statement::Expr(Expression::Int(45))]),
                ]
            );
            assert_eq!(*lambda, Expression::Ident(String::from("add")));
        },
        _ => panic!(),
    };
    let stmnt_2 = pars.parse_statement().unwrap();
    match stmnt_2 {
        Statement::Expr(Expression::CallExpression { parameters, lambda }) => {
            println!("Parameters: {:?}", parameters);
            println!("Lambda: {:?}", *lambda);
            assert_eq!(parameters, vec![Expression::Int(1)]);
            match *lambda {
                Expression::CallExpression { parameters, lambda } => {
                    assert_eq!(parameters, vec![]);
                    match *lambda {
                        Expression::Ident(ident) => {
                            assert_eq!(ident, String::from("rec"));
                        },
                        _ => assert!(false),
                    }
                },
                _ => assert!(false),
            }
        },
        _ => assert!(false),
    }
}

#[test]
fn test_parse_program_statements() {
    let mut pars = Parser::new(String::from("let a = 1; return a; a;")).unwrap();
    let program = pars.parse_program().unwrap();
    assert_eq!(
        program.global,
        vec![
            Statement::Let { name: String::from("a"), value: Expression::Int(1) },
            Statement::Return(Expression::Ident(String::from("a"))),
            Statement::Expr(Expression::Ident(String::from("a"))),
        ]
    );
}

#[test]
fn test_empty_program() {
    let mut pars = Parser::new(String::new()).unwrap();
    let program = pars.parse_program().unwrap();
    assert_eq!(program.global, Vec::<Statement>::new());
}

#[test]
fn test_nested_blocks_balance() {
    let mut pars = Parser::new(String::from("{ { 1; } { 2; } }")).unwrap();
    let program = pars.parse_program().unwrap();
    assert_eq!(
        program.global,
        vec![Statement::Expr(Expression::BlockExpression(vec![
            Statement::Expr(Expression::BlockExpression(vec![Statement::Expr(
                Expression::Int(1)
            )])),
            Statement::Expr(Expression::BlockExpression(vec![Statement::Expr(
                Expression::Int(2)
            )])),
        ]))]
    );
}

#[test]
fn test_let_missing_terminator() {
    let err = Parser::new(String::from("let x = 5")).unwrap().parse_statement().unwrap_err();
    assert_eq!(err.kind, ParseErrorKind::MissingTerminator);
    assert_eq!(err.pos, 4);
}

#[test]
fn test_unmatched_group() {
    let err = Parser::new(String::from("(1 + 2")).unwrap().parse_expression().unwrap_err();
    assert_eq!(err.kind, ParseErrorKind::UnmatchedGroup);
    assert_eq!(err.pos, 4);
}

#[test]
fn test_input_ends_awaiting_operand() {
    let err = Parser::new(String::from("1 +")).unwrap().parse_expression().unwrap_err();
    assert_eq!(err.kind, ParseErrorKind::UnexpectedEnd);
    assert_eq!(err.pos, 2);
}

#[test]
fn test_input_ends_inside_block() {
    let err = Parser::new(String::from("{ 1;")).unwrap().parse_expression().unwrap_err();
    assert_eq!(err.kind, ParseErrorKind::UnmatchedGroup);
    assert_eq!(err.pos, 3);
}

#[test]
fn test_two_consecutive_literals_rejected() {
    let err = Parser::new(String::from("1 2;")).unwrap().parse_statement().unwrap_err();
    assert_eq!(err.kind, ParseErrorKind::MissingTerminator);
    assert_eq!(err.pos, 1);
}

#[test]
fn test_empty_expression_is_unit() {
    let e = Parser::new(String::new()).unwrap().parse_expression().unwrap();
    assert_eq!(e, Expression::Unit);
}
