//! Scenario tests: precedence, associativity, grouping, shadowing,
//! unresolved references, malformed input, and the print/re-parse round
//! trip on concrete expressions.

use script_front::ast::{Expression, InfixOperator, Operator, PrefixOperator, Statement};
use script_front::token::Token;
use script_front::context::{resolve_program, Identifier};
use script_front::parser::Parser;
use script_front::pratt::ParseErrorKind;

fn parse_expr(input: &str) -> Expression {
    Parser::new(String::from(input)).unwrap().parse_expression().unwrap()
}

/// A tiny conceptual evaluator over integer expressions, for checking that
/// two different trees compute different values.
fn eval(e: &Expression) -> isize {
    match e {
        Expression::Int(n) => *n,
        Expression::PrefixExpression { operator, right } => {
            let r = eval(right);
            match operator {
                Operator::Prefix(PrefixOperator::Minus) => -r,
                Operator::Prefix(PrefixOperator::Plus) => r,
                _ => panic!(),
            }
        },
        Expression::InfixExpression { left, op, right } => {
            let l = eval(left);
            let r = eval(right);
            match op {
                Operator::Infix(InfixOperator::Plus) => l + r,
                Operator::Infix(InfixOperator::Minus) => l - r,
                Operator::Infix(InfixOperator::Mul) => l * r,
                Operator::Infix(InfixOperator::Div) => l / r,
                _ => panic!(),
            }
        },
        _ => panic!(),
    }
}

#[test]
fn test_prefix_precedence() {
    // "-a * b" parses so that unary minus binds tighter than multiplication.
    let e = parse_expr("-a * b");
    assert_eq!(
        e,
        Expression::InfixExpression {
            left: Box::new(Expression::PrefixExpression {
                operator: Operator::Prefix(PrefixOperator::Minus),
                right: Box::new(Expression::Ident(String::from("a"))),
            }),
            op: Operator::Infix(InfixOperator::Mul),
            right: Box::new(Expression::Ident(String::from("b"))),
        }
    );
}

#[test]
fn test_left_associativity() {
    // "a - b - c" parses left-associatively: (a - b) - c.
    let e = parse_expr("a - b - c");
    assert_eq!(
        e,
        Expression::InfixExpression {
            left: Box::new(Expression::InfixExpression {
                left: Box::new(Expression::Ident(String::from("a"))),
                op: Operator::Infix(InfixOperator::Minus),
                right: Box::new(Expression::Ident(String::from("b"))),
            }),
            op: Operator::Infix(InfixOperator::Minus),
            right: Box::new(Expression::Ident(String::from("c"))),
        }
    );
}

#[test]
fn test_grouping_changes_the_tree() {
    let grouped = parse_expr("(1 + 2) * 3");
    let plain = parse_expr("1 + 2 * 3");
    assert_ne!(grouped, plain);
    assert_eq!(eval(&grouped), 9);
    assert_eq!(eval(&plain), 7);
}

#[test]
fn test_shadowing() {
    // The inner reference to x resolves to the inner declaration.
    let mut pars = Parser::new(String::from("{ let x = 1; { let x = 2; x } }")).unwrap();
    let program = pars.parse_program().unwrap();
    let res = resolve_program(&program);
    assert_eq!(res.errors.len(), 0);
    assert_eq!(res.refs.len(), 1);
    assert_eq!(res.refs[0].name, String::from("x"));
    let target = res.refs[0].target.unwrap();
    // Arena: 0 the outermost scope, 1 the outer block, 2 the inner block.
    assert_eq!(target, Identifier { context: 2, slot: 0 });
    assert_eq!(res.arena.contexts[2].idents, vec![String::from("x")]);
    assert_eq!(res.arena.contexts[2].parent, Some(1));

    // After the inner block ends, a reference in the outer block resolves to
    // the outer declaration.
    let mut pars = Parser::new(String::from("{ let x = 1; { let x = 2; x } x }")).unwrap();
    let program = pars.parse_program().unwrap();
    let res = resolve_program(&program);
    assert_eq!(res.errors.len(), 0);
    assert_eq!(res.refs.len(), 2);
    assert_eq!(res.refs[0].target.unwrap(), Identifier { context: 2, slot: 0 });
    assert_eq!(res.refs[1].target.unwrap(), Identifier { context: 1, slot: 0 });
}

#[test]
fn test_shadowing_inside_one_scope() {
    // Re-declaration in one block appends a higher slot; lookup takes it.
    let mut pars = Parser::new(String::from("let x = 1; let x = 2; x")).unwrap();
    let program = pars.parse_program().unwrap();
    let res = resolve_program(&program);
    assert_eq!(res.errors.len(), 0);
    assert_eq!(res.refs.len(), 1);
    assert_eq!(res.refs[0].target.unwrap(), Identifier { context: 0, slot: 1 });
    assert_eq!(res.arena.contexts[0].idents, vec![String::from("x"), String::from("x")]);
}

#[test]
fn test_unresolved_reference() {
    // "x + 1" with no declaration of x: exactly one resolution error naming
    // x, not a parse error.
    let mut pars = Parser::new(String::from("x + 1")).unwrap();
    let program = pars.parse_program().unwrap();
    let res = resolve_program(&program);
    assert_eq!(res.errors.len(), 1);
    assert_eq!(res.errors[0].name, String::from("x"));
    assert_eq!(res.refs.len(), 1);
    assert!(res.refs[0].target.is_none());
}

#[test]
fn test_reference_before_declaration_is_unresolved() {
    let mut pars = Parser::new(String::from("x; let x = 1;")).unwrap();
    let program = pars.parse_program().unwrap();
    let res = resolve_program(&program);
    assert_eq!(res.errors.len(), 1);
    assert_eq!(res.errors[0].name, String::from("x"));
}

#[test]
fn test_malformed_let_statement() {
    // "let x = ;" is a parse error at the position of ';' and yields no
    // partial syntax tree.
    let r = Parser::new(String::from("let x = ;")).unwrap().parse_program();
    let err = r.unwrap_err();
    assert_eq!(err.kind, ParseErrorKind::UnexpectedToken);
    assert_eq!(err.pos, 3);
}

#[test]
fn test_round_trip_concrete() {
    for input in ["-a * b", "a - b - c", "(1 + 2) * 3", "1 + 2 * 3", "!(a == b)", "0x1F + 0b101"] {
        let e = parse_expr(input);
        let printed = e.string();
        let e2 = parse_expr(printed.as_str());
        assert_eq!(e, e2);
    }
}

#[test]
fn test_printed_form() {
    let e = parse_expr("-a * b");
    assert_eq!(e.string(), String::from("( ( - a ) * b ) "));
}

#[test]
fn test_get_name() {
    let mut pars = Parser::new(String::from("let answer = 42; answer")).unwrap();
    let program = pars.parse_program().unwrap();
    let res = resolve_program(&program);
    let target = res.refs[0].target.unwrap();
    assert_eq!(target.get_name(&res.arena), Some(String::from("answer")));
    let bogus = Identifier { context: 7, slot: 0 };
    assert_eq!(bogus.get_name(&res.arena), None);
}

#[test]
fn test_operator_arity() {
    assert_eq!(Operator::Prefix(PrefixOperator::Bang).number_of_parameters(), 1);
    assert_eq!(Operator::Infix(InfixOperator::Plus).number_of_parameters(), 2);
}

#[test]
fn test_assignment_is_right_associative() {
    let e = parse_expr("a = b = c");
    assert_eq!(
        e,
        Expression::InfixExpression {
            left: Box::new(Expression::Ident(String::from("a"))),
            op: Operator::Infix(InfixOperator::Assign),
            right: Box::new(Expression::InfixExpression {
                left: Box::new(Expression::Ident(String::from("b"))),
                op: Operator::Infix(InfixOperator::Assign),
                right: Box::new(Expression::Ident(String::from("c"))),
            }),
        }
    );
}

#[test]
fn test_comparison_precedence() {
    // "5 > 4 == 3 < 4" parses as ((5 > 4) == (3 < 4)).
    let e = parse_expr("5 > 4 == 3 < 4");
    assert_eq!(
        e,
        Expression::InfixExpression {
            left: Box::new(Expression::InfixExpression {
                left: Box::new(Expression::Int(5)),
                op: Operator::Infix(InfixOperator::GreaterThan),
                right: Box::new(Expression::Int(4)),
            }),
            op: Operator::Infix(InfixOperator::Equal),
            right: Box::new(Expression::InfixExpression {
                left: Box::new(Expression::Int(3)),
                op: Operator::Infix(InfixOperator::LowerThan),
                right: Box::new(Expression::Int(4)),
            }),
        }
    );
}

#[test]
fn test_block_as_expression_statement() {
    let stmt = Parser::new(String::from("{ 45; }"))
        .unwrap()
        .parse_statement()
        .unwrap();
    assert_eq!(
        stmt,
        Statement::Expr(Expression::BlockExpression(vec![Statement::Expr(Expression::Int(45))]))
    );
}

#[test]
fn test_token_literals() {
    assert_eq!(Token::Int(0).literal(), String::from("0"));
    assert_eq!(Token::Int(90210).literal(), String::from("90210"));
    assert_eq!(Token::Int(-37).literal(), String::from("-37"));
    assert_eq!(Token::Ident(String::from("abc")).literal(), String::from("abc"));
    assert_eq!(Token::Boolean(true).literal(), String::from("true"));
    assert_eq!(Token::GreaterThanOrEqualTo.literal(), String::from(">="));
    assert_eq!(Token::Function.literal(), String::from("fn"));
    assert_eq!(Token::Illegal('#').literal(), String::from("#"));
    assert_eq!(Token::EndOfFile.literal(), String::new());
}

#[test]
fn test_round_trip_twice_is_stable() {
    // Printing a re-parsed printed expression prints the same text again.
    let e = parse_expr("1 + 2 * -3 <= 4 == !true");
    let printed = e.string();
    let e2 = parse_expr(printed.as_str());
    assert_eq!(e, e2);
    assert_eq!(e2.string(), printed);
}
