use bearc::ast::{
    Argument, Declaration, Expression, Function, Literal, OperatorCall, OperatorIdentifier,
    Program, Scope, Statement, TypeAnnotation, Variable, VariableDeclaration, WhileLoop,
};
use bearc::parser::{Expected, Parser};

fn s(text: &str) -> String {
    text.to_string()
}

fn toks(words: &[&str]) -> Vec<String> {
    words.iter().map(|w| w.to_string()).collect()
}

fn var(name: &str) -> Expression {
    Expression::Variable(Box::new(Variable { identifier: s(name) }))
}

fn int_lit(value: i64) -> Expression {
    Expression::Literal(Box::new(Literal::Int64(value)))
}

fn op(o: OperatorIdentifier, lhs: Expression, rhs: Expression) -> Expression {
    Expression::OperatorCall(Box::new(OperatorCall {
        operator_identifier: o,
        lhs: Box::new(lhs),
        rhs: Box::new(rhs),
    }))
}

#[test]
fn parse_expression_multiplication_binds_tighter_than_addition() {
    let mut parser = Parser::new(toks(&["x", "+", "x", "*", "y"]));
    let parsed = parser.parse_expression().unwrap();
    let expected = op(
        OperatorIdentifier::Add,
        var("x"),
        op(OperatorIdentifier::Multiply, var("x"), var("y")),
    );
    assert_eq!(parsed, expected);
}

#[test]
fn parse_expression_exponentiation() {
    let mut parser = Parser::new(toks(&["x", "^", "2"]));
    let parsed = parser.parse_expression().unwrap();
    let expected = op(OperatorIdentifier::Exponential, var("x"), int_lit(2));
    assert_eq!(parsed, expected);
}

#[test]
fn parse_expression_exponentiation_groups_to_the_right() {
    let mut parser = Parser::new(toks(&["a", "^", "b", "^", "c"]));
    let parsed = parser.parse_expression().unwrap();
    let expected = op(
        OperatorIdentifier::Exponential,
        var("a"),
        op(OperatorIdentifier::Exponential, var("b"), var("c")),
    );
    assert_eq!(parsed, expected);
}

#[test]
fn parse_expression_subtraction_groups_to_the_left() {
    let mut parser = Parser::new(toks(&["a", "-", "b", "-", "c"]));
    let parsed = parser.parse_expression().unwrap();
    let expected = op(
        OperatorIdentifier::Subtract,
        op(OperatorIdentifier::Subtract, var("a"), var("b")),
        var("c"),
    );
    assert_eq!(parsed, expected);
}

#[test]
fn parse_expression_parentheses_override_precedence() {
    let mut parser = Parser::new(toks(&["(", "x", "+", "x", ")", "*", "y"]));
    let parsed = parser.parse_expression().unwrap();
    let expected = op(
        OperatorIdentifier::Multiply,
        op(OperatorIdentifier::Add, var("x"), var("x")),
        var("y"),
    );
    assert_eq!(parsed, expected);
}

#[test]
fn parse_simple_program() {
    let tokens = toks(&["int", "main", "(", ")", "{", "return", "1", ";", "}"]);
    let main_function = Function {
        identifier: s("main"),
        type_annotation: Box::new(TypeAnnotation { identifier: s("int") }),
        arguments: vec![],
        body: Box::new(Scope {
            statements: vec![Statement::Return(Box::new(int_lit(1)))],
        }),
    };
    let program = Program {
        declarations: vec![Declaration::Function(Box::new(main_function))],
    };
    assert_eq!(Parser::parse(tokens).unwrap(), program);
}

#[test]
fn parse_program_with_arguments_var_and_while() {
    let tokens = toks(&[
        "int", "f", "(", "a", ":", "int", ")", "{", "var", "x", "=", "2", ";", "while", "(", "x",
        ")", "{", "x", "=", "x", "-", "1", ";", "}", "return", "x", ";", "}",
    ]);
    let body = Scope {
        statements: vec![
            Statement::VariableDeclaration(Box::new(VariableDeclaration {
                variable: Box::new(Variable { identifier: s("x") }),
                expression: Box::new(int_lit(2)),
            })),
            Statement::While(Box::new(WhileLoop {
                condition: Box::new(var("x")),
                body: Box::new(Scope {
                    statements: vec![Statement::Expression(Box::new(op(
                        OperatorIdentifier::Assignment,
                        var("x"),
                        op(OperatorIdentifier::Subtract, var("x"), int_lit(1)),
                    )))],
                }),
            })),
            Statement::Return(Box::new(var("x"))),
        ],
    };
    let program = Program {
        declarations: vec![Declaration::Function(Box::new(Function {
            identifier: s("f"),
            type_annotation: Box::new(TypeAnnotation { identifier: s("int") }),
            arguments: vec![Argument {
                variable: Box::new(Variable { identifier: s("a") }),
                type_annotation: Box::new(TypeAnnotation { identifier: s("int") }),
            }],
            body: Box::new(body),
        }))],
    };
    assert_eq!(Parser::parse(tokens).unwrap(), program);
}

#[test]
fn parse_function_call_with_comma_separated_arguments() {
    let tokens = toks(&[
        "int", "main", "(", ")", "{", "f", "(", "1", ",", "2", ")", ";", "}",
    ]);
    let call = Expression::FunctionCall(Box::new(bearc::ast::FunctionCall {
        identifier: s("f"),
        arguments: vec![int_lit(1), int_lit(2)],
    }));
    let program = Program {
        declarations: vec![Declaration::Function(Box::new(Function {
            identifier: s("main"),
            type_annotation: Box::new(TypeAnnotation { identifier: s("int") }),
            arguments: vec![],
            body: Box::new(Scope {
                statements: vec![Statement::Expression(Box::new(call))],
            }),
        }))],
    };
    assert_eq!(Parser::parse(tokens).unwrap(), program);
}

#[test]
fn parse_string_literal_joins_words_with_spaces() {
    let tokens = toks(&[
        "int", "main", "(", ")", "{", "return", "\"", "hi", "there", "\"", ";", "}",
    ]);
    let program = Parser::parse(tokens).unwrap();
    let expected_stmt = Statement::Return(Box::new(Expression::Literal(Box::new(
        Literal::StringLit(s("hi there")),
    ))));
    match &program.declarations[0] {
        Declaration::Function(f) => assert_eq!(f.body.statements[0], expected_stmt),
        _ => panic!("expected a function"),
    }
}

#[test]
fn parse_float_literal_keeps_its_text() {
    let tokens = toks(&["int", "main", "(", ")", "{", "var", "x", "=", "14.0", ";", "}"]);
    let program = Parser::parse(tokens).unwrap();
    let expected_stmt = Statement::VariableDeclaration(Box::new(VariableDeclaration {
        variable: Box::new(Variable { identifier: s("x") }),
        expression: Box::new(Expression::Literal(Box::new(Literal::Float64(s("14.0"))))),
    }));
    match &program.declarations[0] {
        Declaration::Function(f) => assert_eq!(f.body.statements[0], expected_stmt),
        _ => panic!("expected a function"),
    }
}

#[test]
fn parse_rejects_unbalanced_scope() {
    let tokens = toks(&["int", "main", "(", ")", "{", "return", "1", ";"]);
    let err = Parser::parse(tokens).unwrap_err();
    assert_eq!(err.expected, Expected::ScopeClose);
    assert_eq!(err.found, None);
}

#[test]
fn parse_rejects_missing_argument_separator() {
    let tokens = toks(&["int", "f", "(", "a", "int", ")", "{", "}"]);
    let err = Parser::parse(tokens).unwrap_err();
    assert_eq!(err.expected, Expected::ArgumentSeparator);
    assert_eq!(err.found, Some(s("int")));
}

#[test]
fn parse_rejects_operator_first_expression() {
    let tokens = toks(&["int", "main", "(", ")", "{", "return", "+", ";", "}"]);
    let err = Parser::parse(tokens).unwrap_err();
    assert_eq!(err.expected, Expected::Expression);
    assert_eq!(err.found, Some(s("+")));
}

#[test]
fn parse_rejects_malformed_float_literal() {
    let tokens = toks(&["int", "main", "(", ")", "{", "return", "1.2.3", ";", "}"]);
    let err = Parser::parse(tokens).unwrap_err();
    assert_eq!(err.expected, Expected::FloatLiteral);
    assert_eq!(err.found, Some(s("1.2.3")));
}

#[test]
fn parse_rejects_integer_literal_out_of_range() {
    let tokens = toks(&[
        "int",
        "main",
        "(",
        ")",
        "{",
        "return",
        "9223372036854775808",
        ";",
        "}",
    ]);
    let err = Parser::parse(tokens).unwrap_err();
    assert_eq!(err.expected, Expected::IntegerLiteral);
}

#[test]
fn parse_accepts_largest_integer_literal() {
    let tokens = toks(&[
        "int",
        "main",
        "(",
        ")",
        "{",
        "return",
        "9223372036854775807",
        ";",
        "}",
    ]);
    let program = Parser::parse(tokens).unwrap();
    match &program.declarations[0] {
        Declaration::Function(f) => assert_eq!(
            f.body.statements[0],
            Statement::Return(Box::new(int_lit(9223372036854775807)))
        ),
        _ => panic!("expected a function"),
    }
}

#[test]
fn parse_rejects_declaration_without_argument_list() {
    let tokens = toks(&["int", "main", "blob"]);
    let err = Parser::parse(tokens).unwrap_err();
    assert_eq!(err.expected, Expected::ArgumentList);
    assert_eq!(err.found, Some(s("blob")));
}

#[test]
fn parse_rejects_relational_operator_first_expression() {
    for spelling in [">", "<", ">=", "<="] {
        let tokens = toks(&["int", "main", "(", ")", "{", "return", spelling, ";", "}"]);
        let err = Parser::parse(tokens).unwrap_err();
        assert_eq!(err.expected, Expected::Expression);
        assert_eq!(err.found, Some(s(spelling)));
    }
}
