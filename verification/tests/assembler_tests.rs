use bearc::assembler::{Assembler, CodegenError};
use bearc::ast::{
    Argument, Declaration, Expression, Function, Literal, OperatorCall, OperatorDeclaration,
    OperatorIdentifier, Program, Scope, Statement, StructDeclaration, TypeAnnotation, Variable,
    WhileLoop,
};
use bearc::parser::Parser;

fn s(text: &str) -> String {
    text.to_string()
}

fn toks(words: &[&str]) -> Vec<String> {
    words.iter().map(|w| w.to_string()).collect()
}

fn int_lit(value: i64) -> Expression {
    Expression::Literal(Box::new(Literal::Int64(value)))
}

fn one_function(ty: &str, body: Vec<Statement>) -> Program {
    Program {
        declarations: vec![Declaration::Function(Box::new(Function {
            identifier: s("main"),
            type_annotation: Box::new(TypeAnnotation { identifier: s(ty) }),
            arguments: vec![],
            body: Box::new(Scope { statements: body }),
        }))],
    }
}

#[test]
fn to_wat_simple_return() {
    let program = one_function("int", vec![Statement::Return(Box::new(int_lit(1)))]);
    let wat = Assembler::to_wat(&program).unwrap();
    assert_eq!(
        wat,
        "(module\n(func $main (result i32)\ni32.const 1\nreturn\n)\n(export \"main\" (func $main))\n)"
    );
}

#[test]
fn to_wat_negative_integer_constant() {
    let program = one_function("int", vec![Statement::Return(Box::new(int_lit(-5)))]);
    let wat = Assembler::to_wat(&program).unwrap();
    assert!(wat.contains("i32.const -5"));
}

#[test]
fn to_wat_float_constant_keeps_source_text() {
    let program = one_function(
        "float",
        vec![Statement::Return(Box::new(Expression::Literal(Box::new(
            Literal::Float64(s("14.0")),
        ))))],
    );
    let wat = Assembler::to_wat(&program).unwrap();
    assert!(wat.contains("f32.const 14.0"));
    assert!(wat.contains("(func $main (result f32)"));
}

#[test]
fn to_wat_arguments_become_params() {
    let program = Program {
        declarations: vec![Declaration::Function(Box::new(Function {
            identifier: s("f"),
            type_annotation: Box::new(TypeAnnotation { identifier: s("int") }),
            arguments: vec![
                Argument {
                    variable: Box::new(Variable { identifier: s("a") }),
                    type_annotation: Box::new(TypeAnnotation { identifier: s("int") }),
                },
                Argument {
                    variable: Box::new(Variable { identifier: s("b") }),
                    type_annotation: Box::new(TypeAnnotation { identifier: s("long") }),
                },
            ],
            body: Box::new(Scope {
                statements: vec![Statement::Return(Box::new(int_lit(0)))],
            }),
        }))],
    };
    let wat = Assembler::to_wat(&program).unwrap();
    assert!(wat.contains("(func $f (param $a i32) (param $b i64) (result i32)"));
}

#[test]
fn to_wat_while_lowers_to_block_and_loop() {
    let tokens = toks(&[
        "int", "main", "(", ")", "{", "while", "(", "1", ")", "{", "2", ";", "}", "return", "0",
        ";", "}",
    ]);
    let program = Parser::parse(tokens).unwrap();
    let wat = Assembler::to_wat(&program).unwrap();
    let expected_lines = vec![
        "(module",
        "(func $main (result i32)",
        "(block",
        "(loop",
        "i32.const 1",
        "i32.eqz",
        "br_if 1",
        "i32.const 2",
        "drop",
        "br 0",
        ")",
        ")",
        "i32.const 0",
        "return",
        ")",
        "(export \"main\" (func $main))",
        ")",
    ];
    assert_eq!(wat, expected_lines.join("\n"));
}

#[test]
fn to_wat_final_expression_statement_is_implicit_return() {
    let program = one_function(
        "int",
        vec![
            Statement::Expression(Box::new(int_lit(7))),
            Statement::Expression(Box::new(int_lit(8))),
        ],
    );
    let wat = Assembler::to_wat(&program).unwrap();
    assert_eq!(
        wat,
        "(module\n(func $main (result i32)\ni32.const 7\ndrop\ni32.const 8\n)\n(export \"main\" (func $main))\n)"
    );
}

#[test]
fn to_wat_variable_declaration_emits_local_and_store() {
    let tokens = toks(&[
        "int", "main", "(", ")", "{", "var", "x", "=", "2", ";", "return", "x", ";", "}",
    ]);
    let program = Parser::parse(tokens).unwrap();
    let wat = Assembler::to_wat(&program).unwrap();
    assert!(wat.contains("(local $x i32)\ni32.const 2\nlocal.set $x"));
    assert!(wat.contains("local.get $x\nreturn"));
}

#[test]
fn to_wat_operator_calls_emit_operands_then_instruction() {
    let tokens = toks(&[
        "int", "main", "(", ")", "{", "return", "1", "+", "2", "*", "3", ";", "}",
    ]);
    let program = Parser::parse(tokens).unwrap();
    let wat = Assembler::to_wat(&program).unwrap();
    assert!(wat.contains("i32.const 1\ni32.const 2\ni32.const 3\ni32.mul\ni32.add\nreturn"));
}

#[test]
fn to_wat_call_emits_arguments_then_call() {
    let tokens = toks(&[
        "int", "main", "(", ")", "{", "return", "f", "(", "1", ",", "2", ")", ";", "}",
    ]);
    let program = Parser::parse(tokens).unwrap();
    let wat = Assembler::to_wat(&program).unwrap();
    assert!(wat.contains("i32.const 1\ni32.const 2\ncall $f\nreturn"));
}

#[test]
fn to_wat_rejects_exponentiation() {
    let program = one_function(
        "int",
        vec![Statement::Return(Box::new(Expression::OperatorCall(
            Box::new(OperatorCall {
                operator_identifier: OperatorIdentifier::Exponential,
                lhs: Box::new(int_lit(2)),
                rhs: Box::new(int_lit(3)),
            }),
        )))],
    );
    let err = Assembler::to_wat(&program).unwrap_err();
    assert_eq!(
        err,
        CodegenError::UnsupportedOperator(OperatorIdentifier::Exponential)
    );
}

#[test]
fn to_wat_rejects_string_literal() {
    let program = one_function(
        "int",
        vec![Statement::Return(Box::new(Expression::Literal(Box::new(
            Literal::StringLit(s("hi")),
        ))))],
    );
    let err = Assembler::to_wat(&program).unwrap_err();
    assert_eq!(err, CodegenError::StringLiteral);
}

#[test]
fn to_wat_rejects_unknown_type_annotation() {
    let program = one_function("str", vec![Statement::Return(Box::new(int_lit(0)))]);
    let err = Assembler::to_wat(&program).unwrap_err();
    assert_eq!(err, CodegenError::UnmappedTypeAnnotation(s("str")));
}

#[test]
fn to_wat_rejects_operator_and_struct_declarations() {
    let program = Program {
        declarations: vec![Declaration::Operator(Box::new(OperatorDeclaration {
            identifier: s("plusplus"),
        }))],
    };
    assert_eq!(
        Assembler::to_wat(&program).unwrap_err(),
        CodegenError::OperatorDeclaration(s("plusplus"))
    );
    let program2 = Program {
        declarations: vec![Declaration::Struct(Box::new(StructDeclaration {
            identifier: s("pair"),
        }))],
    };
    assert_eq!(
        Assembler::to_wat(&program2).unwrap_err(),
        CodegenError::StructDeclaration(s("pair"))
    );
}

#[test]
fn to_wat_reports_first_error_in_emission_order() {
    let program = one_function(
        "int",
        vec![
            Statement::Return(Box::new(Expression::OperatorCall(Box::new(OperatorCall {
                operator_identifier: OperatorIdentifier::Assignment,
                lhs: Box::new(Expression::Literal(Box::new(Literal::StringLit(s("x"))))),
                rhs: Box::new(int_lit(1)),
            })))),
        ],
    );
    // the left operand's string literal comes before the operator itself
    assert_eq!(
        Assembler::to_wat(&program).unwrap_err(),
        CodegenError::StringLiteral
    );
}

#[test]
fn to_wat_while_body_expression_statements_always_drop() {
    let program = one_function(
        "int",
        vec![Statement::While(Box::new(WhileLoop {
            condition: Box::new(int_lit(0)),
            body: Box::new(Scope {
                statements: vec![Statement::Expression(Box::new(int_lit(5)))],
            }),
        }))],
    );
    let wat = Assembler::to_wat(&program).unwrap();
    assert!(wat.contains("i32.const 5\ndrop"));
}
