use bearc::assembler::Assembler;
use bearc::ast::{
    Declaration, Expression, Function, Literal, Program, Scope, Statement, TypeAnnotation,
};
use bearc::lexer::Lexer;
use bearc::parser::Parser;

fn s(text: &str) -> String {
    text.to_string()
}

#[test]
fn source_to_wat_end_to_end() {
    let source = s("int main() { return 1; }");
    let tokens = Lexer::tokenize(source);
    assert_eq!(
        tokens,
        vec![
            s("int"),
            s("main"),
            s("("),
            s(")"),
            s("{"),
            s("return"),
            s("1"),
            s(";"),
            s("}")
        ]
    );
    let program = Parser::parse(tokens).unwrap();
    let expected_program = Program {
        declarations: vec![Declaration::Function(Box::new(Function {
            identifier: s("main"),
            type_annotation: Box::new(TypeAnnotation { identifier: s("int") }),
            arguments: vec![],
            body: Box::new(Scope {
                statements: vec![Statement::Return(Box::new(Expression::Literal(Box::new(
                    Literal::Int64(1),
                ))))],
            }),
        }))],
    };
    assert_eq!(program, expected_program);
    let wat = Assembler::to_wat(&program).unwrap();
    assert!(wat.contains("(func $main (result i32)"));
    assert!(wat.contains("i32.const 1\nreturn"));
    assert!(wat.contains("(export \"main\" (func $main))"));
}

#[test]
fn source_with_two_functions_keeps_declaration_order() {
    let source = s("int one() { return 1; } int two() { return 2; }");
    let program = Parser::parse(Lexer::tokenize(source)).unwrap();
    assert_eq!(program.declarations.len(), 2);
    let wat = Assembler::to_wat(&program).unwrap();
    let one_at = wat.find("(func $one").unwrap();
    let two_at = wat.find("(func $two").unwrap();
    assert!(one_at < two_at);
}

#[test]
fn whole_pipeline_rejects_leftover_tokens() {
    // a stray token after the last declaration starts a new, incomplete one
    let source = s("int main() { return 1; } ;");
    let err = Parser::parse(Lexer::tokenize(source)).unwrap_err();
    assert_eq!(err.expected, bearc::parser::Expected::FunctionName);
}
