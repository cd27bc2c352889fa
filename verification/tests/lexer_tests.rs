use bearc::lexer::Lexer;

fn s(text: &str) -> String {
    text.to_string()
}

#[test]
fn tokenize_splits_adjacent_operator() {
    assert_eq!(Lexer::tokenize(s("x+y")), vec![s("x"), s("+"), s("y")]);
}

#[test]
fn tokenize_splits_spaced_punctuation() {
    assert_eq!(
        Lexer::tokenize(s("foo ( a : Int )")),
        vec![s("foo"), s("("), s("a"), s(":"), s("Int"), s(")")]
    );
}

#[test]
fn tokenize_empty_and_whitespace_only() {
    assert_eq!(Lexer::tokenize(s("")), Vec::<String>::new());
    assert_eq!(Lexer::tokenize(s("  \t\n\r ")), Vec::<String>::new());
}

#[test]
fn tokenize_keeps_every_non_whitespace_character() {
    let tokens = Lexer::tokenize(s("a +b \n cd( e;"));
    let joined: String = tokens.concat();
    assert_eq!(joined, s("a+bcd(e;"));
}

#[test]
fn tokenize_quotes_are_single_character_tokens() {
    assert_eq!(
        Lexer::tokenize(s("print ( \" Hello World! \" ) ;")),
        vec![
            s("print"),
            s("("),
            s("\""),
            s("Hello"),
            s("World!"),
            s("\""),
            s(")"),
            s(";")
        ]
    );
}

#[test]
fn tokenize_multi_character_operators_only_when_spaced() {
    assert_eq!(Lexer::tokenize(s("a << b")), vec![s("a"), s("<<"), s("b")]);
    assert_eq!(Lexer::tokenize(s("a<<b")), vec![s("a<<b")]);
}

#[test]
fn tokenize_simple_function_source() {
    assert_eq!(
        Lexer::tokenize(s("int main() { return 1; }")),
        vec![
            s("int"),
            s("main"),
            s("("),
            s(")"),
            s("{"),
            s("return"),
            s("1"),
            s(";"),
            s("}")
        ]
    );
}

#[test]
fn tokenize_basic_program_correctly() {
    let source = s("function main ( args : Array<String> ) {\n    print ( \" Hello World! \" ) ;\n} ;\n");
    assert_eq!(
        Lexer::tokenize(source),
        vec![
            s("function"),
            s("main"),
            s("("),
            s("args"),
            s(":"),
            s("Array<String>"),
            s(")"),
            s("{"),
            s("print"),
            s("("),
            s("\""),
            s("Hello"),
            s("World!"),
            s("\""),
            s(")"),
            s(";"),
            s("}"),
            s(";")
        ]
    );
}

#[test]
fn tokenize_drops_every_unicode_whitespace_character() {
    // form feed, vertical tab, no-break space, em space, ideographic space
    let source = s("a\u{000C}b\u{000B}c \u{00A0} d\u{2003}e\u{3000}f");
    assert_eq!(
        Lexer::tokenize(source),
        vec![s("a"), s("b"), s("c"), s("d"), s("e"), s("f")]
    );
}

#[test]
fn tokenize_emits_no_whitespace_inside_tokens() {
    let tokens = Lexer::tokenize(s("one\u{000C}two\u{0085}three"));
    for token in &tokens {
        assert!(token.chars().all(|c| !c.is_whitespace()));
    }
    assert_eq!(tokens, vec![s("one"), s("two"), s("three")]);
}
