use vstd::prelude::*;
use vstd::string::*;

verus! {

use crate::ast::{
    Argument, ArgumentS, Declaration, DeclarationS, Expression, ExpressionS, Function, FunctionCall,
    Literal, LiteralS, OperatorCall, OperatorIdentifier, Program, ProgramS, Scope, Statement,
    StatementS, TypeAnnotation, Variable, VariableDeclaration, WhileLoop,
};
use crate::ast::{
    argument_view, arguments_view, declaration_view, declarations_view, expression_view,
    expressions_view, lemma_expressions_view_push, lemma_statements_view_push, literal_view,
    program_view, statement_view, statements_view,
};
use crate::numerals::{digits_val, is_digit_char, is_int_token, parse_int_token};

// ----------------------------------------------------------------------------
// Errors.  A parse stops at the first offence; the error carries the
// syntactic category that was needed, the offending token (or nothing, at
// the end of input) and the token index.
// ----------------------------------------------------------------------------
/// The syntactic category the parser needed when it stopped.
#[derive(Debug, PartialEq, Eq, Structural, Clone, Copy)]
pub enum Expected {
    Declaration,
    FunctionName,
    ArgumentList,
    ArgumentSeparator,
    ArgumentType,
    ArgumentListClose,
    ScopeOpen,
    ScopeClose,
    Statement,
    VariableName,
    AssignmentOperator,
    StatementTerminator,
    ConditionOpen,
    ConditionClose,
    Expression,
    ParenClose,
    StringClose,
    IntegerLiteral,
    FloatLiteral,
    CallClose,
}

/// A fatal syntax error.
#[derive(Debug, PartialEq)]
pub struct ParseError {
    pub expected: Expected,
    pub found: Option<String>,
    pub position: usize,
}

/// Model of a syntax error.
pub struct ParseErrorS {
    pub expected: Expected,
    pub found: Option<Seq<char>>,
    pub position: int,
}

pub open spec fn parse_error_view(e: ParseError) -> ParseErrorS {
    ParseErrorS {
        expected: e.expected,
        found: match e.found {
            Option::Some(t) => Option::Some(t@),
            Option::None => Option::None,
        },
        position: e.position as int,
    }
}

/// The outcome of one specification-level parsing step: a parsed value
/// with the position just past it, or the first error.
pub enum Parsed<T> {
    Done(T, int),
    Fail(ParseErrorS),
}

/// The token at `pos`, or nothing past the end.
pub open spec fn tok_at(ts: Seq<Seq<char>>, pos: int) -> Option<Seq<char>> {
    if 0 <= pos < ts.len() {
        Option::Some(ts[pos])
    } else {
        Option::None
    }
}

/// The error raised at `pos` when `exp` was needed.
pub open spec fn perr(exp: Expected, ts: Seq<Seq<char>>, pos: int) -> ParseErrorS {
    ParseErrorS { expected: exp, found: tok_at(ts, pos), position: pos }
}

// ----------------------------------------------------------------------------
// Token classification.
// ----------------------------------------------------------------------------
/// The binary operator a token spells, if any.  The multi-character
/// spellings are only ever seen when whitespace-separated, since their
/// characters are not boundary characters in the lexer.
pub open spec fn op_of_token(t: Seq<char>) -> Option<OperatorIdentifier> {
    if t == "+"@ {
        Option::Some(OperatorIdentifier::Add)
    } else if t == "-"@ {
        Option::Some(OperatorIdentifier::Subtract)
    } else if t == "*"@ {
        Option::Some(OperatorIdentifier::Multiply)
    } else if t == "/"@ {
        Option::Some(OperatorIdentifier::Divide)
    } else if t == "^"@ {
        Option::Some(OperatorIdentifier::Exponential)
    } else if t == "<<"@ {
        Option::Some(OperatorIdentifier::LeftShift)
    } else if t == ">>"@ {
        Option::Some(OperatorIdentifier::RightShift)
    } else if t == "&&"@ {
        Option::Some(OperatorIdentifier::And)
    } else if t == "||"@ {
        Option::Some(OperatorIdentifier::Or)
    } else if t == "%%"@ {
        Option::Some(OperatorIdentifier::Xor)
    } else if t == "="@ {
        Option::Some(OperatorIdentifier::Assignment)
    } else {
        Option::None
    }
}

/// Relational operator spellings.  They stand outside the closed
/// operator set, so no expression node carries them; they are recognized
/// only so that one of them where an operand is expected is rejected as
/// an operator-first expression.
pub open spec fn is_relational_token(t: Seq<char>) -> bool {
    t == ">"@ || t == "<"@ || t == ">="@ || t == "<="@
}

/// Binding strength, higher binds tighter.  Level 3 is reserved for the
/// relational operators, which are not in the closed operator set of
/// this core.
pub open spec fn spec_precedence(op: OperatorIdentifier) -> int {
    match op {
        OperatorIdentifier::Assignment => 1,
        OperatorIdentifier::And => 2,
        OperatorIdentifier::Or => 2,
        OperatorIdentifier::Xor => 2,
        OperatorIdentifier::LeftShift => 4,
        OperatorIdentifier::RightShift => 4,
        OperatorIdentifier::Add => 5,
        OperatorIdentifier::Subtract => 5,
        OperatorIdentifier::Multiply => 6,
        OperatorIdentifier::Divide => 6,
        OperatorIdentifier::Exponential => 7,
    }
}

/// Whether an operator groups to the right.
pub open spec fn spec_right_assoc(op: OperatorIdentifier) -> bool {
    op == OperatorIdentifier::Exponential || op == OperatorIdentifier::Assignment
}

/// The minimum precedence for the right operand: one above the operator's
/// own level when it groups to the left, its own level when to the right.
pub open spec fn next_min_prec(op: OperatorIdentifier) -> int {
    if spec_right_assoc(op) {
        spec_precedence(op)
    } else {
        spec_precedence(op) + 1
    }
}

/// Punctuation that can never begin an expression.
pub open spec fn is_expr_blocker(t: Seq<char>) -> bool {
    t == ")"@ || t == "{"@ || t == "}"@ || t == "["@ || t == "]"@ || t == ":"@ || t == ";"@ || t
        == ","@
}

/// Whether the token holds a `.` anywhere.
pub open spec fn has_dot(s: Seq<char>) -> bool {
    exists|i: int| 0 <= i < s.len() && #[trigger] s[i] == '.'
}

/// A token that denotes a floating-point literal: exactly one `.`, every
/// other character a digit.
pub open spec fn is_float_token(t: Seq<char>) -> bool {
    t.len() > 0 && exists|k: int|
        0 <= k < t.len() && #[trigger] t[k] == '.' && (forall|i: int|
            0 <= i < t.len() && i != k ==> is_digit_char(#[trigger] t[i]))
}

// ----------------------------------------------------------------------------
// The specification-level parser: one total function per production, over
// the token sequence and a cursor position.  Each returns the parsed model
// value and the position just past it, or the first error.  The executable
// parser is proved to return exactly these outcomes.
// ----------------------------------------------------------------------------
/// A numeric literal token: a digit-initial token is a floating-point
/// literal when it holds a dot, an integer literal otherwise.  Numerals
/// are unsigned digit spellings only: `+` and `-` are one-character
/// boundary tokens of the lexer, so a signed spelling never arrives as
/// one token, and a dot-initial token is read as an identifier rather
/// than a numeral.
pub open spec fn sp_literal(ts: Seq<Seq<char>>, pos: int) -> Parsed<LiteralS> {
    if pos < 0 || pos >= ts.len() {
        Parsed::Fail(perr(Expected::IntegerLiteral, ts, pos))
    } else {
        let t = ts[pos];
        if has_dot(t) {
            if is_float_token(t) {
                Parsed::Done(LiteralS::Float(t), pos + 1)
            } else {
                Parsed::Fail(perr(Expected::FloatLiteral, ts, pos))
            }
        } else {
            if is_int_token(t) && digits_val(t) <= i64::MAX {
                Parsed::Done(LiteralS::Int(digits_val(t) as i64), pos + 1)
            } else {
                Parsed::Fail(perr(Expected::IntegerLiteral, ts, pos))
            }
        }
    }
}

/// The words of a string literal, from just past the opening quote to the
/// closing quote, joined with single spaces.
pub open spec fn sp_string_words(
    ts: Seq<Seq<char>>,
    pos: int,
    acc: Seq<char>,
    started: bool,
) -> Parsed<Seq<char>>
    decreases ts.len() - pos,
{
    if pos < 0 || pos >= ts.len() {
        Parsed::Fail(perr(Expected::StringClose, ts, pos))
    } else if ts[pos] == "\""@ {
        Parsed::Done(acc, pos + 1)
    } else {
        let acc2 = if started {
            acc + " "@ + ts[pos]
        } else {
            ts[pos]
        };
        sp_string_words(ts, pos + 1, acc2, true)
    }
}

/// A primary expression: a parenthesized expression, a string literal, a
/// boolean literal, a numeric literal, a function call, or a variable use.
/// An operator token (a relational spelling included), punctuation or an
/// empty token is an offence here.
pub open spec fn sp_primary(ts: Seq<Seq<char>>, pos: int) -> Parsed<ExpressionS>
    decreases ts.len() - pos, 0int,
{
    if pos < 0 || pos >= ts.len() {
        Parsed::Fail(perr(Expected::Expression, ts, pos))
    } else {
        let t = ts[pos];
        if t.len() == 0 || op_of_token(t) is Some || is_relational_token(t) || is_expr_blocker(t) {
            Parsed::Fail(perr(Expected::Expression, ts, pos))
        } else if t == "("@ {
            match sp_expr(ts, pos + 1, 0) {
                Parsed::Done(e, p2) => if pos + 1 < p2 <= ts.len() {
                    if p2 < ts.len() && ts[p2] == ")"@ {
                        Parsed::Done(e, p2 + 1)
                    } else {
                        Parsed::Fail(perr(Expected::ParenClose, ts, p2))
                    }
                } else {
                    Parsed::Fail(perr(Expected::ParenClose, ts, p2))
                },
                Parsed::Fail(err) => Parsed::Fail(err),
            }
        } else if t == "\""@ {
            match sp_string_words(ts, pos + 1, Seq::empty(), false) {
                Parsed::Done(s, p2) => Parsed::Done(
                    ExpressionS::Lit { value: LiteralS::Str(s) },
                    p2,
                ),
                Parsed::Fail(err) => Parsed::Fail(err),
            }
        } else if t == "true"@ {
            Parsed::Done(ExpressionS::Lit { value: LiteralS::Bool(true) }, pos + 1)
        } else if t == "false"@ {
            Parsed::Done(ExpressionS::Lit { value: LiteralS::Bool(false) }, pos + 1)
        } else if is_digit_char(t[0]) {
            match sp_literal(ts, pos) {
                Parsed::Done(lit, p2) => Parsed::Done(ExpressionS::Lit { value: lit }, p2),
                Parsed::Fail(err) => Parsed::Fail(err),
            }
        } else if pos + 1 < ts.len() && ts[pos + 1] == "("@ {
            match sp_call_args(ts, pos + 2, Seq::empty()) {
                Parsed::Done(args, p2) => Parsed::Done(ExpressionS::Call { name: t, args }, p2),
                Parsed::Fail(err) => Parsed::Fail(err),
            }
        } else {
            Parsed::Done(ExpressionS::Var { name: t }, pos + 1)
        }
    }
}

/// Folds operators onto `lhs` by precedence climbing: while the next token
/// is an operator at or above `min_prec`, parse its right operand at the
/// operator's climb level and combine.
pub open spec fn sp_expr_rest(
    ts: Seq<Seq<char>>,
    lhs: ExpressionS,
    pos: int,
    min_prec: int,
) -> Parsed<ExpressionS>
    decreases ts.len() - pos, 1int,
{
    if pos < 0 || pos >= ts.len() {
        Parsed::Done(lhs, pos)
    } else {
        match op_of_token(ts[pos]) {
            Option::Some(op) => if spec_precedence(op) >= min_prec {
                match sp_expr(ts, pos + 1, next_min_prec(op)) {
                    Parsed::Done(rhs, p2) => if pos + 1 < p2 <= ts.len() {
                        sp_expr_rest(
                            ts,
                            ExpressionS::Op { op, lhs: Box::new(lhs), rhs: Box::new(rhs) },
                            p2,
                            min_prec,
                        )
                    } else {
                        Parsed::Fail(perr(Expected::Expression, ts, pos + 1))
                    },
                    Parsed::Fail(err) => Parsed::Fail(err),
                }
            } else {
                Parsed::Done(lhs, pos)
            },
            Option::None => Parsed::Done(lhs, pos),
        }
    }
}

/// An expression at a minimum operator precedence.
pub open spec fn sp_expr(ts: Seq<Seq<char>>, pos: int, min_prec: int) -> Parsed<ExpressionS>
    decreases ts.len() - pos, 2int,
{
    match sp_primary(ts, pos) {
        Parsed::Done(e, p2) => if pos < p2 <= ts.len() {
            sp_expr_rest(ts, e, p2, min_prec)
        } else {
            Parsed::Fail(perr(Expected::Expression, ts, pos))
        },
        Parsed::Fail(err) => Parsed::Fail(err),
    }
}

/// The actual arguments of a call, up to and including the closing `)`.
/// A `,` token after an argument is consumed as a separator.
pub open spec fn sp_call_args(
    ts: Seq<Seq<char>>,
    pos: int,
    acc: Seq<ExpressionS>,
) -> Parsed<Seq<ExpressionS>>
    decreases ts.len() - pos, 3int,
{
    if pos < 0 || pos >= ts.len() {
        Parsed::Fail(perr(Expected::CallClose, ts, pos))
    } else if ts[pos] == ")"@ {
        Parsed::Done(acc, pos + 1)
    } else {
        match sp_expr(ts, pos, 0) {
            Parsed::Done(e, p2) => if pos < p2 <= ts.len() {
                if p2 < ts.len() && ts[p2] == ","@ {
                    sp_call_args(ts, p2 + 1, acc.push(e))
                } else {
                    sp_call_args(ts, p2, acc.push(e))
                }
            } else {
                Parsed::Fail(perr(Expected::CallClose, ts, pos))
            },
            Parsed::Fail(err) => Parsed::Fail(err),
        }
    }
}

/// A `var` statement: `var name = expression ;`, starting at the `var`.
pub open spec fn sp_var_decl(ts: Seq<Seq<char>>, pos: int) -> Parsed<StatementS> {
    if pos < 0 || pos >= ts.len() || ts[pos] != "var"@ {
        Parsed::Fail(perr(Expected::Statement, ts, pos))
    } else if pos + 1 >= ts.len() {
        Parsed::Fail(perr(Expected::VariableName, ts, pos + 1))
    } else {
        let name = ts[pos + 1];
        if pos + 2 >= ts.len() || ts[pos + 2] != "="@ {
            Parsed::Fail(perr(Expected::AssignmentOperator, ts, pos + 2))
        } else {
            match sp_expr(ts, pos + 3, 0) {
                Parsed::Done(e, p2) => if p2 < ts.len() && ts[p2] == ";"@ {
                    Parsed::Done(StatementS::VarDecl { name, init: e }, p2 + 1)
                } else {
                    Parsed::Fail(perr(Expected::StatementTerminator, ts, p2))
                },
                Parsed::Fail(err) => Parsed::Fail(err),
            }
        }
    }
}

/// One statement, dispatched on its first token: `var`, `return`, `while`,
/// or an expression statement.
pub open spec fn sp_statement(ts: Seq<Seq<char>>, pos: int) -> Parsed<StatementS>
    decreases ts.len() - pos, 0int,
{
    if pos < 0 || pos >= ts.len() {
        Parsed::Fail(perr(Expected::Statement, ts, pos))
    } else {
        let t = ts[pos];
        if t == "var"@ {
            sp_var_decl(ts, pos)
        } else if t == "return"@ {
            match sp_expr(ts, pos + 1, 0) {
                Parsed::Done(e, p2) => if p2 < ts.len() && ts[p2] == ";"@ {
                    Parsed::Done(StatementS::Ret { expr: e }, p2 + 1)
                } else {
                    Parsed::Fail(perr(Expected::StatementTerminator, ts, p2))
                },
                Parsed::Fail(err) => Parsed::Fail(err),
            }
        } else if t == "while"@ {
            if pos + 1 >= ts.len() || ts[pos + 1] != "("@ {
                Parsed::Fail(perr(Expected::ConditionOpen, ts, pos + 1))
            } else {
                match sp_expr(ts, pos + 2, 0) {
                    Parsed::Done(c, p2) => if pos + 2 < p2 <= ts.len() {
                        if p2 < ts.len() && ts[p2] == ")"@ {
                            match sp_scope(ts, p2 + 1) {
                                Parsed::Done(body, p3) => Parsed::Done(
                                    StatementS::While { cond: c, body },
                                    p3,
                                ),
                                Parsed::Fail(err) => Parsed::Fail(err),
                            }
                        } else {
                            Parsed::Fail(perr(Expected::ConditionClose, ts, p2))
                        }
                    } else {
                        Parsed::Fail(perr(Expected::ConditionClose, ts, p2))
                    },
                    Parsed::Fail(err) => Parsed::Fail(err),
                }
            }
        } else {
            match sp_expr(ts, pos, 0) {
                Parsed::Done(e, p2) => if p2 < ts.len() && ts[p2] == ";"@ {
                    Parsed::Done(StatementS::Expr { expr: e }, p2 + 1)
                } else {
                    Parsed::Fail(perr(Expected::StatementTerminator, ts, p2))
                },
                Parsed::Fail(err) => Parsed::Fail(err),
            }
        }
    }
}

/// The statements of a scope, up to the closing `}` or the end of input.
pub open spec fn sp_statements(ts: Seq<Seq<char>>, pos: int) -> Parsed<Seq<StatementS>>
    decreases ts.len() - pos, 1int,
{
    if pos < 0 || pos >= ts.len() || ts[pos] == "}"@ {
        Parsed::Done(Seq::empty(), pos)
    } else {
        match sp_statement(ts, pos) {
            Parsed::Done(s, p2) => if pos < p2 <= ts.len() {
                match sp_statements(ts, p2) {
                    Parsed::Done(ss, p3) => Parsed::Done(seq![s] + ss, p3),
                    Parsed::Fail(err) => Parsed::Fail(err),
                }
            } else {
                Parsed::Fail(perr(Expected::Statement, ts, pos))
            },
            Parsed::Fail(err) => Parsed::Fail(err),
        }
    }
}

/// A brace-delimited scope.
pub open spec fn sp_scope(ts: Seq<Seq<char>>, pos: int) -> Parsed<Seq<StatementS>>
    decreases ts.len() - pos, 2int,
{
    if pos < 0 || pos >= ts.len() || ts[pos] != "{"@ {
        Parsed::Fail(perr(Expected::ScopeOpen, ts, pos))
    } else {
        match sp_statements(ts, pos + 1) {
            Parsed::Done(ss, p2) => if p2 < ts.len() && ts[p2] == "}"@ {
                Parsed::Done(ss, p2 + 1)
            } else {
                Parsed::Fail(perr(Expected::ScopeClose, ts, p2))
            },
            Parsed::Fail(err) => Parsed::Fail(err),
        }
    }
}

/// One formal argument: `name : type`.
pub open spec fn sp_argument(ts: Seq<Seq<char>>, pos: int) -> Parsed<ArgumentS> {
    if pos < 0 || pos >= ts.len() {
        Parsed::Fail(perr(Expected::ArgumentListClose, ts, pos))
    } else {
        let name = ts[pos];
        if pos + 1 >= ts.len() || ts[pos + 1] != ":"@ {
            Parsed::Fail(perr(Expected::ArgumentSeparator, ts, pos + 1))
        } else if pos + 2 >= ts.len() {
            Parsed::Fail(perr(Expected::ArgumentType, ts, pos + 2))
        } else {
            Parsed::Done(ArgumentS { name, ty: ts[pos + 2] }, pos + 3)
        }
    }
}

/// The formal arguments of a function, up to and including the closing
/// `)`.  The list is comma-free: arguments simply follow one another.
pub open spec fn sp_arguments(
    ts: Seq<Seq<char>>,
    pos: int,
    acc: Seq<ArgumentS>,
) -> Parsed<Seq<ArgumentS>>
    decreases ts.len() - pos,
{
    if pos < 0 || pos >= ts.len() {
        Parsed::Fail(perr(Expected::ArgumentListClose, ts, pos))
    } else if ts[pos] == ")"@ {
        Parsed::Done(acc, pos + 1)
    } else {
        match sp_argument(ts, pos) {
            Parsed::Done(a, p2) => if pos < p2 <= ts.len() {
                sp_arguments(ts, p2, acc.push(a))
            } else {
                Parsed::Fail(perr(Expected::ArgumentListClose, ts, pos))
            },
            Parsed::Fail(err) => Parsed::Fail(err),
        }
    }
}

/// The argument list and body of a function, starting at the opening `(`.
pub open spec fn sp_function(ts: Seq<Seq<char>>, pos: int) -> Parsed<
    (Seq<ArgumentS>, Seq<StatementS>),
> {
    match sp_arguments(ts, pos + 1, Seq::empty()) {
        Parsed::Done(args, p2) => match sp_scope(ts, p2) {
            Parsed::Done(body, p3) => Parsed::Done((args, body), p3),
            Parsed::Fail(err) => Parsed::Fail(err),
        },
        Parsed::Fail(err) => Parsed::Fail(err),
    }
}

/// One declaration: a type annotation, a name, then a function's argument
/// list and body.  Only functions have surface syntax.
pub open spec fn sp_declaration(ts: Seq<Seq<char>>, pos: int) -> Parsed<DeclarationS> {
    if pos < 0 || pos >= ts.len() {
        Parsed::Fail(perr(Expected::Declaration, ts, pos))
    } else {
        let ty = ts[pos];
        if pos + 1 >= ts.len() {
            Parsed::Fail(perr(Expected::FunctionName, ts, pos + 1))
        } else {
            let name = ts[pos + 1];
            if pos + 2 >= ts.len() || ts[pos + 2] != "("@ {
                Parsed::Fail(perr(Expected::ArgumentList, ts, pos + 2))
            } else {
                match sp_function(ts, pos + 2) {
                    Parsed::Done((args, body), p3) => Parsed::Done(
                        DeclarationS::Func { name, ty, args, body },
                        p3,
                    ),
                    Parsed::Fail(err) => Parsed::Fail(err),
                }
            }
        }
    }
}

/// All declarations until the token sequence is exhausted.
pub open spec fn sp_declarations(ts: Seq<Seq<char>>, pos: int) -> Parsed<Seq<DeclarationS>>
    decreases ts.len() - pos,
{
    if pos < 0 || pos >= ts.len() {
        Parsed::Done(Seq::empty(), pos)
    } else {
        match sp_declaration(ts, pos) {
            Parsed::Done(d, p2) => if pos < p2 <= ts.len() {
                match sp_declarations(ts, p2) {
                    Parsed::Done(ds, p3) => Parsed::Done(seq![d] + ds, p3),
                    Parsed::Fail(err) => Parsed::Fail(err),
                }
            } else {
                Parsed::Fail(perr(Expected::Declaration, ts, pos))
            },
            Parsed::Fail(err) => Parsed::Fail(err),
        }
    }
}

/// The parse of a whole token sequence: the program, or the first error.
/// A parse succeeds only if it consumes every token.
pub open spec fn sp_parse(ts: Seq<Seq<char>>) -> Result<ProgramS, ParseErrorS> {
    match sp_declarations(ts, 0) {
        Parsed::Done(ds, p) => Result::Ok(ProgramS { decls: ds }),
        Parsed::Fail(err) => Result::Err(err),
    }
}

/// A successful parse consumes the whole token sequence: a program is
/// only well-formed with no leftover tokens.
pub proof fn lemma_parse_consumes_all_tokens(ts: Seq<Seq<char>>, pos: int)
    requires
        0 <= pos <= ts.len(),
        sp_declarations(ts, pos) is Done,
    ensures
        sp_declarations(ts, pos) matches Parsed::Done(ds, p) && p == ts.len(),
    decreases ts.len() - pos,
{
    if pos < ts.len() {
        match sp_declaration(ts, pos) {
            Parsed::Done(d, p2) => {
                if pos < p2 <= ts.len() {
                    lemma_parse_consumes_all_tokens(ts, p2);
                }
            },
            Parsed::Fail(err) => {
            },
        }
    }
}

// ----------------------------------------------------------------------------
// The executable parser: a forward cursor over a random-access token
// sequence, with one token of lookahead.  Every method is proved to
// return exactly the outcome of its specification-level counterpart.
// ----------------------------------------------------------------------------
/// Whether a string equals a literal, character for character.
pub(crate) fn tok_is(t: &String, lit: &str) -> (r: bool)
    ensures
        r == (t@ == lit@),
{
    let s = String::from_str(lit);
    *t == s
}

/// The operator a token spells, if any.
fn op_of_str(t: &String) -> (r: Option<OperatorIdentifier>)
    ensures
        r == op_of_token(t@),
{
    if tok_is(t, "+") {
        Option::Some(OperatorIdentifier::Add)
    } else if tok_is(t, "-") {
        Option::Some(OperatorIdentifier::Subtract)
    } else if tok_is(t, "*") {
        Option::Some(OperatorIdentifier::Multiply)
    } else if tok_is(t, "/") {
        Option::Some(OperatorIdentifier::Divide)
    } else if tok_is(t, "^") {
        Option::Some(OperatorIdentifier::Exponential)
    } else if tok_is(t, "<<") {
        Option::Some(OperatorIdentifier::LeftShift)
    } else if tok_is(t, ">>") {
        Option::Some(OperatorIdentifier::RightShift)
    } else if tok_is(t, "&&") {
        Option::Some(OperatorIdentifier::And)
    } else if tok_is(t, "||") {
        Option::Some(OperatorIdentifier::Or)
    } else if tok_is(t, "%%") {
        Option::Some(OperatorIdentifier::Xor)
    } else if tok_is(t, "=") {
        Option::Some(OperatorIdentifier::Assignment)
    } else {
        Option::None
    }
}

/// An operator's binding strength.
fn precedence_of(op: OperatorIdentifier) -> (r: u32)
    ensures
        r as int == spec_precedence(op),
{
    match op {
        OperatorIdentifier::Assignment => 1,
        OperatorIdentifier::And => 2,
        OperatorIdentifier::Or => 2,
        OperatorIdentifier::Xor => 2,
        OperatorIdentifier::LeftShift => 4,
        OperatorIdentifier::RightShift => 4,
        OperatorIdentifier::Add => 5,
        OperatorIdentifier::Subtract => 5,
        OperatorIdentifier::Multiply => 6,
        OperatorIdentifier::Divide => 6,
        OperatorIdentifier::Exponential => 7,
    }
}

/// The minimum precedence for an operator's right operand.
fn next_min_prec_of(op: OperatorIdentifier) -> (r: u32)
    ensures
        r as int == next_min_prec(op),
{
    let p = precedence_of(op);
    if op == OperatorIdentifier::Exponential || op == OperatorIdentifier::Assignment {
        p
    } else {
        p + 1
    }
}

/// Whether a token is a relational operator spelling.
fn is_relational_str(t: &String) -> (r: bool)
    ensures
        r == is_relational_token(t@),
{
    tok_is(t, ">") || tok_is(t, "<") || tok_is(t, ">=") || tok_is(t, "<=")
}

/// Whether a token is punctuation that can never begin an expression.
fn is_blocker(t: &String) -> (r: bool)
    ensures
        r == is_expr_blocker(t@),
{
    tok_is(t, ")") || tok_is(t, "{") || tok_is(t, "}") || tok_is(t, "[") || tok_is(t, "]")
        || tok_is(t, ":") || tok_is(t, ";") || tok_is(t, ",")
}

/// Whether a token holds a `.` anywhere.
fn contains_dot(t: &str) -> (r: bool)
    ensures
        r == has_dot(t@),
{
    let n: usize = t.unicode_len();
    let mut i: usize = 0;
    while i < n
        invariant
            n == t@.len(),
            0 <= i <= n,
            forall|j: int| 0 <= j < i ==> #[trigger] t@[j] != '.',
        decreases n - i,
    {
        if t.get_char(i) == '.' {
            return true;
        }
        i = i + 1;
    }
    false
}

/// Whether a token has the shape of a floating-point literal: exactly one
/// `.`, every other character a digit.
fn is_float_shape(t: &str) -> (r: bool)
    ensures
        r == is_float_token(t@),
{
    let n: usize = t.unicode_len();
    if n == 0 {
        return false;
    }
    let mut i: usize = 0;
    let mut dots: usize = 0;
    let mut dotk: usize = 0;
    while i < n
        invariant
            n == t@.len(),
            0 <= i <= n,
            dots <= 1,
            dots == 1 ==> dotk < i && t@[dotk as int] == '.',
            forall|j: int|
                0 <= j < i && !(dots == 1 && j == dotk) ==> is_digit_char(#[trigger] t@[j]),
        decreases n - i,
    {
        let c = t.get_char(i);
        let cu: u32 = c as u32;
        if c == '.' {
            if dots == 1 {
                proof {
                    assert forall|k: int|
                        !(0 <= k < t@.len() && #[trigger] t@[k] == '.' && (forall|ii: int|
                            0 <= ii < t@.len() && ii != k ==> is_digit_char(
                                #[trigger] t@[ii],
                            ))) by {
                        if 0 <= k < t@.len() && t@[k] == '.' {
                            if k == dotk {
                                assert(t@[i as int] == '.');
                                assert(!is_digit_char(t@[i as int]));
                            } else {
                                assert(t@[dotk as int] == '.');
                                assert(!is_digit_char(t@[dotk as int]));
                            }
                        }
                    }
                }
                return false;
            }
            dots = 1;
            dotk = i;
        } else if 48 <= cu && cu <= 57 {
        } else {
            proof {
                assert forall|k: int|
                    !(0 <= k < t@.len() && #[trigger] t@[k] == '.' && (forall|ii: int|
                        0 <= ii < t@.len() && ii != k ==> is_digit_char(#[trigger] t@[ii]))) by {
                    if 0 <= k < t@.len() && t@[k] == '.' {
                        assert(t@[i as int] != '.');
                        assert(!is_digit_char(t@[i as int]));
                    }
                }
            }
            return false;
        }
        i = i + 1;
    }
    if dots == 1 {
        proof {
            assert(t@[dotk as int] == '.');
            assert(forall|ii: int|
                0 <= ii < t@.len() && ii != dotk ==> is_digit_char(#[trigger] t@[ii]));
        }
        true
    } else {
        proof {
            assert forall|k: int|
                !(0 <= k < t@.len() && #[trigger] t@[k] == '.' && (forall|ii: int|
                    0 <= ii < t@.len() && ii != k ==> is_digit_char(#[trigger] t@[ii]))) by {
                if 0 <= k < t@.len() {
                    assert(is_digit_char(t@[k]));
                }
            }
        }
        false
    }
}

/// The parser: the token sequence and the cursor.
pub struct Parser {
    pub tokens: Vec<String>,
    pub position: usize,
}

impl Parser {
    /// The tokens as character sequences.
    pub open spec fn toks(self) -> Seq<Seq<char>> {
        self.tokens.deep_view()
    }

    /// The cursor never passes the end of the token sequence.
    pub open spec fn wf(self) -> bool {
        self.position <= self.tokens@.len()
    }

    /// A parser reading `tokens` from the beginning.
    pub fn new(tokens: Vec<String>) -> (r: Parser)
        ensures
            r.wf(),
            r.position == 0,
            r.tokens == tokens,
    {
        Parser { tokens, position: 0 }
    }

    /// Whether a token is left to read.
    pub fn has_more_tokens(&self) -> (r: bool)
        ensures
            r == (self.position < self.tokens@.len()),
            self.tokens@.len() <= usize::MAX,
    {
        self.position < self.tokens.len()
    }

    /// The error raised at `position` when `expected` was needed.
    fn error_at(&self, expected: Expected, position: usize) -> (r: ParseError)
        ensures
            parse_error_view(r) == perr(expected, self.toks(), position as int),
    {
        let found: Option<String> = if position < self.tokens.len() {
            Option::Some(self.tokens[position].clone())
        } else {
            Option::None
        };
        ParseError { expected, found, position }
    }

    /// A numeric literal, from a digit-initial token.
    pub fn parse_literal(&mut self) -> (r: Result<Literal, ParseError>)
        requires
            old(self).wf(),
        ensures
            final(self).tokens == old(self).tokens,
            final(self).wf(),
            old(self).position <= final(self).position,
            match r {
                Result::Ok(lit) => sp_literal(old(self).toks(), old(self).position as int)
                    == Parsed::Done(literal_view(lit), final(self).position as int) && old(self).position < final(self).position,
                Result::Err(err) => sp_literal(old(self).toks(), old(self).position as int)
                    == Parsed::<LiteralS>::Fail(parse_error_view(err)),
            },
    {
        let ghost ts = self.toks();
        let ghost pos0 = self.position as int;
        if !self.has_more_tokens() {
            return Result::Err(self.error_at(Expected::IntegerLiteral, self.position));
        }
        let t = self.tokens[self.position].clone();
        proof {
            assert(t@ == ts[pos0]);
        }
        if contains_dot(t.as_str()) {
            if is_float_shape(t.as_str()) {
                self.position = self.position + 1;
                Result::Ok(Literal::Float64(t))
            } else {
                Result::Err(self.error_at(Expected::FloatLiteral, self.position))
            }
        } else {
            match parse_int_token(t.as_str()) {
                Option::Some(v) => {
                    self.position = self.position + 1;
                    proof {
                        assert(v as int == digits_val(ts[pos0]));
                        assert(digits_val(ts[pos0]) as i64 == v);
                    }
                    Result::Ok(Literal::Int64(v))
                },
                Option::None => Result::Err(
                    self.error_at(Expected::IntegerLiteral, self.position),
                ),
            }
        }
    }

    /// The next token read as a variable name.
    pub fn parse_variable(&mut self) -> (r: Result<Variable, ParseError>)
        requires
            old(self).wf(),
        ensures
            final(self).tokens == old(self).tokens,
            final(self).wf(),
            match r {
                Result::Ok(v) => old(self).position < old(self).tokens@.len() && v.identifier@
                    == old(self).toks()[old(self).position as int] && final(self).position == old(self).position + 1,
                Result::Err(err) => old(self).position >= old(self).tokens@.len() && final(self).position == old(self).position && parse_error_view(err) == perr(
                    Expected::VariableName,
                    old(self).toks(),
                    old(self).position as int,
                ),
            },
    {
        if !self.has_more_tokens() {
            return Result::Err(self.error_at(Expected::VariableName, self.position));
        }
        let identifier = self.tokens[self.position].clone();
        self.position = self.position + 1;
        Result::Ok(Variable { identifier })
    }

    /// The words of a string literal, after the opening quote, up to and
    /// including the closing quote, joined with single spaces.
    fn parse_string_literal(&mut self) -> (r: Result<Expression, ParseError>)
        requires
            old(self).wf(),
        ensures
            final(self).tokens == old(self).tokens,
            final(self).wf(),
            old(self).position <= final(self).position,
            match r {
                Result::Ok(e) => sp_string_words(
                    old(self).toks(),
                    old(self).position as int,
                    Seq::empty(),
                    false,
                ) matches Parsed::Done(s, p2) && p2 == final(self).position as int
                    && expression_view(e) == (ExpressionS::Lit { value: LiteralS::Str(s) }) && old(self).position < final(self).position,
                Result::Err(err) => sp_string_words(
                    old(self).toks(),
                    old(self).position as int,
                    Seq::empty(),
                    false,
                ) == Parsed::<Seq<char>>::Fail(parse_error_view(err)),
            },
    {
        let ghost ts = self.toks();
        let ghost pos0 = self.position as int;
        let mut acc = String::new();
        let mut started = false;
        loop
            invariant
                self.wf(),
                self.tokens == old(self).tokens,
                ts == self.toks(),
                pos0 == old(self).position as int,
                old(self).position <= self.position,
                started ==> old(self).position < self.position,
                sp_string_words(ts, self.position as int, acc@, started) == sp_string_words(
                    ts,
                    pos0,
                    Seq::empty(),
                    false,
                ),
            decreases self.tokens@.len() - self.position,
        {
            if !self.has_more_tokens() {
                return Result::Err(self.error_at(Expected::StringClose, self.position));
            }
            proof {
                assert(self.tokens@[self.position as int]@ == ts[self.position as int]);
            }
            if tok_is(&self.tokens[self.position], "\"") {
                self.position = self.position + 1;
                let e = Expression::Literal(Box::new(Literal::StringLit(acc)));
                return Result::Ok(e);
            }
            let w = self.tokens[self.position].clone();
            let ghost acc0 = acc@;
            if started {
                acc.append(" ");
                acc.append(w.as_str());
                proof {
                    assert(acc@ =~= acc0 + " "@ + ts[self.position as int]);
                }
            } else {
                acc = w;
                started = true;
            }
            self.position = self.position + 1;
        }
    }

    /// A primary expression.
    pub fn parse_primary(&mut self) -> (r: Result<Expression, ParseError>)
        requires
            old(self).wf(),
        ensures
            final(self).tokens == old(self).tokens,
            final(self).wf(),
            old(self).position <= final(self).position,
            match r {
                Result::Ok(e) => sp_primary(old(self).toks(), old(self).position as int)
                    == Parsed::Done(expression_view(e), final(self).position as int) && old(self).position < final(self).position,
                Result::Err(err) => sp_primary(old(self).toks(), old(self).position as int)
                    == Parsed::<ExpressionS>::Fail(parse_error_view(err)),
            },
        decreases old(self).tokens@.len() - old(self).position, 0int,
    {
        let ghost ts = self.toks();
        let ghost pos0 = self.position as int;
        if !self.has_more_tokens() {
            return Result::Err(self.error_at(Expected::Expression, self.position));
        }
        let t = self.tokens[self.position].clone();
        proof {
            assert(t@ == ts[pos0]);
        }
        let tlen: usize = t.as_str().unicode_len();
        if tlen == 0 {
            return Result::Err(self.error_at(Expected::Expression, self.position));
        }
        if op_of_str(&t).is_some() {
            return Result::Err(self.error_at(Expected::Expression, self.position));
        }
        if is_relational_str(&t) {
            return Result::Err(self.error_at(Expected::Expression, self.position));
        }
        if is_blocker(&t) {
            return Result::Err(self.error_at(Expected::Expression, self.position));
        }
        if tok_is(&t, "(") {
            self.position = self.position + 1;
            match self.parse_expression_prec(0) {
                Result::Ok(e) => {
                    if self.has_more_tokens() && tok_is(&self.tokens[self.position], ")") {
                        proof {
                            assert(self.tokens@[self.position as int]@ == ts[self.position as int]);
                        }
                        self.position = self.position + 1;
                        Result::Ok(e)
                    } else {
                        Result::Err(self.error_at(Expected::ParenClose, self.position))
                    }
                },
                Result::Err(err) => Result::Err(err),
            }
        } else if tok_is(&t, "\"") {
            self.position = self.position + 1;
            match self.parse_string_literal() {
                Result::Ok(e) => Result::Ok(e),
                Result::Err(err) => Result::Err(err),
            }
        } else if tok_is(&t, "true") {
            self.position = self.position + 1;
            Result::Ok(Expression::Literal(Box::new(Literal::Boolean(true))))
        } else if tok_is(&t, "false") {
            self.position = self.position + 1;
            Result::Ok(Expression::Literal(Box::new(Literal::Boolean(false))))
        } else {
            let c0 = t.as_str().get_char(0);
            if 48 <= c0 as u32 && c0 as u32 <= 57 {
                match self.parse_literal() {
                    Result::Ok(lit) => Result::Ok(Expression::Literal(Box::new(lit))),
                    Result::Err(err) => Result::Err(err),
                }
            } else if self.position + 1 < self.tokens.len() && tok_is(
                &self.tokens[self.position + 1],
                "(",
            ) {
                proof {
                    assert(self.tokens@[pos0 + 1]@ == ts[pos0 + 1]);
                }
                self.position = self.position + 2;
                match self.parse_call_arguments() {
                    Result::Ok(args) => Result::Ok(
                        Expression::FunctionCall(
                            Box::new(FunctionCall { identifier: t, arguments: args }),
                        ),
                    ),
                    Result::Err(err) => Result::Err(err),
                }
            } else {
                proof {
                    if pos0 + 1 < ts.len() {
                        assert(self.tokens@[pos0 + 1]@ == ts[pos0 + 1]);
                    }
                }
                self.position = self.position + 1;
                Result::Ok(Expression::Variable(Box::new(Variable { identifier: t })))
            }
        }
    }

    /// The actual arguments of a call, after the opening parenthesis, up
    /// to and including the closing one.
    fn parse_call_arguments(&mut self) -> (r: Result<Vec<Expression>, ParseError>)
        requires
            old(self).wf(),
        ensures
            final(self).tokens == old(self).tokens,
            final(self).wf(),
            old(self).position <= final(self).position,
            match r {
                Result::Ok(args) => sp_call_args(
                    old(self).toks(),
                    old(self).position as int,
                    Seq::empty(),
                ) == Parsed::Done(expressions_view(args@), final(self).position as int) && old(self).position < final(self).position,
                Result::Err(err) => sp_call_args(
                    old(self).toks(),
                    old(self).position as int,
                    Seq::empty(),
                ) == Parsed::<Seq<ExpressionS>>::Fail(parse_error_view(err)),
            },
        decreases old(self).tokens@.len() - old(self).position, 3int,
    {
        let ghost ts = self.toks();
        let ghost pos0 = self.position as int;
        let mut result: Vec<Expression> = Vec::new();
        proof {
            assert(result@ =~= Seq::<Expression>::empty());
        }
        loop
            invariant
                self.wf(),
                self.tokens == old(self).tokens,
                ts == self.toks(),
                pos0 == old(self).position as int,
                old(self).position <= self.position,
                sp_call_args(ts, self.position as int, expressions_view(result@))
                    == sp_call_args(ts, pos0, Seq::empty()),
            decreases self.tokens@.len() - self.position,
        {
            if !self.has_more_tokens() {
                return Result::Err(self.error_at(Expected::CallClose, self.position));
            }
            proof {
                assert(self.tokens@[self.position as int]@ == ts[self.position as int]);
            }
            if tok_is(&self.tokens[self.position], ")") {
                self.position = self.position + 1;
                return Result::Ok(result);
            }
            match self.parse_expression_prec(0) {
                Result::Ok(e) => {
                    let ghost res0 = result@;
                    result.push(e);
                    proof {
                        lemma_expressions_view_push(res0, e);
                        if self.position < self.tokens@.len() {
                            assert(self.tokens@[self.position as int]@ == ts[self.position as int]);
                        }
                    }
                    if self.has_more_tokens() && tok_is(&self.tokens[self.position], ",") {
                        self.position = self.position + 1;
                    }
                },
                Result::Err(err) => {
                    return Result::Err(err);
                },
            }
        }
    }

    /// An expression at a minimum operator precedence, by precedence
    /// climbing.
    pub fn parse_expression_prec(&mut self, min_prec: u32) -> (r: Result<Expression, ParseError>)
        requires
            old(self).wf(),
        ensures
            final(self).tokens == old(self).tokens,
            final(self).wf(),
            old(self).position <= final(self).position,
            match r {
                Result::Ok(e) => sp_expr(
                    old(self).toks(),
                    old(self).position as int,
                    min_prec as int,
                ) == Parsed::Done(expression_view(e), final(self).position as int) && old(self).position < final(self).position,
                Result::Err(err) => sp_expr(
                    old(self).toks(),
                    old(self).position as int,
                    min_prec as int,
                ) == Parsed::<ExpressionS>::Fail(parse_error_view(err)),
            },
        decreases old(self).tokens@.len() - old(self).position, 2int,
    {
        let ghost ts = self.toks();
        let ghost pos0 = self.position as int;
        let mut lhs: Expression;
        match self.parse_primary() {
            Result::Ok(e) => {
                lhs = e;
            },
            Result::Err(err) => {
                return Result::Err(err);
            },
        }
        loop
            invariant
                self.wf(),
                self.tokens == old(self).tokens,
                ts == self.toks(),
                pos0 == old(self).position as int,
                pos0 < self.position,
                sp_expr_rest(ts, expression_view(lhs), self.position as int, min_prec as int)
                    == sp_expr(ts, pos0, min_prec as int),
            decreases self.tokens@.len() - self.position,
        {
            if !self.has_more_tokens() {
                proof {
                    assert(ts == old(self).toks());
                    lemma_expr_rest_stops(
                        ts,
                        expression_view(lhs),
                        self.position as int,
                        min_prec as int,
                    );
                }
                return Result::Ok(lhs);
            }
            proof {
                assert(self.tokens@[self.position as int]@ == ts[self.position as int]);
            }
            let opo = op_of_str(&self.tokens[self.position]);
            match opo {
                Option::None => {
                    proof {
                        assert(ts == old(self).toks());
                        lemma_expr_rest_stops(
                            ts,
                            expression_view(lhs),
                            self.position as int,
                            min_prec as int,
                        );
                    }
                    return Result::Ok(lhs);
                },
                Option::Some(op) => {
                    if precedence_of(op) < min_prec {
                        proof {
                            assert(ts == old(self).toks());
                            lemma_expr_rest_stops(
                                ts,
                                expression_view(lhs),
                                self.position as int,
                                min_prec as int,
                            );
                        }
                        return Result::Ok(lhs);
                    }
                    proof {
                        lemma_expr_rest_step(
                            ts,
                            expression_view(lhs),
                            self.position as int,
                            min_prec as int,
                        );
                    }
                    self.position = self.position + 1;
                    let nm = next_min_prec_of(op);
                    match self.parse_expression_prec(nm) {
                        Result::Ok(rhs) => {
                            lhs = Expression::OperatorCall(
                                Box::new(
                                    OperatorCall {
                                        operator_identifier: op,
                                        lhs: Box::new(lhs),
                                        rhs: Box::new(rhs),
                                    },
                                ),
                            );
                        },
                        Result::Err(err) => {
                            return Result::Err(err);
                        },
                    }
                },
            }
        }
    }

    /// A `var` statement: `var name = expression ;`.
    pub fn parse_variable_declaration(&mut self) -> (r: Result<VariableDeclaration, ParseError>)
        requires
            old(self).wf(),
        ensures
            final(self).tokens == old(self).tokens,
            final(self).wf(),
            old(self).position <= final(self).position,
            match r {
                Result::Ok(vd) => sp_var_decl(old(self).toks(), old(self).position as int)
                    == Parsed::Done(
                    StatementS::VarDecl {
                        name: vd.variable.identifier@,
                        init: expression_view(*vd.expression),
                    },
                    final(self).position as int,
                ) && old(self).position < final(self).position,
                Result::Err(err) => sp_var_decl(old(self).toks(), old(self).position as int)
                    == Parsed::<StatementS>::Fail(parse_error_view(err)),
            },
    {
        let ghost ts = self.toks();
        let ghost pos0 = self.position as int;
        if !self.has_more_tokens() {
            return Result::Err(self.error_at(Expected::Statement, self.position));
        }
        proof {
            assert(self.tokens@[pos0]@ == ts[pos0]);
        }
        if !tok_is(&self.tokens[self.position], "var") {
            return Result::Err(self.error_at(Expected::Statement, self.position));
        }
        self.position = self.position + 1;
        let variable = match self.parse_variable() {
            Result::Ok(v) => Box::new(v),
            Result::Err(err) => {
                return Result::Err(err);
            },
        };
        if !self.has_more_tokens() {
            return Result::Err(self.error_at(Expected::AssignmentOperator, self.position));
        }
        proof {
            assert(self.tokens@[pos0 + 2]@ == ts[pos0 + 2]);
        }
        if !tok_is(&self.tokens[self.position], "=") {
            return Result::Err(self.error_at(Expected::AssignmentOperator, self.position));
        }
        self.position = self.position + 1;
        let expression = match self.parse_expression_prec(0) {
            Result::Ok(e) => Box::new(e),
            Result::Err(err) => {
                return Result::Err(err);
            },
        };
        proof {
            if self.position < self.tokens@.len() {
                assert(self.tokens@[self.position as int]@ == ts[self.position as int]);
            }
        }
        if self.has_more_tokens() && tok_is(&self.tokens[self.position], ";") {
            self.position = self.position + 1;
            Result::Ok(VariableDeclaration { variable, expression })
        } else {
            Result::Err(self.error_at(Expected::StatementTerminator, self.position))
        }
    }

    /// One statement, dispatched on one token of lookahead.
    pub fn parse_statement(&mut self) -> (r: Result<Statement, ParseError>)
        requires
            old(self).wf(),
        ensures
            final(self).tokens == old(self).tokens,
            final(self).wf(),
            old(self).position <= final(self).position,
            match r {
                Result::Ok(s) => sp_statement(old(self).toks(), old(self).position as int)
                    == Parsed::Done(statement_view(s), final(self).position as int) && old(
                    self,
                ).position < final(self).position,
                Result::Err(err) => sp_statement(old(self).toks(), old(self).position as int)
                    == Parsed::<StatementS>::Fail(parse_error_view(err)),
            },
        decreases old(self).tokens@.len() - old(self).position, 1int,
    {
        let ghost ts = self.toks();
        let ghost pos0 = self.position as int;
        if !self.has_more_tokens() {
            return Result::Err(self.error_at(Expected::Statement, self.position));
        }
        proof {
            assert(self.tokens@[pos0]@ == ts[pos0]);
        }
        let t = self.tokens[self.position].clone();
        if tok_is(&t, "var") {
            match self.parse_variable_declaration() {
                Result::Ok(vd) => Result::Ok(Statement::VariableDeclaration(Box::new(vd))),
                Result::Err(err) => Result::Err(err),
            }
        } else if tok_is(&t, "return") {
            self.position = self.position + 1;
            match self.parse_expression_prec(0) {
                Result::Ok(e) => {
                    proof {
                        if self.position < self.tokens@.len() {
                            assert(self.tokens@[self.position as int]@ == ts[self.position as int]);
                        }
                    }
                    if self.has_more_tokens() && tok_is(&self.tokens[self.position], ";") {
                        self.position = self.position + 1;
                        Result::Ok(Statement::Return(Box::new(e)))
                    } else {
                        Result::Err(self.error_at(Expected::StatementTerminator, self.position))
                    }
                },
                Result::Err(err) => Result::Err(err),
            }
        } else if tok_is(&t, "while") {
            proof {
                if pos0 + 1 < ts.len() {
                    assert(self.tokens@[pos0 + 1]@ == ts[pos0 + 1]);
                }
            }
            if !(self.position + 1 < self.tokens.len() && tok_is(
                &self.tokens[self.position + 1],
                "(",
            )) {
                return Result::Err(self.error_at(Expected::ConditionOpen, self.position + 1));
            }
            self.position = self.position + 2;
            match self.parse_expression_prec(0) {
                Result::Ok(c) => {
                    proof {
                        if self.position < self.tokens@.len() {
                            assert(self.tokens@[self.position as int]@ == ts[self.position as int]);
                        }
                    }
                    if self.has_more_tokens() && tok_is(&self.tokens[self.position], ")") {
                        self.position = self.position + 1;
                        match self.parse_scope() {
                            Result::Ok(body) => Result::Ok(
                                Statement::While(
                                    Box::new(
                                        WhileLoop { condition: Box::new(c), body: Box::new(body) },
                                    ),
                                ),
                            ),
                            Result::Err(err) => Result::Err(err),
                        }
                    } else {
                        Result::Err(self.error_at(Expected::ConditionClose, self.position))
                    }
                },
                Result::Err(err) => Result::Err(err),
            }
        } else {
            match self.parse_expression_prec(0) {
                Result::Ok(e) => {
                    proof {
                        if self.position < self.tokens@.len() {
                            assert(self.tokens@[self.position as int]@ == ts[self.position as int]);
                        }
                    }
                    if self.has_more_tokens() && tok_is(&self.tokens[self.position], ";") {
                        self.position = self.position + 1;
                        Result::Ok(Statement::Expression(Box::new(e)))
                    } else {
                        Result::Err(self.error_at(Expected::StatementTerminator, self.position))
                    }
                },
                Result::Err(err) => Result::Err(err),
            }
        }
    }

    /// A brace-delimited scope.
    pub fn parse_scope(&mut self) -> (r: Result<Scope, ParseError>)
        requires
            old(self).wf(),
        ensures
            final(self).tokens == old(self).tokens,
            final(self).wf(),
            old(self).position <= final(self).position,
            match r {
                Result::Ok(s) => sp_scope(old(self).toks(), old(self).position as int)
                    == Parsed::Done(
                    statements_view(s.statements@),
                    final(self).position as int,
                ) && old(self).position < final(self).position,
                Result::Err(err) => sp_scope(old(self).toks(), old(self).position as int)
                    == Parsed::<Seq<StatementS>>::Fail(parse_error_view(err)),
            },
        decreases old(self).tokens@.len() - old(self).position, 2int,
    {
        let ghost ts = self.toks();
        let ghost pos0 = self.position as int;
        proof {
            if pos0 < ts.len() {
                assert(self.tokens@[pos0]@ == ts[pos0]);
            }
        }
        if !(self.has_more_tokens() && tok_is(&self.tokens[self.position], "{")) {
            return Result::Err(self.error_at(Expected::ScopeOpen, self.position));
        }
        self.position = self.position + 1;
        let mut statements: Vec<Statement> = Vec::new();
        proof {
            assert(statements@ =~= Seq::<Statement>::empty());
            assert(statements_view(statements@) =~= Seq::<StatementS>::empty());
            assert(prepend_stmts(statements_view(statements@), sp_statements(ts, pos0 + 1))
                == sp_statements(ts, pos0 + 1));
        }
        loop
            invariant
                self.wf(),
                self.tokens == old(self).tokens,
                ts == self.toks(),
                pos0 == old(self).position as int,
                pos0 < self.position,
                pos0 < ts.len() && ts[pos0] == "{"@,
                prepend_stmts(statements_view(statements@), sp_statements(ts, self.position as int))
                    == sp_statements(ts, pos0 + 1),
            decreases self.tokens@.len() - self.position,
        {
            if !self.has_more_tokens() {
                proof {
                    lemma_statements_stop(ts, self.position as int);
                    lemma_scope_unfold(ts, pos0);
                    assert(statements_view(statements@) + Seq::<StatementS>::empty()
                        =~= statements_view(statements@));
                }
                return Result::Err(self.error_at(Expected::ScopeClose, self.position));
            }
            proof {
                assert(self.tokens@[self.position as int]@ == ts[self.position as int]);
            }
            if tok_is(&self.tokens[self.position], "}") {
                proof {
                    lemma_statements_stop(ts, self.position as int);
                    lemma_scope_unfold(ts, pos0);
                    assert(statements_view(statements@) + Seq::<StatementS>::empty()
                        =~= statements_view(statements@));
                }
                self.position = self.position + 1;
                return Result::Ok(Scope { statements });
            }
            let ghost cur = self.position as int;
            match self.parse_statement() {
                Result::Ok(s) => {
                    let ghost stmts0 = statements@;
                    statements.push(s);
                    proof {
                        lemma_statements_step(ts, cur);
                        lemma_statements_view_push(stmts0, s);
                        lemma_prepend_stmts_push(
                            statements_view(stmts0),
                            statement_view(s),
                            sp_statements(ts, self.position as int),
                        );
                    }
                },
                Result::Err(err) => {
                    proof {
                        lemma_statements_step(ts, cur);
                        lemma_scope_unfold(ts, pos0);
                    }
                    return Result::Err(err);
                },
            }
        }
    }

    /// One formal argument: `name : type`.
    pub fn parse_argument(&mut self) -> (r: Result<Argument, ParseError>)
        requires
            old(self).wf(),
        ensures
            final(self).tokens == old(self).tokens,
            final(self).wf(),
            old(self).position <= final(self).position,
            match r {
                Result::Ok(a) => sp_argument(old(self).toks(), old(self).position as int)
                    == Parsed::Done(argument_view(a), final(self).position as int) && old(
                    self,
                ).position < final(self).position,
                Result::Err(err) => sp_argument(old(self).toks(), old(self).position as int)
                    == Parsed::<ArgumentS>::Fail(parse_error_view(err)),
            },
    {
        let ghost ts = self.toks();
        let ghost pos0 = self.position as int;
        if !self.has_more_tokens() {
            return Result::Err(self.error_at(Expected::ArgumentListClose, self.position));
        }
        let variable = match self.parse_variable() {
            Result::Ok(v) => Box::new(v),
            Result::Err(err) => {
                return Result::Err(err);
            },
        };
        proof {
            if pos0 + 1 < ts.len() {
                assert(self.tokens@[pos0 + 1]@ == ts[pos0 + 1]);
            }
        }
        if !(self.has_more_tokens() && tok_is(&self.tokens[self.position], ":")) {
            return Result::Err(self.error_at(Expected::ArgumentSeparator, self.position));
        }
        self.position = self.position + 1;
        if !self.has_more_tokens() {
            return Result::Err(self.error_at(Expected::ArgumentType, self.position));
        }
        proof {
            assert(self.tokens@[pos0 + 2]@ == ts[pos0 + 2]);
        }
        let identifier = self.tokens[self.position].clone();
        self.position = self.position + 1;
        Result::Ok(Argument { variable, type_annotation: Box::new(TypeAnnotation { identifier }) })
    }

    /// The formal arguments of a function, after the opening parenthesis,
    /// up to and including the closing one.
    fn parse_arguments(&mut self) -> (r: Result<Vec<Argument>, ParseError>)
        requires
            old(self).wf(),
        ensures
            final(self).tokens == old(self).tokens,
            final(self).wf(),
            old(self).position <= final(self).position,
            match r {
                Result::Ok(args) => sp_arguments(
                    old(self).toks(),
                    old(self).position as int,
                    Seq::empty(),
                ) == Parsed::Done(arguments_view(args@), final(self).position as int) && old(
                    self,
                ).position < final(self).position,
                Result::Err(err) => sp_arguments(
                    old(self).toks(),
                    old(self).position as int,
                    Seq::empty(),
                ) == Parsed::<Seq<ArgumentS>>::Fail(parse_error_view(err)),
            },
    {
        let ghost ts = self.toks();
        let ghost pos0 = self.position as int;
        let mut result: Vec<Argument> = Vec::new();
        proof {
            assert(result@ =~= Seq::<Argument>::empty());
            assert(arguments_view(result@) =~= Seq::<ArgumentS>::empty());
        }
        loop
            invariant
                self.wf(),
                self.tokens == old(self).tokens,
                ts == self.toks(),
                pos0 == old(self).position as int,
                pos0 <= self.position,
                sp_arguments(ts, self.position as int, arguments_view(result@)) == sp_arguments(
                    ts,
                    pos0,
                    Seq::empty(),
                ),
            decreases self.tokens@.len() - self.position,
        {
            let ghost cur = self.position as int;
            proof {
                lemma_arguments_unfold(ts, cur, arguments_view(result@));
            }
            if !self.has_more_tokens() {
                return Result::Err(self.error_at(Expected::ArgumentListClose, self.position));
            }
            proof {
                assert(self.tokens@[cur]@ == ts[cur]);
            }
            if tok_is(&self.tokens[self.position], ")") {
                self.position = self.position + 1;
                return Result::Ok(result);
            }
            match self.parse_argument() {
                Result::Ok(a) => {
                    let ghost args0 = result@;
                    result.push(a);
                    proof {
                        assert(arguments_view(args0.push(a)) =~= arguments_view(args0).push(
                            argument_view(a),
                        ));
                        lemma_arguments_unfold(
                            ts,
                            self.position as int,
                            arguments_view(args0).push(argument_view(a)),
                        );
                    }
                },
                Result::Err(err) => {
                    return Result::Err(err);
                },
            }
        }
    }

    /// A function's argument list and body, after its name; `identifier`
    /// and `type_annotation` come from the declaration header.  The cursor
    /// must stand on the opening parenthesis.
    pub fn parse_function(
        &mut self,
        identifier: String,
        type_annotation: Box<TypeAnnotation>,
    ) -> (r: Result<Function, ParseError>)
        requires
            old(self).wf(),
            old(self).position < old(self).tokens@.len(),
            old(self).toks()[old(self).position as int] == "("@,
        ensures
            final(self).tokens == old(self).tokens,
            final(self).wf(),
            old(self).position <= final(self).position,
            match r {
                Result::Ok(f) => sp_function(old(self).toks(), old(self).position as int)
                    == Parsed::Done(
                    (arguments_view(f.arguments@), statements_view(f.body.statements@)),
                    final(self).position as int,
                ) && f.identifier == identifier && f.type_annotation == type_annotation && old(
                    self,
                ).position < final(self).position,
                Result::Err(err) => sp_function(old(self).toks(), old(self).position as int)
                    == Parsed::<(Seq<ArgumentS>, Seq<StatementS>)>::Fail(parse_error_view(err)),
            },
    {
        let n: usize = self.tokens.len();
        proof {
            assert(self.position < n);
        }
        self.position = self.position + 1;
        let arguments = match self.parse_arguments() {
            Result::Ok(a) => a,
            Result::Err(err) => {
                return Result::Err(err);
            },
        };
        let body = match self.parse_scope() {
            Result::Ok(s) => Box::new(s),
            Result::Err(err) => {
                return Result::Err(err);
            },
        };
        Result::Ok(Function { identifier, type_annotation, arguments, body })
    }

    /// All declarations until the token sequence is exhausted.
    pub fn parse_declarations(&mut self) -> (r: Result<Vec<Declaration>, ParseError>)
        requires
            old(self).wf(),
        ensures
            final(self).tokens == old(self).tokens,
            final(self).wf(),
            old(self).position <= final(self).position,
            match r {
                Result::Ok(ds) => sp_declarations(old(self).toks(), old(self).position as int)
                    == Parsed::Done(declarations_view(ds@), final(self).position as int),
                Result::Err(err) => sp_declarations(old(self).toks(), old(self).position as int)
                    == Parsed::<Seq<DeclarationS>>::Fail(parse_error_view(err)),
            },
    {
        let ghost ts = self.toks();
        let ghost pos0 = self.position as int;
        let mut result: Vec<Declaration> = Vec::new();
        proof {
            assert(result@ =~= Seq::<Declaration>::empty());
            assert(declarations_view(result@) =~= Seq::<DeclarationS>::empty());
            assert(prepend_decls(declarations_view(result@), sp_declarations(ts, pos0))
                == sp_declarations(ts, pos0));
        }
        loop
            invariant
                self.wf(),
                self.tokens == old(self).tokens,
                ts == self.toks(),
                pos0 == old(self).position as int,
                pos0 <= self.position,
                prepend_decls(
                    declarations_view(result@),
                    sp_declarations(ts, self.position as int),
                ) == sp_declarations(ts, pos0),
            decreases self.tokens@.len() - self.position,
        {
            let ghost cur = self.position as int;
            if !self.has_more_tokens() {
                proof {
                    lemma_declarations_stop(ts, cur);
                    assert(declarations_view(result@) + Seq::<DeclarationS>::empty()
                        =~= declarations_view(result@));
                }
                return Result::Ok(result);
            }
            proof {
                assert(self.tokens@[cur]@ == ts[cur]);
                lemma_declarations_step(ts, cur);
            }
            let ty = self.tokens[self.position].clone();
            self.position = self.position + 1;
            if !self.has_more_tokens() {
                return Result::Err(self.error_at(Expected::FunctionName, self.position));
            }
            proof {
                assert(self.tokens@[cur + 1]@ == ts[cur + 1]);
            }
            let name = self.tokens[self.position].clone();
            self.position = self.position + 1;
            proof {
                if cur + 2 < ts.len() {
                    assert(self.tokens@[cur + 2]@ == ts[cur + 2]);
                }
            }
            if !(self.has_more_tokens() && tok_is(&self.tokens[self.position], "(")) {
                return Result::Err(self.error_at(Expected::ArgumentList, self.position));
            }
            match self.parse_function(name, Box::new(TypeAnnotation { identifier: ty })) {
                Result::Ok(f) => {
                    let ghost decls0 = result@;
                    let d = Declaration::Function(Box::new(f));
                    result.push(d);
                    proof {
                        assert(declarations_view(decls0.push(d)) =~= declarations_view(
                            decls0,
                        ).push(declaration_view(d)));
                        lemma_prepend_decls_push(
                            declarations_view(decls0),
                            declaration_view(d),
                            sp_declarations(ts, self.position as int),
                        );
                    }
                },
                Result::Err(err) => {
                    return Result::Err(err);
                },
            }
        }
    }

    /// The whole program.
    pub fn parse_program(&mut self) -> (r: Result<Program, ParseError>)
        requires
            old(self).wf(),
        ensures
            final(self).tokens == old(self).tokens,
            final(self).wf(),
            match r {
                Result::Ok(p) => sp_declarations(old(self).toks(), old(self).position as int)
                    matches Parsed::Done(ds, p2) && program_view(p).decls == ds,
                Result::Err(err) => sp_declarations(old(self).toks(), old(self).position as int)
                    == Parsed::<Seq<DeclarationS>>::Fail(parse_error_view(err)),
            },
    {
        match self.parse_declarations() {
            Result::Ok(declarations) => {
                proof {
                    assert(program_view(Program { declarations }).decls =~= declarations_view(
                        declarations@,
                    ));
                }
                Result::Ok(Program { declarations })
            },
            Result::Err(err) => Result::Err(err),
        }
    }

    /// Parses a token sequence into a program, consuming every token, or
    /// stops at the first offending token.
    pub fn parse(tokens: Vec<String>) -> (r: Result<Program, ParseError>)
        ensures
            match r {
                Result::Ok(p) => sp_parse(tokens.deep_view()) matches Result::Ok(ps)
                    && program_view(p) == ps,
                Result::Err(err) => sp_parse(tokens.deep_view()) == Result::<
                    ProgramS,
                    ParseErrorS,
                >::Err(parse_error_view(err)),
            },
    {
        let mut parser = Parser::new(tokens);
        parser.parse_program()
    }

    /// An expression.
    pub fn parse_expression(&mut self) -> (r: Result<Expression, ParseError>)
        requires
            old(self).wf(),
        ensures
            final(self).tokens == old(self).tokens,
            final(self).wf(),
            old(self).position <= final(self).position,
            match r {
                Result::Ok(e) => sp_expr(old(self).toks(), old(self).position as int, 0)
                    == Parsed::Done(expression_view(e), final(self).position as int) && old(self).position < final(self).position,
                Result::Err(err) => sp_expr(old(self).toks(), old(self).position as int, 0)
                    == Parsed::<ExpressionS>::Fail(parse_error_view(err)),
            },
    {
        self.parse_expression_prec(0)
    }
}

/// `r` with `xs` prepended to its statement sequence on success.
pub open spec fn prepend_stmts(xs: Seq<StatementS>, r: Parsed<Seq<StatementS>>) -> Parsed<
    Seq<StatementS>,
> {
    match r {
        Parsed::Done(ys, p) => Parsed::Done(xs + ys, p),
        Parsed::Fail(err) => Parsed::Fail(err),
    }
}

/// `r` with `xs` prepended to its declaration sequence on success.
pub open spec fn prepend_decls(xs: Seq<DeclarationS>, r: Parsed<Seq<DeclarationS>>) -> Parsed<
    Seq<DeclarationS>,
> {
    match r {
        Parsed::Done(ys, p) => Parsed::Done(xs + ys, p),
        Parsed::Fail(err) => Parsed::Fail(err),
    }
}

/// A statement sequence ends at the end of input and at a closing brace.
proof fn lemma_statements_stop(ts: Seq<Seq<char>>, pos: int)
    requires
        pos >= 0,
        pos >= ts.len() || ts[pos] == "}"@,
    ensures
        sp_statements(ts, pos) == Parsed::<Seq<StatementS>>::Done(Seq::empty(), pos),
{
}

/// Before a closing brace, a statement sequence is one statement followed
/// by the rest, or stops at the statement's error.
proof fn lemma_statements_step(ts: Seq<Seq<char>>, pos: int)
    requires
        0 <= pos < ts.len(),
        ts[pos] != "}"@,
    ensures
        sp_statements(ts, pos) == (match sp_statement(ts, pos) {
            Parsed::Done(s, p2) => if pos < p2 <= ts.len() {
                prepend_stmts(seq![s], sp_statements(ts, p2))
            } else {
                Parsed::Fail(perr(Expected::Statement, ts, pos))
            },
            Parsed::Fail(err) => Parsed::Fail(err),
        }),
{
}

/// Prepending one more statement in front of a prepended rest.
proof fn lemma_prepend_stmts_push(xs: Seq<StatementS>, x: StatementS, r: Parsed<Seq<StatementS>>)
    ensures
        prepend_stmts(xs.push(x), r) == prepend_stmts(xs, prepend_stmts(seq![x], r)),
{
    match r {
        Parsed::Done(ys, p) => {
            assert(xs.push(x) + ys =~= xs + (seq![x] + ys));
        },
        Parsed::Fail(_) => {
        },
    }
}

/// The one-step reading of a scope.
proof fn lemma_scope_unfold(ts: Seq<Seq<char>>, pos: int)
    ensures
        sp_scope(ts, pos) == (if pos < 0 || pos >= ts.len() || ts[pos] != "{"@ {
            Parsed::<Seq<StatementS>>::Fail(perr(Expected::ScopeOpen, ts, pos))
        } else {
            match sp_statements(ts, pos + 1) {
                Parsed::Done(ss, p2) => if p2 < ts.len() && ts[p2] == "}"@ {
                    Parsed::Done(ss, p2 + 1)
                } else {
                    Parsed::Fail(perr(Expected::ScopeClose, ts, p2))
                },
                Parsed::Fail(err) => Parsed::Fail(err),
            }
        }),
{
}

/// The one-step reading of a formal argument list.
proof fn lemma_arguments_unfold(ts: Seq<Seq<char>>, pos: int, acc: Seq<ArgumentS>)
    ensures
        sp_arguments(ts, pos, acc) == (if pos < 0 || pos >= ts.len() {
            Parsed::<Seq<ArgumentS>>::Fail(perr(Expected::ArgumentListClose, ts, pos))
        } else if ts[pos] == ")"@ {
            Parsed::Done(acc, pos + 1)
        } else {
            match sp_argument(ts, pos) {
                Parsed::Done(a, p2) => if pos < p2 <= ts.len() {
                    sp_arguments(ts, p2, acc.push(a))
                } else {
                    Parsed::Fail(perr(Expected::ArgumentListClose, ts, pos))
                },
                Parsed::Fail(err) => Parsed::Fail(err),
            }
        }),
{
}

/// A declaration sequence ends at the end of input.
proof fn lemma_declarations_stop(ts: Seq<Seq<char>>, pos: int)
    requires
        pos >= 0,
        pos >= ts.len(),
    ensures
        sp_declarations(ts, pos) == Parsed::<Seq<DeclarationS>>::Done(Seq::empty(), pos),
{
}

/// Before the end of input, a declaration sequence is one declaration
/// followed by the rest, or stops at the declaration's error.
proof fn lemma_declarations_step(ts: Seq<Seq<char>>, pos: int)
    requires
        0 <= pos < ts.len(),
    ensures
        sp_declarations(ts, pos) == (match sp_declaration(ts, pos) {
            Parsed::Done(d, p2) => if pos < p2 <= ts.len() {
                prepend_decls(seq![d], sp_declarations(ts, p2))
            } else {
                Parsed::Fail(perr(Expected::Declaration, ts, pos))
            },
            Parsed::Fail(err) => Parsed::Fail(err),
        }),
{
}

/// Prepending one more declaration in front of a prepended rest.
proof fn lemma_prepend_decls_push(
    xs: Seq<DeclarationS>,
    x: DeclarationS,
    r: Parsed<Seq<DeclarationS>>,
)
    ensures
        prepend_decls(xs.push(x), r) == prepend_decls(xs, prepend_decls(seq![x], r)),
{
    match r {
        Parsed::Done(ys, p) => {
            assert(xs.push(x) + ys =~= xs + (seq![x] + ys));
        },
        Parsed::Fail(_) => {
        },
    }
}

/// One climbing step: at an operator at or above the minimum precedence,
/// the fold continues with the parsed right operand, or stops at the
/// first error.
proof fn lemma_expr_rest_step(ts: Seq<Seq<char>>, lhs: ExpressionS, pos: int, min: int)
    requires
        0 <= pos < ts.len(),
        op_of_token(ts[pos]) is Some,
        spec_precedence(op_of_token(ts[pos])->0) >= min,
    ensures
        sp_expr_rest(ts, lhs, pos, min) == (match sp_expr(
            ts,
            pos + 1,
            next_min_prec(op_of_token(ts[pos])->0),
        ) {
            Parsed::Done(rhs, p2) => if pos + 1 < p2 <= ts.len() {
                sp_expr_rest(
                    ts,
                    ExpressionS::Op {
                        op: op_of_token(ts[pos])->0,
                        lhs: Box::new(lhs),
                        rhs: Box::new(rhs),
                    },
                    p2,
                    min,
                )
            } else {
                Parsed::Fail(perr(Expected::Expression, ts, pos + 1))
            },
            Parsed::Fail(err) => Parsed::Fail(err),
        }),
{
}

/// Climbing stops at the end of input, at a token that is no operator,
/// and at an operator below the minimum precedence.
proof fn lemma_expr_rest_stops(ts: Seq<Seq<char>>, lhs: ExpressionS, pos: int, min: int)
    requires
        pos >= 0,
        pos >= ts.len() || op_of_token(ts[pos]) is None || (op_of_token(ts[pos]) matches
            Option::Some(op) && spec_precedence(op) < min),
    ensures
        sp_expr_rest(ts, lhs, pos, min) == Parsed::<ExpressionS>::Done(lhs, pos),
{
}

} // verus!
