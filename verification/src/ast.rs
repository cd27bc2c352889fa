use vstd::prelude::*;

verus! {

// ----------------------------------------------------------------------------
// The tree built by the parser and read by the code generator.  Every node is
// owned exactly once; recursive children sit behind `Box`, ordered children in
// `Vec`.  The tree is built once and only ever read afterwards.
// ----------------------------------------------------------------------------
/// A whole compilation unit: its declarations in source order.
#[derive(Debug, PartialEq)]
pub struct Program {
    pub declarations: Vec<Declaration>,
}

/// A top-level declaration.  Only functions have surface syntax and a
/// lowering; operator and struct declarations are carried as variants for
/// forward compatibility, are never produced by the parser, and are
/// reported as unsupported by the code generator.
#[derive(Debug, PartialEq)]
pub enum Declaration {
    Function(Box<Function>),
    Operator(Box<OperatorDeclaration>),
    Struct(Box<StructDeclaration>),
}

/// A function: its name, declared return type, arguments and body.
#[derive(Debug, PartialEq)]
pub struct Function {
    pub identifier: String,
    pub type_annotation: Box<TypeAnnotation>,
    pub arguments: Vec<Argument>,
    pub body: Box<Scope>,
}

/// A user-defined operator declaration (no surface syntax yet).
#[derive(Debug, PartialEq)]
pub struct OperatorDeclaration {
    pub identifier: String,
}

/// A struct declaration (no surface syntax yet).
#[derive(Debug, PartialEq)]
pub struct StructDeclaration {
    pub identifier: String,
}

/// A named type, e.g. `int`.
#[derive(Debug, PartialEq)]
pub struct TypeAnnotation {
    pub identifier: String,
}

/// One formal argument: its variable and its type.
#[derive(Debug, PartialEq)]
pub struct Argument {
    pub variable: Box<Variable>,
    pub type_annotation: Box<TypeAnnotation>,
}

/// A variable name, at a declaration or a use site.
#[derive(Debug, PartialEq)]
pub struct Variable {
    pub identifier: String,
}

/// A brace-delimited statement sequence.
#[derive(Debug, PartialEq)]
pub struct Scope {
    pub statements: Vec<Statement>,
}

/// One statement.
#[derive(Debug, PartialEq)]
pub enum Statement {
    VariableDeclaration(Box<VariableDeclaration>),
    Expression(Box<Expression>),
    Return(Box<Expression>),
    While(Box<WhileLoop>),
}

/// `var x = e ;` — introduces a binding initialized by `e`.
#[derive(Debug, PartialEq)]
pub struct VariableDeclaration {
    pub variable: Box<Variable>,
    pub expression: Box<Expression>,
}

/// `while ( c ) { ... }` — repeats the body while `c` is truthy.
#[derive(Debug, PartialEq)]
pub struct WhileLoop {
    pub condition: Box<Expression>,
    pub body: Box<Scope>,
}

/// One expression.
#[derive(Debug, PartialEq)]
pub enum Expression {
    OperatorCall(Box<OperatorCall>),
    FunctionCall(Box<FunctionCall>),
    Variable(Box<Variable>),
    Literal(Box<Literal>),
}

/// A binary operator applied to two operands.  Every operator of this
/// language is binary; unary forms have no surface syntax, and an
/// operator token where an operand is expected is a syntax error.
#[derive(Debug, PartialEq)]
pub struct OperatorCall {
    pub operator_identifier: OperatorIdentifier,
    pub lhs: Box<Expression>,
    pub rhs: Box<Expression>,
}

/// A call of a named function with its actual arguments in order.
#[derive(Debug, PartialEq)]
pub struct FunctionCall {
    pub identifier: String,
    pub arguments: Vec<Expression>,
}

/// The closed set of binary operators.
#[derive(Debug, PartialEq, Eq, Structural, Clone, Copy)]
pub enum OperatorIdentifier {
    Add,
    Subtract,
    Multiply,
    Divide,
    Exponential,
    LeftShift,
    RightShift,
    And,
    Or,
    Xor,
    Assignment,
}

/// A literal.  An integer literal carries its value; a floating-point
/// literal stays symbolic and carries its validated source text (digits
/// with exactly one `.`), which the code generator writes verbatim into
/// the constant instruction; a string literal carries its space-joined
/// words; a boolean literal carries its truth value.
#[derive(Debug, PartialEq)]
pub enum Literal {
    Int64(i64),
    Float64(String),
    StringLit(String),
    Boolean(bool),
}

// ----------------------------------------------------------------------------
// The mathematical model of the tree: the same shape over `Seq<char>` names
// and `Seq` children.  Contracts and the specification-level parser and code
// generator speak in these types.
// ----------------------------------------------------------------------------
/// Model of a literal.
pub enum LiteralS {
    Int(i64),
    Float(Seq<char>),
    Str(Seq<char>),
    Bool(bool),
}

/// Model of an expression.
pub enum ExpressionS {
    Op { op: OperatorIdentifier, lhs: Box<ExpressionS>, rhs: Box<ExpressionS> },
    Call { name: Seq<char>, args: Seq<ExpressionS> },
    Var { name: Seq<char> },
    Lit { value: LiteralS },
}

/// Model of a formal argument.
pub struct ArgumentS {
    pub name: Seq<char>,
    pub ty: Seq<char>,
}

/// Model of a statement; a scope is modelled as the sequence of its
/// statements.
pub enum StatementS {
    VarDecl { name: Seq<char>, init: ExpressionS },
    Expr { expr: ExpressionS },
    Ret { expr: ExpressionS },
    While { cond: ExpressionS, body: Seq<StatementS> },
}

/// Model of a declaration.
pub enum DeclarationS {
    Func { name: Seq<char>, ty: Seq<char>, args: Seq<ArgumentS>, body: Seq<StatementS> },
    Oper { name: Seq<char> },
    Struc { name: Seq<char> },
}

/// Model of a program.
pub struct ProgramS {
    pub decls: Seq<DeclarationS>,
}

// ----------------------------------------------------------------------------
// Views from the executable tree into the model.
// ----------------------------------------------------------------------------
pub open spec fn literal_view(l: Literal) -> LiteralS {
    match l {
        Literal::Int64(n) => LiteralS::Int(n),
        Literal::Float64(t) => LiteralS::Float(t@),
        Literal::StringLit(t) => LiteralS::Str(t@),
        Literal::Boolean(b) => LiteralS::Bool(b),
    }
}

pub open spec fn expression_view(e: Expression) -> ExpressionS
    decreases e,
{
    match e {
        Expression::OperatorCall(oc) => ExpressionS::Op {
            op: oc.operator_identifier,
            lhs: Box::new(expression_view(*oc.lhs)),
            rhs: Box::new(expression_view(*oc.rhs)),
        },
        Expression::FunctionCall(fc) => ExpressionS::Call {
            name: fc.identifier@,
            args: expressions_view(fc.arguments@),
        },
        Expression::Variable(v) => ExpressionS::Var { name: v.identifier@ },
        Expression::Literal(l) => ExpressionS::Lit { value: literal_view(*l) },
    }
}

pub open spec fn expressions_view(es: Seq<Expression>) -> Seq<ExpressionS>
    decreases es,
{
    if es.len() == 0 {
        Seq::empty()
    } else {
        seq![expression_view(es[0])] + expressions_view(es.drop_first())
    }
}

pub open spec fn argument_view(a: Argument) -> ArgumentS {
    ArgumentS { name: a.variable.identifier@, ty: a.type_annotation.identifier@ }
}

pub open spec fn arguments_view(args: Seq<Argument>) -> Seq<ArgumentS> {
    Seq::new(args.len(), |i: int| argument_view(args[i]))
}

pub open spec fn statement_view(s: Statement) -> StatementS
    decreases s,
{
    match s {
        Statement::VariableDeclaration(vd) => StatementS::VarDecl {
            name: vd.variable.identifier@,
            init: expression_view(*vd.expression),
        },
        Statement::Expression(e) => StatementS::Expr { expr: expression_view(*e) },
        Statement::Return(e) => StatementS::Ret { expr: expression_view(*e) },
        Statement::While(w) => StatementS::While {
            cond: expression_view(*w.condition),
            body: statements_view(w.body.statements@),
        },
    }
}

pub open spec fn statements_view(ss: Seq<Statement>) -> Seq<StatementS>
    decreases ss,
{
    if ss.len() == 0 {
        Seq::empty()
    } else {
        seq![statement_view(ss[0])] + statements_view(ss.drop_first())
    }
}

/// The model of a statement sequence has the statements' models, index by
/// index.
pub proof fn lemma_statements_view_index(ss: Seq<Statement>)
    ensures
        statements_view(ss).len() == ss.len(),
        forall|i: int|
            0 <= i < ss.len() ==> #[trigger] statements_view(ss)[i] == statement_view(ss[i]),
    decreases ss.len(),
{
    if ss.len() > 0 {
        lemma_statements_view_index(ss.drop_first());
    }
}

/// The model of an expression sequence has the expressions' models, index
/// by index.
pub proof fn lemma_expressions_view_index(es: Seq<Expression>)
    ensures
        expressions_view(es).len() == es.len(),
        forall|i: int|
            0 <= i < es.len() ==> #[trigger] expressions_view(es)[i] == expression_view(es[i]),
    decreases es.len(),
{
    if es.len() > 0 {
        lemma_expressions_view_index(es.drop_first());
    }
}

pub open spec fn declaration_view(d: Declaration) -> DeclarationS {
    match d {
        Declaration::Function(f) => DeclarationS::Func {
            name: f.identifier@,
            ty: f.type_annotation.identifier@,
            args: arguments_view(f.arguments@),
            body: statements_view(f.body.statements@),
        },
        Declaration::Operator(o) => DeclarationS::Oper { name: o.identifier@ },
        Declaration::Struct(s) => DeclarationS::Struc { name: s.identifier@ },
    }
}

/// Appending an expression appends its model.
pub proof fn lemma_expressions_view_push(es: Seq<Expression>, e: Expression)
    ensures
        expressions_view(es.push(e)) == expressions_view(es).push(expression_view(e)),
    decreases es.len(),
{
    if es.len() == 0 {
        assert(es.push(e).drop_first() =~= Seq::<Expression>::empty());
        assert(es.push(e)[0] == e);
        assert(expressions_view(Seq::<Expression>::empty()) =~= Seq::<ExpressionS>::empty());
        assert(expressions_view(es.push(e)) =~= seq![expression_view(e)]);
        assert(expressions_view(es).push(expression_view(e)) =~= seq![expression_view(e)]);
    } else {
        assert(es.push(e).drop_first() =~= es.drop_first().push(e));
        assert(es.push(e)[0] == es[0]);
        lemma_expressions_view_push(es.drop_first(), e);
        assert(seq![expression_view(es[0])] + expressions_view(es.drop_first()).push(
            expression_view(e),
        ) =~= (seq![expression_view(es[0])] + expressions_view(es.drop_first())).push(
            expression_view(e),
        ));
    }
}

/// Appending a statement appends its model.
pub proof fn lemma_statements_view_push(ss: Seq<Statement>, s: Statement)
    ensures
        statements_view(ss.push(s)) == statements_view(ss).push(statement_view(s)),
    decreases ss.len(),
{
    if ss.len() == 0 {
        assert(ss.push(s).drop_first() =~= Seq::<Statement>::empty());
        assert(ss.push(s)[0] == s);
        assert(statements_view(Seq::<Statement>::empty()) =~= Seq::<StatementS>::empty());
        assert(statements_view(ss.push(s)) =~= seq![statement_view(s)]);
        assert(statements_view(ss).push(statement_view(s)) =~= seq![statement_view(s)]);
    } else {
        assert(ss.push(s).drop_first() =~= ss.drop_first().push(s));
        assert(ss.push(s)[0] == ss[0]);
        lemma_statements_view_push(ss.drop_first(), s);
        assert(seq![statement_view(ss[0])] + statements_view(ss.drop_first()).push(
            statement_view(s),
        ) =~= (seq![statement_view(ss[0])] + statements_view(ss.drop_first())).push(
            statement_view(s),
        ));
    }
}

pub open spec fn declarations_view(ds: Seq<Declaration>) -> Seq<DeclarationS> {
    Seq::new(ds.len(), |i: int| declaration_view(ds[i]))
}

pub open spec fn program_view(p: Program) -> ProgramS {
    ProgramS { decls: Seq::new(p.declarations@.len(), |i: int| declaration_view(p.declarations@[i])) }
}

} // verus!
