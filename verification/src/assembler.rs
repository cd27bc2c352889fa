use vstd::prelude::*;
use vstd::string::*;

verus! {

use crate::ast::{
    Declaration, DeclarationS, Expression, ExpressionS, Function, Literal, LiteralS,
    OperatorIdentifier, Program, ProgramS, Scope, Statement, StatementS,
};
use crate::ast::{
    declaration_view, expression_view, lemma_expressions_view_index, lemma_statements_view_index,
    literal_view, program_view, statement_view, statements_view, ArgumentS,
};
use crate::numerals::{i64_dec_rep, i64_to_string};

// ----------------------------------------------------------------------------
// Errors.  Code generation fails exactly on a construct that the grammar
// knows but this generator does not lower, and the error names it.
// ----------------------------------------------------------------------------
/// A construct without a lowering.
#[derive(Debug, PartialEq)]
pub enum CodegenError {
    /// An operator declaration; none is lowered.
    OperatorDeclaration(String),
    /// A struct declaration; none is lowered.
    StructDeclaration(String),
    /// An operator with no single stack-machine instruction.
    UnsupportedOperator(OperatorIdentifier),
    /// A string literal; no constant instruction carries one.
    StringLiteral,
    /// A type annotation outside the fixed primitive-type table.
    UnmappedTypeAnnotation(String),
}

/// Model of a code-generation error.
pub enum CodegenErrorS {
    OperDecl(Seq<char>),
    StructDecl(Seq<char>),
    Oper(OperatorIdentifier),
    StrLit,
    UnmappedType(Seq<char>),
}

pub open spec fn codegen_error_view(e: CodegenError) -> CodegenErrorS {
    match e {
        CodegenError::OperatorDeclaration(n) => CodegenErrorS::OperDecl(n@),
        CodegenError::StructDeclaration(n) => CodegenErrorS::StructDecl(n@),
        CodegenError::UnsupportedOperator(op) => CodegenErrorS::Oper(op),
        CodegenError::StringLiteral => CodegenErrorS::StrLit,
        CodegenError::UnmappedTypeAnnotation(t) => CodegenErrorS::UnmappedType(t@),
    }
}

// ----------------------------------------------------------------------------
// The fixed lowering tables.
// ----------------------------------------------------------------------------
/// The primitive result type of a type annotation.
pub open spec fn prim_of(ty: Seq<char>) -> Option<Seq<char>> {
    if ty == "int"@ {
        Option::Some("i32"@)
    } else if ty == "long"@ {
        Option::Some("i64"@)
    } else if ty == "float"@ {
        Option::Some("f32"@)
    } else if ty == "double"@ {
        Option::Some("f64"@)
    } else {
        Option::None
    }
}

/// The single instruction of a binary operator, at the 32-bit integer
/// type.  Exponentiation and assignment have no single instruction and no
/// lowering here.
pub open spec fn op_instr(op: OperatorIdentifier) -> Option<Seq<char>> {
    match op {
        OperatorIdentifier::Add => Option::Some("i32.add"@),
        OperatorIdentifier::Subtract => Option::Some("i32.sub"@),
        OperatorIdentifier::Multiply => Option::Some("i32.mul"@),
        OperatorIdentifier::Divide => Option::Some("i32.div_s"@),
        OperatorIdentifier::LeftShift => Option::Some("i32.shl"@),
        OperatorIdentifier::RightShift => Option::Some("i32.shr_s"@),
        OperatorIdentifier::And => Option::Some("i32.and"@),
        OperatorIdentifier::Or => Option::Some("i32.or"@),
        OperatorIdentifier::Xor => Option::Some("i32.xor"@),
        OperatorIdentifier::Exponential => Option::None,
        OperatorIdentifier::Assignment => Option::None,
    }
}

// ----------------------------------------------------------------------------
// Which trees have a lowering.
// ----------------------------------------------------------------------------
pub open spec fn supported_literal(l: LiteralS) -> bool {
    !(l is Str)
}

pub open spec fn supported_expr(e: ExpressionS) -> bool
    decreases e,
{
    match e {
        ExpressionS::Op { op, lhs, rhs } => op_instr(op) is Some && supported_expr(*lhs)
            && supported_expr(*rhs),
        ExpressionS::Call { name, args } => supported_exprs(args),
        ExpressionS::Var { name } => true,
        ExpressionS::Lit { value } => supported_literal(value),
    }
}

pub open spec fn supported_exprs(es: Seq<ExpressionS>) -> bool
    decreases es,
{
    if es.len() == 0 {
        true
    } else {
        supported_expr(es[0]) && supported_exprs(es.drop_first())
    }
}

pub open spec fn supported_stmt(s: StatementS) -> bool
    decreases s,
{
    match s {
        StatementS::VarDecl { name, init } => supported_expr(init),
        StatementS::Expr { expr } => supported_expr(expr),
        StatementS::Ret { expr } => supported_expr(expr),
        StatementS::While { cond, body } => supported_expr(cond) && supported_stmts(body),
    }
}

pub open spec fn supported_stmts(ss: Seq<StatementS>) -> bool
    decreases ss,
{
    if ss.len() == 0 {
        true
    } else {
        supported_stmt(ss[0]) && supported_stmts(ss.drop_first())
    }
}

pub open spec fn supported_args(args: Seq<ArgumentS>) -> bool
    decreases args,
{
    if args.len() == 0 {
        true
    } else {
        prim_of(args[0].ty) is Some && supported_args(args.drop_first())
    }
}

pub open spec fn supported_decl(d: DeclarationS) -> bool {
    match d {
        DeclarationS::Func { name, ty, args, body } => prim_of(ty) is Some && supported_args(args)
            && supported_stmts(body),
        DeclarationS::Oper { name } => false,
        DeclarationS::Struc { name } => false,
    }
}

pub open spec fn supported_decls(ds: Seq<DeclarationS>) -> bool
    decreases ds,
{
    if ds.len() == 0 {
        true
    } else {
        supported_decl(ds[0]) && supported_decls(ds.drop_first())
    }
}

pub open spec fn supported_program(p: ProgramS) -> bool {
    supported_decls(p.decls)
}

// ----------------------------------------------------------------------------
// The check pass: the first unsupported construct in emission order, if
// any.
// ----------------------------------------------------------------------------
pub open spec fn lit_check(l: LiteralS) -> Result<(), CodegenErrorS> {
    match l {
        LiteralS::Str(_) => Result::Err(CodegenErrorS::StrLit),
        _ => Result::Ok(()),
    }
}

pub open spec fn expr_check(e: ExpressionS) -> Result<(), CodegenErrorS>
    decreases e,
{
    match e {
        ExpressionS::Op { op, lhs, rhs } => match expr_check(*lhs) {
            Result::Err(err) => Result::Err(err),
            Result::Ok(u) => match expr_check(*rhs) {
                Result::Err(err) => Result::Err(err),
                Result::Ok(u2) => match op_instr(op) {
                    Option::None => Result::Err(CodegenErrorS::Oper(op)),
                    Option::Some(i) => Result::Ok(()),
                },
            },
        },
        ExpressionS::Call { name, args } => exprs_check(args),
        ExpressionS::Var { name } => Result::Ok(()),
        ExpressionS::Lit { value } => lit_check(value),
    }
}

pub open spec fn exprs_check(es: Seq<ExpressionS>) -> Result<(), CodegenErrorS>
    decreases es,
{
    if es.len() == 0 {
        Result::Ok(())
    } else {
        match expr_check(es[0]) {
            Result::Err(err) => Result::Err(err),
            Result::Ok(u) => exprs_check(es.drop_first()),
        }
    }
}

pub open spec fn stmt_check(s: StatementS) -> Result<(), CodegenErrorS>
    decreases s,
{
    match s {
        StatementS::VarDecl { name, init } => expr_check(init),
        StatementS::Expr { expr } => expr_check(expr),
        StatementS::Ret { expr } => expr_check(expr),
        StatementS::While { cond, body } => match expr_check(cond) {
            Result::Err(err) => Result::Err(err),
            Result::Ok(u) => stmts_check(body),
        },
    }
}

pub open spec fn stmts_check(ss: Seq<StatementS>) -> Result<(), CodegenErrorS>
    decreases ss,
{
    if ss.len() == 0 {
        Result::Ok(())
    } else {
        match stmt_check(ss[0]) {
            Result::Err(err) => Result::Err(err),
            Result::Ok(u) => stmts_check(ss.drop_first()),
        }
    }
}

pub open spec fn args_check(args: Seq<ArgumentS>) -> Result<(), CodegenErrorS>
    decreases args,
{
    if args.len() == 0 {
        Result::Ok(())
    } else {
        match prim_of(args[0].ty) {
            Option::None => Result::Err(CodegenErrorS::UnmappedType(args[0].ty)),
            Option::Some(p) => args_check(args.drop_first()),
        }
    }
}

pub open spec fn decl_check(d: DeclarationS) -> Result<(), CodegenErrorS> {
    match d {
        DeclarationS::Func { name, ty, args, body } => match prim_of(ty) {
            Option::None => Result::Err(CodegenErrorS::UnmappedType(ty)),
            Option::Some(p) => match args_check(args) {
                Result::Err(err) => Result::Err(err),
                Result::Ok(u) => stmts_check(body),
            },
        },
        DeclarationS::Oper { name } => Result::Err(CodegenErrorS::OperDecl(name)),
        DeclarationS::Struc { name } => Result::Err(CodegenErrorS::StructDecl(name)),
    }
}

pub open spec fn decls_check(ds: Seq<DeclarationS>) -> Result<(), CodegenErrorS>
    decreases ds,
{
    if ds.len() == 0 {
        Result::Ok(())
    } else {
        match decl_check(ds[0]) {
            Result::Err(err) => Result::Err(err),
            Result::Ok(u) => decls_check(ds.drop_first()),
        }
    }
}

pub open spec fn program_check(p: ProgramS) -> Result<(), CodegenErrorS> {
    decls_check(p.decls)
}

// ----------------------------------------------------------------------------
// Code generation is total on supported trees: the check passes exactly
// when every construct has a lowering.
// ----------------------------------------------------------------------------
proof fn lemma_expr_check_iff(e: ExpressionS)
    ensures
        expr_check(e) is Ok <==> supported_expr(e),
    decreases e,
{
    match e {
        ExpressionS::Op { op, lhs, rhs } => {
            lemma_expr_check_iff(*lhs);
            lemma_expr_check_iff(*rhs);
        },
        ExpressionS::Call { name, args } => {
            lemma_exprs_check_iff(args);
        },
        ExpressionS::Var { name } => {
        },
        ExpressionS::Lit { value } => {
        },
    }
}

proof fn lemma_exprs_check_iff(es: Seq<ExpressionS>)
    ensures
        exprs_check(es) is Ok <==> supported_exprs(es),
    decreases es,
{
    if es.len() > 0 {
        lemma_expr_check_iff(es[0]);
        lemma_exprs_check_iff(es.drop_first());
    }
}

proof fn lemma_stmt_check_iff(s: StatementS)
    ensures
        stmt_check(s) is Ok <==> supported_stmt(s),
    decreases s,
{
    match s {
        StatementS::VarDecl { name, init } => {
            lemma_expr_check_iff(init);
        },
        StatementS::Expr { expr } => {
            lemma_expr_check_iff(expr);
        },
        StatementS::Ret { expr } => {
            lemma_expr_check_iff(expr);
        },
        StatementS::While { cond, body } => {
            lemma_expr_check_iff(cond);
            lemma_stmts_check_iff(body);
        },
    }
}

proof fn lemma_stmts_check_iff(ss: Seq<StatementS>)
    ensures
        stmts_check(ss) is Ok <==> supported_stmts(ss),
    decreases ss,
{
    if ss.len() > 0 {
        lemma_stmt_check_iff(ss[0]);
        lemma_stmts_check_iff(ss.drop_first());
    }
}

proof fn lemma_args_check_iff(args: Seq<ArgumentS>)
    ensures
        args_check(args) is Ok <==> supported_args(args),
    decreases args,
{
    if args.len() > 0 {
        lemma_args_check_iff(args.drop_first());
    }
}

proof fn lemma_decl_check_iff(d: DeclarationS)
    ensures
        decl_check(d) is Ok <==> supported_decl(d),
{
    match d {
        DeclarationS::Func { name, ty, args, body } => {
            lemma_args_check_iff(args);
            lemma_stmts_check_iff(body);
        },
        DeclarationS::Oper { name } => {
        },
        DeclarationS::Struc { name } => {
        },
    }
}

proof fn lemma_decls_check_iff(ds: Seq<DeclarationS>)
    ensures
        decls_check(ds) is Ok <==> supported_decls(ds),
    decreases ds,
{
    if ds.len() > 0 {
        lemma_decl_check_iff(ds[0]);
        lemma_decls_check_iff(ds.drop_first());
    }
}

/// Code generation is total on supported programs: the check passes, and
/// with it emission, exactly when every construct of the tree has a
/// lowering; otherwise the check stops at the first construct without one
/// and names it.
pub proof fn lemma_codegen_totality(p: ProgramS)
    ensures
        program_check(p) is Ok <==> supported_program(p),
{
    lemma_decls_check_iff(p.decls);
}

// ----------------------------------------------------------------------------
// The emitted text, one instruction or form per line.  Emission is a
// total function on trees that pass the check; on an unsupported node it
// is never consulted.
// ----------------------------------------------------------------------------
/// The constant instruction of a literal: integer literals as 32-bit
/// integer constants, floating-point literals as 32-bit float constants
/// carrying their own source text, booleans as the integer constants 1
/// and 0.  These widths are this generator's fixed choice.
pub open spec fn lit_wat(l: LiteralS) -> Seq<Seq<char>> {
    match l {
        LiteralS::Int(n) => seq!["i32.const "@ + i64_dec_rep(n as int)],
        LiteralS::Float(t) => seq!["f32.const "@ + t],
        LiteralS::Bool(b) => if b {
            seq!["i32.const 1"@]
        } else {
            seq!["i32.const 0"@]
        },
        LiteralS::Str(_) => Seq::empty(),
    }
}

pub open spec fn expr_wat(e: ExpressionS) -> Seq<Seq<char>>
    decreases e,
{
    match e {
        ExpressionS::Op { op, lhs, rhs } => expr_wat(*lhs) + expr_wat(*rhs) + (match op_instr(op) {
            Option::Some(i) => seq![i],
            Option::None => Seq::empty(),
        }),
        ExpressionS::Call { name, args } => exprs_wat(args) + seq!["call $"@ + name],
        ExpressionS::Var { name } => seq!["local.get $"@ + name],
        ExpressionS::Lit { value } => lit_wat(value),
    }
}

pub open spec fn exprs_wat(es: Seq<ExpressionS>) -> Seq<Seq<char>>
    decreases es,
{
    if es.len() == 0 {
        Seq::empty()
    } else {
        expr_wat(es[0]) + exprs_wat(es.drop_first())
    }
}

/// One statement.  `last` holds exactly for the final statement of a
/// function body: a bare expression there keeps its value on the stack as
/// an implicit return instead of dropping it.
pub open spec fn stmt_wat(s: StatementS, last: bool) -> Seq<Seq<char>>
    decreases s,
{
    match s {
        StatementS::VarDecl { name, init } => seq!["(local $"@ + name + " i32)"@] + expr_wat(init)
            + seq!["local.set $"@ + name],
        StatementS::Expr { expr } => expr_wat(expr) + (if last {
            Seq::empty()
        } else {
            seq!["drop"@]
        }),
        StatementS::Ret { expr } => expr_wat(expr) + seq!["return"@],
        StatementS::While { cond, body } => seq!["(block"@, "(loop"@] + expr_wat(cond) + seq![
            "i32.eqz"@,
            "br_if 1"@,
        ] + stmts_wat(body, false) + seq!["br 0"@, ")"@, ")"@],
    }
}

pub open spec fn stmts_wat(ss: Seq<StatementS>, fn_tail: bool) -> Seq<Seq<char>>
    decreases ss,
{
    if ss.len() == 0 {
        Seq::empty()
    } else {
        stmt_wat(ss[0], fn_tail && ss.len() == 1) + stmts_wat(ss.drop_first(), fn_tail)
    }
}

/// The primitive type of a mapped annotation.
pub open spec fn prim_text(ty: Seq<char>) -> Seq<char> {
    match prim_of(ty) {
        Option::Some(p) => p,
        Option::None => Seq::empty(),
    }
}

/// The parameter forms of the signature line, in argument order.
pub open spec fn params_text(args: Seq<ArgumentS>) -> Seq<char>
    decreases args,
{
    if args.len() == 0 {
        Seq::empty()
    } else {
        " (param $"@ + args[0].name + " "@ + prim_text(args[0].ty) + ")"@ + params_text(
            args.drop_first(),
        )
    }
}

/// A function's signature line.
pub open spec fn func_header(name: Seq<char>, ty: Seq<char>, args: Seq<ArgumentS>) -> Seq<char> {
    "(func $"@ + name + params_text(args) + " (result "@ + prim_text(ty) + ")"@
}

pub open spec fn decl_wat(d: DeclarationS) -> Seq<Seq<char>> {
    match d {
        DeclarationS::Func { name, ty, args, body } => seq![func_header(name, ty, args)]
            + stmts_wat(body, true) + seq![")"@],
        DeclarationS::Oper { name } => Seq::empty(),
        DeclarationS::Struc { name } => Seq::empty(),
    }
}

pub open spec fn decls_wat(ds: Seq<DeclarationS>) -> Seq<Seq<char>>
    decreases ds,
{
    if ds.len() == 0 {
        Seq::empty()
    } else {
        decl_wat(ds[0]) + decls_wat(ds.drop_first())
    }
}

/// The whole module: header, one function form per declaration, the
/// export of the `main` entry point, and the footer.
pub open spec fn program_wat(p: ProgramS) -> Seq<Seq<char>> {
    seq!["(module"@] + decls_wat(p.decls) + seq!["(export \"main\" (func $main))"@, ")"@]
}

/// The emitted lines as one text, joined with single newlines.
pub open spec fn join_lines(ls: Seq<Seq<char>>) -> Seq<char>
    decreases ls,
{
    if ls.len() == 0 {
        Seq::empty()
    } else if ls.len() == 1 {
        ls[0]
    } else {
        ls[0] + "\n"@ + join_lines(ls.drop_first())
    }
}

// ----------------------------------------------------------------------------
// One-step readings of the recursive definitions, for use inside loops.
// ----------------------------------------------------------------------------
proof fn lemma_exprs_check_step(es: Seq<ExpressionS>, i: int)
    requires
        0 <= i < es.len(),
    ensures
        exprs_check(es.skip(i)) == (match expr_check(es[i]) {
            Result::Err(err) => Result::Err(err),
            Result::Ok(u) => exprs_check(es.skip(i + 1)),
        }),
        supported_exprs(es.skip(i)) == (supported_expr(es[i]) && supported_exprs(es.skip(i + 1))),
{
    assert(es.skip(i).drop_first() =~= es.skip(i + 1));
    assert(es.skip(i)[0] == es[i]);
}

proof fn lemma_exprs_end(es: Seq<ExpressionS>)
    ensures
        exprs_check(es.skip(es.len() as int)) == Result::<(), CodegenErrorS>::Ok(()),
        supported_exprs(es.skip(es.len() as int)),
        exprs_wat(es.skip(es.len() as int)) == Seq::<Seq<char>>::empty(),
{
    assert(es.skip(es.len() as int) =~= Seq::<ExpressionS>::empty());
}

proof fn lemma_stmts_check_step(ss: Seq<StatementS>, i: int)
    requires
        0 <= i < ss.len(),
    ensures
        stmts_check(ss.skip(i)) == (match stmt_check(ss[i]) {
            Result::Err(err) => Result::Err(err),
            Result::Ok(u) => stmts_check(ss.skip(i + 1)),
        }),
        supported_stmts(ss.skip(i)) == (supported_stmt(ss[i]) && supported_stmts(ss.skip(i + 1))),
{
    assert(ss.skip(i).drop_first() =~= ss.skip(i + 1));
    assert(ss.skip(i)[0] == ss[i]);
}

proof fn lemma_stmts_end(ss: Seq<StatementS>)
    ensures
        stmts_check(ss.skip(ss.len() as int)) == Result::<(), CodegenErrorS>::Ok(()),
        supported_stmts(ss.skip(ss.len() as int)),
        stmts_wat(ss.skip(ss.len() as int), true) == Seq::<Seq<char>>::empty(),
        stmts_wat(ss.skip(ss.len() as int), false) == Seq::<Seq<char>>::empty(),
{
    assert(ss.skip(ss.len() as int) =~= Seq::<StatementS>::empty());
}

proof fn lemma_args_check_step(args: Seq<ArgumentS>, i: int)
    requires
        0 <= i < args.len(),
    ensures
        args_check(args.skip(i)) == (match prim_of(args[i].ty) {
            Option::None => Result::Err(CodegenErrorS::UnmappedType(args[i].ty)),
            Option::Some(p) => args_check(args.skip(i + 1)),
        }),
        supported_args(args.skip(i)) == (prim_of(args[i].ty) is Some && supported_args(
            args.skip(i + 1),
        )),
{
    assert(args.skip(i).drop_first() =~= args.skip(i + 1));
    assert(args.skip(i)[0] == args[i]);
}

proof fn lemma_args_end(args: Seq<ArgumentS>)
    ensures
        args_check(args.skip(args.len() as int)) == Result::<(), CodegenErrorS>::Ok(()),
        supported_args(args.skip(args.len() as int)),
        params_text(args.skip(args.len() as int)) == Seq::<char>::empty(),
{
    assert(args.skip(args.len() as int) =~= Seq::<ArgumentS>::empty());
}

proof fn lemma_decls_check_step(ds: Seq<DeclarationS>, i: int)
    requires
        0 <= i < ds.len(),
    ensures
        decls_check(ds.skip(i)) == (match decl_check(ds[i]) {
            Result::Err(err) => Result::Err(err),
            Result::Ok(u) => decls_check(ds.skip(i + 1)),
        }),
        supported_decls(ds.skip(i)) == (supported_decl(ds[i]) && supported_decls(ds.skip(i + 1))),
{
    assert(ds.skip(i).drop_first() =~= ds.skip(i + 1));
    assert(ds.skip(i)[0] == ds[i]);
}

proof fn lemma_decls_end(ds: Seq<DeclarationS>)
    ensures
        decls_check(ds.skip(ds.len() as int)) == Result::<(), CodegenErrorS>::Ok(()),
        supported_decls(ds.skip(ds.len() as int)),
        decls_wat(ds.skip(ds.len() as int)) == Seq::<Seq<char>>::empty(),
{
    assert(ds.skip(ds.len() as int) =~= Seq::<DeclarationS>::empty());
}

proof fn lemma_exprs_wat_step(es: Seq<ExpressionS>, i: int)
    requires
        0 <= i < es.len(),
    ensures
        exprs_wat(es.skip(i)) == expr_wat(es[i]) + exprs_wat(es.skip(i + 1)),
{
    assert(es.skip(i).drop_first() =~= es.skip(i + 1));
    assert(es.skip(i)[0] == es[i]);
}

proof fn lemma_stmts_wat_step(ss: Seq<StatementS>, fn_tail: bool, i: int)
    requires
        0 <= i < ss.len(),
    ensures
        stmts_wat(ss.skip(i), fn_tail) == stmt_wat(ss[i], fn_tail && i == ss.len() - 1)
            + stmts_wat(ss.skip(i + 1), fn_tail),
{
    assert(ss.skip(i).drop_first() =~= ss.skip(i + 1));
    assert(ss.skip(i)[0] == ss[i]);
    assert((ss.skip(i).len() == 1) == (i == ss.len() - 1));
}

proof fn lemma_params_text_step(args: Seq<ArgumentS>, i: int)
    requires
        0 <= i < args.len(),
    ensures
        params_text(args.skip(i)) == " (param $"@ + args[i].name + " "@ + prim_text(args[i].ty)
            + ")"@ + params_text(args.skip(i + 1)),
{
    assert(args.skip(i).drop_first() =~= args.skip(i + 1));
    assert(args.skip(i)[0] == args[i]);
}

proof fn lemma_decls_wat_step(ds: Seq<DeclarationS>, i: int)
    requires
        0 <= i < ds.len(),
    ensures
        decls_wat(ds.skip(i)) == decl_wat(ds[i]) + decls_wat(ds.skip(i + 1)),
{
    assert(ds.skip(i).drop_first() =~= ds.skip(i + 1));
    assert(ds.skip(i)[0] == ds[i]);
}

// ----------------------------------------------------------------------------
// The executable check pass: finds the first construct without a
// lowering, in emission order.
// ----------------------------------------------------------------------------
/// Whether every construct of an expression has a lowering; otherwise the
/// first that has none.
pub fn check_expression(expression: &Expression) -> (r: Result<(), CodegenError>)
    ensures
        match r {
            Result::Ok(u) => expr_check(expression_view(*expression)) == Result::<
                (),
                CodegenErrorS,
            >::Ok(()),
            Result::Err(ce) => expr_check(expression_view(*expression)) == Result::<
                (),
                CodegenErrorS,
            >::Err(codegen_error_view(ce)),
        },
    decreases expression,
{
    match expression {
        Expression::OperatorCall(oc) => {
            match check_expression(&oc.lhs) {
                Result::Err(ce) => Result::Err(ce),
                Result::Ok(u) => match check_expression(&oc.rhs) {
                    Result::Err(ce) => Result::Err(ce),
                    Result::Ok(u2) => match op_instr_of(oc.operator_identifier) {
                        Option::None => Result::Err(
                            CodegenError::UnsupportedOperator(oc.operator_identifier),
                        ),
                        Option::Some(i) => Result::Ok(()),
                    },
                },
            }
        },
        Expression::FunctionCall(fc) => {
            let ghost ev = expression_view(*expression);
            let ghost argsv = crate::ast::expressions_view(fc.arguments@);
            proof {
                lemma_expressions_view_index(fc.arguments@);
                assert(argsv.skip(0) =~= argsv);
                assert(expr_check(ev) == exprs_check(argsv));
            }
            let n: usize = fc.arguments.len();
            let mut i: usize = 0;
            while i < n
                invariant
                    n == fc.arguments@.len(),
                    0 <= i <= n,
                    *expression == Expression::FunctionCall(*fc),
                    ev == expression_view(*expression),
                    expr_check(ev) == exprs_check(argsv),
                    argsv == crate::ast::expressions_view(fc.arguments@),
                    argsv.len() == n,
                    forall|j: int|
                        0 <= j < n ==> #[trigger] argsv[j] == expression_view(fc.arguments@[j]),
                    exprs_check(argsv) == exprs_check(argsv.skip(i as int)),
                decreases n - i,
            {
                proof {
                    lemma_exprs_check_step(argsv, i as int);
                    assert(decreases_to!(*expression => fc.arguments));
                    assert(decreases_to!(fc.arguments => fc.arguments@));
                    assert(decreases_to!(fc.arguments@ => fc.arguments@[i as int]));
                }
                match check_expression(&fc.arguments[i]) {
                    Result::Err(ce) => {
                        return Result::Err(ce);
                    },
                    Result::Ok(u) => {
                    },
                }
                i = i + 1;
            }
            proof {
                lemma_exprs_end(argsv);
            }
            Result::Ok(())
        },
        Expression::Variable(v) => Result::Ok(()),
        Expression::Literal(l) => {
            match &**l {
                Literal::StringLit(s) => Result::Err(CodegenError::StringLiteral),
                Literal::Int64(n) => Result::Ok(()),
                Literal::Float64(t) => Result::Ok(()),
                Literal::Boolean(b) => Result::Ok(()),
            }
        },
    }
}

/// Whether every construct of a statement has a lowering.
pub fn check_statement(statement: &Statement) -> (r: Result<(), CodegenError>)
    ensures
        match r {
            Result::Ok(u) => stmt_check(statement_view(*statement)) == Result::<
                (),
                CodegenErrorS,
            >::Ok(()),
            Result::Err(ce) => stmt_check(statement_view(*statement)) == Result::<
                (),
                CodegenErrorS,
            >::Err(codegen_error_view(ce)),
        },
    decreases statement,
{
    match statement {
        Statement::VariableDeclaration(vd) => check_expression(&vd.expression),
        Statement::Expression(e) => check_expression(e),
        Statement::Return(e) => check_expression(e),
        Statement::While(w) => {
            match check_expression(&w.condition) {
                Result::Err(ce) => Result::Err(ce),
                Result::Ok(u) => check_scope(&w.body),
            }
        },
    }
}

/// Whether every construct of a scope has a lowering.
pub fn check_scope(scope: &Scope) -> (r: Result<(), CodegenError>)
    ensures
        match r {
            Result::Ok(u) => stmts_check(statements_view(scope.statements@)) == Result::<
                (),
                CodegenErrorS,
            >::Ok(()),
            Result::Err(ce) => stmts_check(statements_view(scope.statements@)) == Result::<
                (),
                CodegenErrorS,
            >::Err(codegen_error_view(ce)),
        },
    decreases scope,
{
    let ghost sv = statements_view(scope.statements@);
    proof {
        lemma_statements_view_index(scope.statements@);
        assert(sv.skip(0) =~= sv);
    }
    let n: usize = scope.statements.len();
    let mut i: usize = 0;
    while i < n
        invariant
            n == scope.statements@.len(),
            0 <= i <= n,
            sv == statements_view(scope.statements@),
            sv.len() == n,
            forall|j: int| 0 <= j < n ==> #[trigger] sv[j] == statement_view(scope.statements@[j]),
            stmts_check(sv) == stmts_check(sv.skip(i as int)),
        decreases n - i,
    {
        proof {
            lemma_stmts_check_step(sv, i as int);
        }
        match check_statement(&scope.statements[i]) {
            Result::Err(ce) => {
                return Result::Err(ce);
            },
            Result::Ok(u) => {
            },
        }
        i = i + 1;
    }
    proof {
        lemma_stmts_end(sv);
    }
    Result::Ok(())
}

/// Whether a declaration has a lowering: a function whose return type and
/// argument types are all in the primitive-type table and whose body is
/// all supported.
pub fn check_declaration(declaration: &Declaration) -> (r: Result<(), CodegenError>)
    ensures
        match r {
            Result::Ok(u) => decl_check(declaration_view(*declaration)) == Result::<
                (),
                CodegenErrorS,
            >::Ok(()),
            Result::Err(ce) => decl_check(declaration_view(*declaration)) == Result::<
                (),
                CodegenErrorS,
            >::Err(codegen_error_view(ce)),
        },
{
    match declaration {
        Declaration::Function(f) => {
            if prim_of_str(&f.type_annotation.identifier).is_none() {
                return Result::Err(
                    CodegenError::UnmappedTypeAnnotation(f.type_annotation.identifier.clone()),
                );
            }
            let ghost dclv = declaration_view(*declaration);
            let ghost av = crate::ast::arguments_view(f.arguments@);
            proof {
                assert(av.skip(0) =~= av);
            }
            let n: usize = f.arguments.len();
            let mut i: usize = 0;
            while i < n
                invariant
                    n == f.arguments@.len(),
                    0 <= i <= n,
                    dclv == declaration_view(*declaration),
                    decl_check(dclv) == (match args_check(av) {
                        Result::Err(err) => Result::<(), CodegenErrorS>::Err(err),
                        Result::Ok(u) => stmts_check(statements_view(f.body.statements@)),
                    }),
                    av == crate::ast::arguments_view(f.arguments@),
                    av.len() == n,
                    forall|j: int|
                        0 <= j < n ==> #[trigger] av[j] == crate::ast::argument_view(
                            f.arguments@[j],
                        ),
                    args_check(av) == args_check(av.skip(i as int)),
                decreases n - i,
            {
                proof {
                    lemma_args_check_step(av, i as int);
                }
                if prim_of_str(&f.arguments[i].type_annotation.identifier).is_none() {
                    return Result::Err(
                        CodegenError::UnmappedTypeAnnotation(
                            f.arguments[i].type_annotation.identifier.clone(),
                        ),
                    );
                }
                i = i + 1;
            }
            proof {
                lemma_args_end(av);
            }
            check_scope(&f.body)
        },
        Declaration::Operator(o) => Result::Err(
            CodegenError::OperatorDeclaration(o.identifier.clone()),
        ),
        Declaration::Struct(s) => Result::Err(
            CodegenError::StructDeclaration(s.identifier.clone()),
        ),
    }
}

/// Whether every declaration of a program has a lowering.
pub fn check_program(program: &Program) -> (r: Result<(), CodegenError>)
    ensures
        match r {
            Result::Ok(u) => program_check(program_view(*program)) == Result::<
                (),
                CodegenErrorS,
            >::Ok(()),
            Result::Err(ce) => program_check(program_view(*program)) == Result::<
                (),
                CodegenErrorS,
            >::Err(codegen_error_view(ce)),
        },
{
    let ghost dv = program_view(*program).decls;
    proof {
        assert(dv.skip(0) =~= dv);
    }
    let n: usize = program.declarations.len();
    let mut i: usize = 0;
    while i < n
        invariant
            n == program.declarations@.len(),
            0 <= i <= n,
            dv == program_view(*program).decls,
            dv.len() == n,
            forall|j: int|
                0 <= j < n ==> #[trigger] dv[j] == declaration_view(program.declarations@[j]),
            decls_check(dv) == decls_check(dv.skip(i as int)),
        decreases n - i,
    {
        proof {
            lemma_decls_check_step(dv, i as int);
        }
        match check_declaration(&program.declarations[i]) {
            Result::Err(ce) => {
                return Result::Err(ce);
            },
            Result::Ok(u) => {
            },
        }
        i = i + 1;
    }
    proof {
        lemma_decls_end(dv);
    }
    Result::Ok(())
}

/// The instruction of an operator, if it has one.
fn op_instr_of(op: OperatorIdentifier) -> (r: Option<String>)
    ensures
        match r {
            Option::Some(s) => op_instr(op) == Option::Some(s@),
            Option::None => op_instr(op) is None,
        },
{
    match op {
        OperatorIdentifier::Add => Option::Some(String::from_str("i32.add")),
        OperatorIdentifier::Subtract => Option::Some(String::from_str("i32.sub")),
        OperatorIdentifier::Multiply => Option::Some(String::from_str("i32.mul")),
        OperatorIdentifier::Divide => Option::Some(String::from_str("i32.div_s")),
        OperatorIdentifier::LeftShift => Option::Some(String::from_str("i32.shl")),
        OperatorIdentifier::RightShift => Option::Some(String::from_str("i32.shr_s")),
        OperatorIdentifier::And => Option::Some(String::from_str("i32.and")),
        OperatorIdentifier::Or => Option::Some(String::from_str("i32.or")),
        OperatorIdentifier::Xor => Option::Some(String::from_str("i32.xor")),
        OperatorIdentifier::Exponential => Option::None,
        OperatorIdentifier::Assignment => Option::None,
    }
}

/// The primitive type of a mapped annotation.
fn prim_of_str(ty: &String) -> (r: Option<String>)
    ensures
        match r {
            Option::Some(p) => prim_of(ty@) == Option::Some(p@),
            Option::None => prim_of(ty@) is None,
        },
{
    if crate::parser::tok_is(ty, "int") {
        Option::Some(String::from_str("i32"))
    } else if crate::parser::tok_is(ty, "long") {
        Option::Some(String::from_str("i64"))
    } else if crate::parser::tok_is(ty, "float") {
        Option::Some(String::from_str("f32"))
    } else if crate::parser::tok_is(ty, "double") {
        Option::Some(String::from_str("f64"))
    } else {
        Option::None
    }
}

proof fn lemma_join_push(ls: Seq<Seq<char>>, l: Seq<char>)
    ensures
        join_lines(ls.push(l)) == (if ls.len() == 0 {
            l
        } else {
            join_lines(ls) + "\n"@ + l
        }),
    decreases ls.len(),
{
    if ls.len() == 0 {
        assert(ls.push(l)[0] == l);
    } else if ls.len() == 1 {
        assert(ls.push(l)[0] == ls[0]);
        assert(ls.push(l).drop_first() =~= seq![l]);
        assert(join_lines(seq![l]) == l);
    } else {
        assert(ls.push(l).drop_first() =~= ls.drop_first().push(l));
        assert(ls.push(l)[0] == ls[0]);
        lemma_join_push(ls.drop_first(), l);
        assert(ls[0] + "\n"@ + (join_lines(ls.drop_first()) + "\n"@ + l) =~= (ls[0] + "\n"@
            + join_lines(ls.drop_first())) + "\n"@ + l);
    }
}

// ----------------------------------------------------------------------------
// The code generator: walks a checked tree and emits its lines.
// ----------------------------------------------------------------------------
/// The code generator; it owns the lines emitted so far.
pub struct Assembler {
    output: Vec<String>,
}

impl Assembler {
    /// The lines emitted so far.
    pub closed spec fn lines(self) -> Seq<Seq<char>> {
        self.output.deep_view()
    }

    /// Appends one finished line.
    fn push_line(&mut self, line: String)
        ensures
            final(self).lines() == old(self).lines().push(line@),
    {
        let ghost d0 = self.output.deep_view();
        self.output.push(line);
        proof {
            assert(self.output.deep_view() =~= d0.push(line@));
        }
    }

    /// Emits the constant instruction of a literal.
    pub fn assemble_literal(&mut self, literal: &Literal)
        requires
            supported_literal(literal_view(*literal)),
        ensures
            final(self).lines() == old(self).lines() + lit_wat(
                literal_view(*literal),
            ),
    {
        let ghost d0 = self.output.deep_view();
        match literal {
            Literal::Int64(num) => {
                let mut line = String::from_str("i32.const ");
                let text = i64_to_string(*num);
                line.append(text.as_str());
                self.push_line(line);
                proof {
                    assert(self.output.deep_view() =~= d0 + lit_wat(literal_view(*literal)));
                }
            },
            Literal::Float64(t) => {
                let mut line = String::from_str("f32.const ");
                line.append(t.as_str());
                self.push_line(line);
                proof {
                    assert(self.output.deep_view() =~= d0 + lit_wat(literal_view(*literal)));
                }
            },
            Literal::Boolean(b) => {
                if *b {
                    self.push_line(String::from_str("i32.const 1"));
                } else {
                    self.push_line(String::from_str("i32.const 0"));
                }
                proof {
                    assert(self.output.deep_view() =~= d0 + lit_wat(literal_view(*literal)));
                }
            },
            Literal::StringLit(s) => {
                proof {
                    assert(false);
                }
            },
        }
    }

    /// Emits an expression in post order: operands first, then the single
    /// instruction of the node.
    pub fn assemble_expression(&mut self, expression: &Expression)
        requires
            supported_expr(expression_view(*expression)),
        ensures
            final(self).lines() == old(self).lines() + expr_wat(
                expression_view(*expression),
            ),
        decreases expression,
    {
        let ghost d0 = self.output.deep_view();
        let ghost ev = expression_view(*expression);
        match expression {
            Expression::OperatorCall(oc) => {
                self.assemble_expression(&oc.lhs);
                self.assemble_expression(&oc.rhs);
                match op_instr_of(oc.operator_identifier) {
                    Option::Some(line) => {
                        self.push_line(line);
                    },
                    Option::None => {
                        proof {
                            assert(false);
                        }
                    },
                }
                proof {
                    assert(self.output.deep_view() =~= d0 + expr_wat(ev));
                }
            },
            Expression::FunctionCall(fc) => {
                let ghost argsv = crate::ast::expressions_view(fc.arguments@);
                proof {
                    lemma_expressions_view_index(fc.arguments@);
                    assert(argsv.skip(0) =~= argsv);
                }
                let n: usize = fc.arguments.len();
                let mut i: usize = 0;
                while i < n
                    invariant
                        n == fc.arguments@.len(),
                        0 <= i <= n,
                        *expression == Expression::FunctionCall(*fc),
                        ev == expression_view(*expression),
                        d0 == old(self).lines(),
                        argsv == crate::ast::expressions_view(fc.arguments@),
                        argsv.len() == n,
                        forall|j: int|
                            0 <= j < n ==> #[trigger] argsv[j] == expression_view(
                                fc.arguments@[j],
                            ),
                        supported_exprs(argsv.skip(i as int)),
                        self.output.deep_view() + exprs_wat(argsv.skip(i as int)) == d0
                            + exprs_wat(argsv),
                    decreases n - i,
                {
                    proof {
                        lemma_exprs_wat_step(argsv, i as int);
                        lemma_exprs_check_step(argsv, i as int);
                        assert(decreases_to!(*expression => fc.arguments));
                        assert(decreases_to!(fc.arguments => fc.arguments@));
                        assert(decreases_to!(fc.arguments@ => fc.arguments@[i as int]));
                    }
                    let ghost out0 = self.output.deep_view();
                    self.assemble_expression(&fc.arguments[i]);
                    proof {
                        assert((out0 + expr_wat(argsv[i as int])) + exprs_wat(
                            argsv.skip(i as int + 1),
                        ) =~= out0 + (expr_wat(argsv[i as int]) + exprs_wat(
                            argsv.skip(i as int + 1),
                        )));
                    }
                    i = i + 1;
                }
                proof {
                    assert(argsv.skip(n as int) =~= Seq::<ExpressionS>::empty());
                    assert(self.output.deep_view() =~= d0 + exprs_wat(argsv));
                }
                let mut line = String::from_str("call $");
                line.append(fc.identifier.as_str());
                self.push_line(line);
                proof {
                    assert(self.output.deep_view() =~= d0 + expr_wat(ev));
                }
            },
            Expression::Variable(v) => {
                let mut line = String::from_str("local.get $");
                line.append(v.identifier.as_str());
                self.push_line(line);
                proof {
                    assert(self.output.deep_view() =~= d0 + expr_wat(ev));
                }
            },
            Expression::Literal(l) => {
                self.assemble_literal(l);
                proof {
                    assert(self.output.deep_view() =~= d0 + expr_wat(ev));
                }
            },
        }
    }

    /// Emits one statement.  `last` holds exactly for the final statement
    /// of a function body: a bare expression there keeps its value as the
    /// implicit return instead of dropping it.
    pub fn assemble_statement(&mut self, statement: &Statement, last: bool)
        requires
            supported_stmt(statement_view(*statement)),
        ensures
            final(self).lines() == old(self).lines() + stmt_wat(
                statement_view(*statement),
                last,
            ),
        decreases statement,
    {
        let ghost d0 = self.output.deep_view();
        let ghost sv = statement_view(*statement);
        match statement {
            Statement::VariableDeclaration(vd) => {
                let mut line = String::from_str("(local $");
                line.append(vd.variable.identifier.as_str());
                line.append(" i32)");
                self.push_line(line);
                self.assemble_expression(&vd.expression);
                let mut line2 = String::from_str("local.set $");
                line2.append(vd.variable.identifier.as_str());
                self.push_line(line2);
                proof {
                    assert(self.output.deep_view() =~= d0 + stmt_wat(sv, last));
                }
            },
            Statement::Expression(e) => {
                self.assemble_expression(e);
                if !last {
                    self.push_line(String::from_str("drop"));
                }
                proof {
                    assert(self.output.deep_view() =~= d0 + stmt_wat(sv, last));
                }
            },
            Statement::Return(e) => {
                self.assemble_expression(e);
                self.push_line(String::from_str("return"));
                proof {
                    assert(self.output.deep_view() =~= d0 + stmt_wat(sv, last));
                }
            },
            Statement::While(w) => {
                self.push_line(String::from_str("(block"));
                self.push_line(String::from_str("(loop"));
                self.assemble_expression(&w.condition);
                self.push_line(String::from_str("i32.eqz"));
                self.push_line(String::from_str("br_if 1"));
                self.assemble_scope(&w.body, false);
                self.push_line(String::from_str("br 0"));
                self.push_line(String::from_str(")"));
                self.push_line(String::from_str(")"));
                proof {
                    assert(self.output.deep_view() =~= d0 + stmt_wat(sv, last));
                }
            },
        }
    }

    /// Emits a scope's statements in source order.  `fn_tail` holds for a
    /// function body, whose final statement may be an implicit return.
    pub fn assemble_scope(&mut self, scope: &Scope, fn_tail: bool)
        requires
            supported_stmts(statements_view(scope.statements@)),
        ensures
            final(self).lines() == old(self).lines() + stmts_wat(
                statements_view(scope.statements@),
                fn_tail,
            ),
        decreases scope,
    {
        let ghost d0 = self.output.deep_view();
        let ghost sv = statements_view(scope.statements@);
        proof {
            lemma_statements_view_index(scope.statements@);
            assert(sv.skip(0) =~= sv);
        }
        let n: usize = scope.statements.len();
        let mut i: usize = 0;
        while i < n
            invariant
                n == scope.statements@.len(),
                0 <= i <= n,
                d0 == old(self).lines(),
                sv == statements_view(scope.statements@),
                sv.len() == n,
                forall|j: int|
                    0 <= j < n ==> #[trigger] sv[j] == statement_view(scope.statements@[j]),
                supported_stmts(sv.skip(i as int)),
                self.output.deep_view() + stmts_wat(sv.skip(i as int), fn_tail) == d0 + stmts_wat(
                    sv,
                    fn_tail,
                ),
            decreases n - i,
        {
            proof {
                lemma_stmts_wat_step(sv, fn_tail, i as int);
                lemma_stmts_check_step(sv, i as int);
                assert(decreases_to!(*scope => scope.statements));
                assert(decreases_to!(scope.statements => scope.statements@));
                assert(decreases_to!(scope.statements@ => scope.statements@[i as int]));
            }
            let last: bool = fn_tail && i == n - 1;
            let ghost out0 = self.output.deep_view();
            self.assemble_statement(&scope.statements[i], last);
            proof {
                assert((out0 + stmt_wat(sv[i as int], last)) + stmts_wat(
                    sv.skip(i as int + 1),
                    fn_tail,
                ) =~= out0 + (stmt_wat(sv[i as int], last) + stmts_wat(
                    sv.skip(i as int + 1),
                    fn_tail,
                )));
            }
            i = i + 1;
        }
        proof {
            assert(sv.skip(n as int) =~= Seq::<StatementS>::empty());
            assert(self.output.deep_view() =~= d0 + stmts_wat(sv, fn_tail));
        }
    }

    /// Emits one function: its signature line, its body, and the closing
    /// parenthesis.
    pub fn assemble_function(&mut self, function: &Function)
        requires
            prim_of(function.type_annotation.identifier@) is Some,
            supported_args(crate::ast::arguments_view(function.arguments@)),
            supported_stmts(statements_view(function.body.statements@)),
        ensures
            final(self).lines() == old(self).lines() + seq![
                func_header(
                    function.identifier@,
                    function.type_annotation.identifier@,
                    crate::ast::arguments_view(function.arguments@),
                ),
            ] + stmts_wat(statements_view(function.body.statements@), true) + seq![")"@],
    {
        let ghost d0 = self.output.deep_view();
        let ghost av = crate::ast::arguments_view(function.arguments@);
        let mut line = String::from_str("(func $");
        line.append(function.identifier.as_str());
        proof {
            assert(av.skip(0) =~= av);
            assert(line@ + params_text(av.skip(0)) =~= "(func $"@ + function.identifier@
                + params_text(av));
        }
        let n: usize = function.arguments.len();
        let mut i: usize = 0;
        while i < n
            invariant
                n == function.arguments@.len(),
                0 <= i <= n,
                av == crate::ast::arguments_view(function.arguments@),
                av.len() == n,
                forall|j: int|
                    0 <= j < n ==> #[trigger] av[j] == crate::ast::argument_view(
                        function.arguments@[j],
                    ),
                supported_args(av.skip(i as int)),
                line@ + params_text(av.skip(i as int)) == "(func $"@ + function.identifier@
                    + params_text(av),
            decreases n - i,
        {
            proof {
                lemma_params_text_step(av, i as int);
                lemma_args_check_step(av, i as int);
            }
            let ghost line0 = line@;
            line.append(" (param $");
            line.append(function.arguments[i].variable.identifier.as_str());
            line.append(" ");
            match prim_of_str(&function.arguments[i].type_annotation.identifier) {
                Option::Some(p) => {
                    line.append(p.as_str());
                },
                Option::None => {
                    proof {
                        assert(false);
                    }
                },
            }
            line.append(")");
            proof {
                assert(line@ =~= line0 + (" (param $"@ + av[i as int].name + " "@ + prim_text(
                    av[i as int].ty,
                ) + ")"@));
                assert((line0 + (" (param $"@ + av[i as int].name + " "@ + prim_text(
                    av[i as int].ty,
                ) + ")"@)) + params_text(av.skip(i as int + 1)) =~= line0 + params_text(
                    av.skip(i as int),
                ));
            }
            i = i + 1;
        }
        proof {
            assert(av.skip(n as int) =~= Seq::<ArgumentS>::empty());
        }
        line.append(" (result ");
        match prim_of_str(&function.type_annotation.identifier) {
            Option::Some(p) => {
                line.append(p.as_str());
            },
            Option::None => {
                proof {
                    assert(false);
                }
            },
        }
        line.append(")");
        proof {
            assert(line@ =~= func_header(
                function.identifier@,
                function.type_annotation.identifier@,
                av,
            ));
        }
        self.push_line(line);
        self.assemble_scope(&function.body, true);
        self.push_line(String::from_str(")"));
        proof {
            assert(self.output.deep_view() =~= d0 + seq![
                func_header(function.identifier@, function.type_annotation.identifier@, av),
            ] + stmts_wat(statements_view(function.body.statements@), true) + seq![")"@]);
        }
    }

    /// Emits one declaration.
    pub fn assemble_declaration(&mut self, declaration: &Declaration)
        requires
            supported_decl(declaration_view(*declaration)),
        ensures
            final(self).lines() == old(self).lines() + decl_wat(
                declaration_view(*declaration),
            ),
    {
        let ghost d0 = self.output.deep_view();
        match declaration {
            Declaration::Function(f) => {
                self.assemble_function(f);
                proof {
                    assert(self.output.deep_view() =~= d0 + decl_wat(
                        declaration_view(*declaration),
                    ));
                }
            },
            Declaration::Operator(o) => {
                proof {
                    assert(false);
                }
            },
            Declaration::Struct(s) => {
                proof {
                    assert(false);
                }
            },
        }
    }

    /// Emits the whole module: header, every declaration, the export of
    /// the `main` entry point, and the footer.
    pub fn assemble_program(&mut self, program: &Program)
        requires
            supported_program(program_view(*program)),
        ensures
            final(self).lines() == old(self).lines() + program_wat(
                program_view(*program),
            ),
    {
        let ghost d0 = self.output.deep_view();
        let ghost dv = program_view(*program).decls;
        self.push_line(String::from_str("(module"));
        proof {
            assert(dv.skip(0) =~= dv);
            assert(self.output.deep_view() + decls_wat(dv.skip(0)) =~= d0 + seq!["(module"@]
                + decls_wat(dv));
        }
        let n: usize = program.declarations.len();
        let mut i: usize = 0;
        while i < n
            invariant
                n == program.declarations@.len(),
                0 <= i <= n,
                d0 == old(self).lines(),
                dv == program_view(*program).decls,
                dv.len() == n,
                forall|j: int|
                    0 <= j < n ==> #[trigger] dv[j] == declaration_view(program.declarations@[j]),
                supported_decls(dv.skip(i as int)),
                self.output.deep_view() + decls_wat(dv.skip(i as int)) == d0 + seq!["(module"@]
                    + decls_wat(dv),
            decreases n - i,
        {
            proof {
                lemma_decls_wat_step(dv, i as int);
                lemma_decls_check_step(dv, i as int);
            }
            let ghost out0 = self.output.deep_view();
            self.assemble_declaration(&program.declarations[i]);
            proof {
                assert((out0 + decl_wat(dv[i as int])) + decls_wat(dv.skip(i as int + 1)) =~= out0
                    + (decl_wat(dv[i as int]) + decls_wat(dv.skip(i as int + 1))));
            }
            i = i + 1;
        }
        proof {
            assert(dv.skip(n as int) =~= Seq::<DeclarationS>::empty());
        }
        self.push_line(String::from_str("(export \"main\" (func $main))"));
        self.push_line(String::from_str(")"));
        proof {
            assert(self.output.deep_view() =~= d0 + program_wat(program_view(*program)));
        }
    }

    /// The emitted lines as one text, joined with single newlines.
    fn join_output(&self) -> (r: String)
        ensures
            r@ == join_lines(self.lines()),
    {
        let ghost lv = self.output.deep_view();
        let mut text = String::new();
        proof {
            assert(lv.take(0) =~= Seq::<Seq<char>>::empty());
            assert(join_lines(lv.take(0)) =~= Seq::<char>::empty());
        }
        let n: usize = self.output.len();
        let mut i: usize = 0;
        while i < n
            invariant
                n == self.output@.len(),
                0 <= i <= n,
                lv == self.output.deep_view(),
                lv.len() == n,
                forall|j: int| 0 <= j < n ==> #[trigger] lv[j] == self.output@[j]@,
                text@ == join_lines(lv.take(i as int)),
                i == 0 ==> text@ == Seq::<char>::empty(),
            decreases n - i,
        {
            if i > 0 {
                text.append("\n");
            }
            text.append(self.output[i].as_str());
            proof {
                lemma_join_push(lv.take(i as int), lv[i as int]);
                assert(lv.take(i as int).push(lv[i as int]) =~= lv.take(i as int + 1));
            }
            i = i + 1;
        }
        proof {
            assert(lv.take(n as int) =~= lv);
        }
        text
    }

    /// Turns a program into its WebAssembly text, one instruction or form
    /// per line, or reports the first construct without a lowering.
    pub fn to_wat(program: &Program) -> (r: Result<String, CodegenError>)
        ensures
            match r {
                Result::Ok(text) => supported_program(program_view(*program)) && text@
                    == join_lines(program_wat(program_view(*program))),
                Result::Err(ce) => !supported_program(program_view(*program)) && program_check(
                    program_view(*program),
                ) == Result::<(), CodegenErrorS>::Err(codegen_error_view(ce)),
            },
    {
        proof {
            lemma_codegen_totality(program_view(*program));
        }
        match check_program(program) {
            Result::Err(ce) => Result::Err(ce),
            Result::Ok(u) => {
                let output: Vec<String> = Vec::new();
                let mut assembler = Assembler { output };
                proof {
                    assert(assembler.output.deep_view() =~= Seq::<Seq<char>>::empty());
                }
                assembler.assemble_program(program);
                proof {
                    assert(assembler.output.deep_view() =~= program_wat(program_view(*program)));
                }
                Result::Ok(assembler.join_output())
            },
        }
    }
}

} // verus!
