//! Read-only structural queries the printers share.

use vstd::prelude::*;
use crate::ast::{Expression, Statement, Var};

verus! {

/// Whether a reprinted expression's first token is `(`.
pub open spec fn spec_expr_starts_with_paren(expr: Expression) -> bool
    decreases expr,
{
    match expr {
        Expression::Parenthesized(_) => true,
        Expression::FunctionCall(call) => spec_expr_starts_with_paren(call.callee),
        Expression::Var(var) => spec_var_starts_with_paren(*var),
        Expression::BinaryOp(binop) => spec_expr_starts_with_paren(binop.left),
        Expression::TypeCast(cast) => spec_expr_starts_with_paren(cast.expr),
        _ => false,
    }
}

/// Whether a reprinted variable's first token is `(`.
pub open spec fn spec_var_starts_with_paren(var: Var) -> bool
    decreases var,
{
    match var {
        Var::Name(_) => false,
        Var::FieldAccess(field_access) => spec_expr_starts_with_paren(field_access.prefix),
        Var::Index(index) => spec_expr_starts_with_paren(index.prefix),
    }
}

/// Whether a reprinted statement's first token is `(`. Both printers must
/// guard these statements: after a call, `(...)` glues onto the previous
/// expression and re-parses as a chained call, a silent change of meaning.
pub open spec fn spec_stmt_starts_with_paren(stmt: Statement) -> bool {
    match stmt {
        Statement::FunctionCall(call) => spec_expr_starts_with_paren(call.call.callee),
        Statement::Assignment(assign) => assign.targets@.len() > 0 && spec_var_starts_with_paren(
            assign.targets@[0],
        ),
        Statement::CompoundAssignment(compound) => spec_var_starts_with_paren(compound.var),
        _ => false,
    }
}

/// Whether a reprinted expression's first token is `{`. Inside an
/// interpolated string, `{` directly after the interpolation opener forms
/// `{{`, which Luau rejects: printers must separate them.
pub open spec fn spec_expr_starts_with_brace(expr: Expression) -> bool
    decreases expr,
{
    match expr {
        Expression::TableConstructor(_) => true,
        Expression::FunctionCall(call) => spec_expr_starts_with_brace(call.callee),
        Expression::BinaryOp(binop) => spec_expr_starts_with_brace(binop.left),
        Expression::TypeCast(cast) => spec_expr_starts_with_brace(cast.expr),
        Expression::Var(var) => match *var {
            Var::Name(_) => false,
            Var::FieldAccess(field_access) => spec_expr_starts_with_brace(field_access.prefix),
            Var::Index(index) => spec_expr_starts_with_brace(index.prefix),
        },
        _ => false,
    }
}

pub fn stmt_starts_with_paren(stmt: &Statement) -> (b: bool)
    ensures
        b == spec_stmt_starts_with_paren(*stmt),
{
    match stmt {
        Statement::FunctionCall(call) => expr_starts_with_paren(&call.call.callee),
        Statement::Assignment(assign) => match assign.targets.first() {
            Some(first_var) => var_starts_with_paren(first_var),
            None => false,
        },
        Statement::CompoundAssignment(compound) => var_starts_with_paren(&compound.var),
        _ => false,
    }
}

pub fn expr_starts_with_paren(expr: &Expression) -> (b: bool)
    ensures
        b == spec_expr_starts_with_paren(*expr),
    decreases expr,
{
    match expr {
        Expression::Parenthesized(_) => true,
        Expression::FunctionCall(call) => expr_starts_with_paren(&call.callee),
        Expression::Var(var) => var_starts_with_paren(var),
        Expression::BinaryOp(binop) => expr_starts_with_paren(&binop.left),
        Expression::UnaryOp(_) => false,
        Expression::TypeCast(cast) => expr_starts_with_paren(&cast.expr),
        _ => false,
    }
}

pub fn var_starts_with_paren(var: &Var) -> (b: bool)
    ensures
        b == spec_var_starts_with_paren(*var),
    decreases var,
{
    match var {
        Var::Name(_) => false,
        Var::FieldAccess(field_access) => expr_starts_with_paren(&field_access.prefix),
        Var::Index(index) => expr_starts_with_paren(&index.prefix),
    }
}

pub fn expr_starts_with_brace(expr: &Expression) -> (b: bool)
    ensures
        b == spec_expr_starts_with_brace(*expr),
    decreases expr,
{
    match expr {
        Expression::TableConstructor(_) => true,
        Expression::FunctionCall(call) => expr_starts_with_brace(&call.callee),
        Expression::BinaryOp(binop) => expr_starts_with_brace(&binop.left),
        Expression::TypeCast(cast) => expr_starts_with_brace(&cast.expr),
        Expression::Var(var) => match &**var {
            Var::Name(_) => false,
            Var::FieldAccess(field_access) => expr_starts_with_brace(&field_access.prefix),
            Var::Index(index) => expr_starts_with_brace(&index.prefix),
        },
        _ => false,
    }
}

} // verus!
