//! The tabular engine: DataFusion's expressions and data frames, as far as a
//! preview asks for them.
//!
//! Expressions and data frames are values of the engine. This crate builds
//! them and hands them on, and knows nothing of what they hold.

use datafusion::dataframe::DataFrame;
use datafusion::error::DataFusionError;
use datafusion::logical_expr::Expr;
use datafusion::scalar::ScalarValue;
use vstd::prelude::*;
use crate::model::texts;

verus! {

/// `Expr` of datafusion: a logical expression.
#[verifier::external_type_specification]
#[verifier::external_body]
pub struct ExExpr(Expr);

/// `DataFrame` of datafusion: a table as a plan that the engine can run.
#[verifier::external_type_specification]
#[verifier::external_body]
pub struct ExDataFrame(DataFrame);

/// `DataFusionError` of datafusion: an error of the engine.
#[verifier::external_type_specification]
#[verifier::external_body]
pub struct ExDataFusionError(DataFusionError);

/// What `col` of datafusion makes of a name.
pub uninterp spec fn column_expr(name: Seq<char>) -> Expr;

/// What `lit` of datafusion makes of a 64-bit signed integer.
pub uninterp spec fn integer_expr(value: i64) -> Expr;

/// What `str::parse` of std and `ScalarValue::Float64` of datafusion make of
/// a text.
pub uninterp spec fn float_expr(text: Seq<char>) -> Option<Expr>;

/// What `lit` of datafusion makes of a boolean.
pub uninterp spec fn boolean_expr(value: bool) -> Expr;

/// What `lit` of datafusion makes of a text.
pub uninterp spec fn text_expr(text: Seq<char>) -> Expr;

/// What `Expr::eq` of datafusion makes of two expressions.
pub uninterp spec fn equal_expr(left: Expr, right: Expr) -> Expr;

/// What `Expr::not_eq` of datafusion makes of two expressions.
pub uninterp spec fn not_equal_expr(left: Expr, right: Expr) -> Expr;

/// What `Expr::gt` of datafusion makes of two expressions.
pub uninterp spec fn greater_expr(left: Expr, right: Expr) -> Expr;

/// What `Expr::lt` of datafusion makes of two expressions.
pub uninterp spec fn less_expr(left: Expr, right: Expr) -> Expr;

/// What `Expr::and` of datafusion makes of two expressions.
pub uninterp spec fn and_expr(left: Expr, right: Expr) -> Expr;

/// What `Expr::or` of datafusion makes of two expressions.
pub uninterp spec fn or_expr(left: Expr, right: Expr) -> Expr;

/// What `DataFrame::filter` of datafusion makes of a table and a predicate.
pub uninterp spec fn filtered(table: DataFrame, predicate: Expr) -> Result<
    DataFrame,
    DataFusionError,
>;

/// What `DataFrame::select_columns` of datafusion makes of a table and a
/// list of column names.
pub uninterp spec fn selected(table: DataFrame, names: Seq<Seq<char>>) -> Result<
    DataFrame,
    DataFusionError,
>;

/// The text in which an engine error describes itself.
pub uninterp spec fn described(error: DataFusionError) -> Seq<char>;

/// `col` of datafusion: the expression that refers to a column. The engine
/// reads `name` as an identifier: it may be qualified by a relation, and
/// letters outside double quotes are lowered. The expression depends on the
/// name alone.
#[verifier::external_body]
pub(crate) fn column(name: &str) -> (expr: Expr)
    ensures
        expr == column_expr(name@),
{
    datafusion::logical_expr::col(name)
}

/// `lit` of datafusion for a 64-bit signed integer: the literal of the
/// number, which depends on the number alone.
#[verifier::external_body]
pub(crate) fn integer_literal(value: i64) -> (expr: Expr)
    ensures
        expr == integer_expr(value),
{
    datafusion::logical_expr::lit(value)
}

/// `str::parse` of std and `ScalarValue::Float64` of datafusion: the literal
/// of the 64-bit floating-point number that `text` is written as, or `None`
/// where std does not read it as one. Both depend on the text alone.
#[verifier::external_body]
pub(crate) fn float_literal(text: &str) -> (expr: Option<Expr>)
    ensures
        expr == float_expr(text@),
{
    match text.parse() {
        Ok(number) => Some(Expr::Literal(ScalarValue::Float64(Some(number)))),
        Err(_) => None,
    }
}

/// `lit` of datafusion for a boolean: the literal of the value, which
/// depends on the value alone.
#[verifier::external_body]
pub(crate) fn boolean_literal(value: bool) -> (expr: Expr)
    ensures
        expr == boolean_expr(value),
{
    datafusion::logical_expr::lit(value)
}

/// `lit` of datafusion for a text: the literal of the text, which depends
/// on the text alone.
#[verifier::external_body]
pub(crate) fn text_literal(text: &str) -> (expr: Expr)
    ensures
        expr == text_expr(text@),
{
    datafusion::logical_expr::lit(text)
}

/// `Expr::eq` of datafusion: `left = right`, which depends on the two
/// expressions alone.
#[verifier::external_body]
pub(crate) fn is_equal(left: Expr, right: Expr) -> (expr: Expr)
    ensures
        expr == equal_expr(left, right),
{
    left.eq(right)
}

/// `Expr::not_eq` of datafusion: `left != right`, which depends on the two
/// expressions alone.
#[verifier::external_body]
pub(crate) fn is_not_equal(left: Expr, right: Expr) -> (expr: Expr)
    ensures
        expr == not_equal_expr(left, right),
{
    left.not_eq(right)
}

/// `Expr::gt` of datafusion: `left > right`, which depends on the two
/// expressions alone.
#[verifier::external_body]
pub(crate) fn is_greater(left: Expr, right: Expr) -> (expr: Expr)
    ensures
        expr == greater_expr(left, right),
{
    left.gt(right)
}

/// `Expr::lt` of datafusion: `left < right`, which depends on the two
/// expressions alone.
#[verifier::external_body]
pub(crate) fn is_less(left: Expr, right: Expr) -> (expr: Expr)
    ensures
        expr == less_expr(left, right),
{
    left.lt(right)
}

/// `Expr::and` of datafusion: `left AND right`, which depends on the two
/// expressions alone.
#[verifier::external_body]
pub(crate) fn both(left: Expr, right: Expr) -> (expr: Expr)
    ensures
        expr == and_expr(left, right),
{
    left.and(right)
}

/// `Expr::or` of datafusion: `left OR right`, which depends on the two
/// expressions alone.
#[verifier::external_body]
pub(crate) fn either(left: Expr, right: Expr) -> (expr: Expr)
    ensures
        expr == or_expr(left, right),
{
    left.or(right)
}

/// `DataFrame::filter` of datafusion: the table of the rows for which the
/// predicate holds, or the engine's error where it rejects the predicate.
/// Both depend on the table and the predicate alone.
#[verifier::external_body]
pub(crate) fn filter_rows(table: DataFrame, predicate: Expr) -> (outcome: Result<
    DataFrame,
    DataFusionError,
>)
    ensures
        outcome == filtered(table, predicate),
{
    table.filter(predicate)
}

/// `DataFrame::select_columns` of datafusion: the table of the named columns
/// in the given order, or the engine's error where it rejects a name. Both
/// depend on the table and the names alone.
#[verifier::external_body]
pub(crate) fn select_columns(table: DataFrame, names: &Vec<String>) -> (outcome: Result<
    DataFrame,
    DataFusionError,
>)
    ensures
        outcome == selected(table, texts(names@)),
{
    let names: Vec<&str> = names.iter().map(|name| name.as_str()).collect();
    table.select_columns(&names)
}

/// `to_string` of std on an engine error: the text in which the engine
/// describes it, which depends on the error alone.
#[verifier::external_body]
pub(crate) fn describe(error: &DataFusionError) -> (text: String)
    ensures
        text@ == described(*error),
{
    error.to_string()
}

} // verus!
