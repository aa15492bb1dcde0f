//! What a node does to the table that reaches it, and the engine's part in
//! it.

use datafusion::dataframe::DataFrame;
use datafusion::error::DataFusionError;
use vstd::prelude::*;
use crate::engine::{describe, described, filter_rows, filtered, select_columns, selected};
use crate::filter::{compile_filter, compiled, expr_of, to_expr, Predicate, PredicateView};
use crate::model::{texts, Node, NodeConfig};

verus! {

/// What is to be done to the table that reaches a node.
#[derive(Debug, PartialEq, Eq)]
pub enum Transformation {
    /// The table passes through unchanged.
    Keep,
    /// The rows that satisfy the predicate are kept.
    Filter(Predicate),
    /// Exactly the named columns are kept, in the given order.
    Select(Vec<String>),
}

/// A transformation as a mathematical value.
pub enum TransformationView {
    Keep,
    Filter(PredicateView),
    Select(Seq<Seq<char>>),
}

impl View for Transformation {
    type V = TransformationView;

    open spec fn view(&self) -> TransformationView {
        match self {
            Transformation::Keep => TransformationView::Keep,
            Transformation::Filter(predicate) => TransformationView::Filter(predicate@),
            Transformation::Select(fields) => TransformationView::Select(texts(fields@)),
        }
    }
}

/// Why a preview stops before it has a result.
#[derive(Clone, Debug, PartialEq, Eq)]
pub enum PreviewError {
    /// A node asks for a transformation that is declared but not defined.
    UnknownTransformation,
    /// The engine could not do what it was asked for; the text is the
    /// engine's own description of its error.
    EngineFailure(String),
    /// The engine reported something that had not been asked for.
    OutOfTurn,
}

/// An error of a preview as a mathematical value.
pub enum PreviewErrorView {
    UnknownTransformation,
    EngineFailure(Seq<char>),
    OutOfTurn,
}

impl View for PreviewError {
    type V = PreviewErrorView;

    open spec fn view(&self) -> PreviewErrorView {
        match self {
            PreviewError::UnknownTransformation => PreviewErrorView::UnknownTransformation,
            PreviewError::EngineFailure(text) => PreviewErrorView::EngineFailure(text@),
            PreviewError::OutOfTurn => PreviewErrorView::OutOfTurn,
        }
    }
}

/// The message under which an error is reported.
pub open spec fn message_of(error: PreviewErrorView) -> Seq<char> {
    match error {
        PreviewErrorView::UnknownTransformation => "Unknown transformation type"@,
        PreviewErrorView::EngineFailure(text) => text,
        PreviewErrorView::OutOfTurn => "Engine reply out of turn"@,
    }
}

impl PreviewError {
    /// The message under which the error is reported.
    pub fn message(&self) -> (text: String)
        ensures
            text@ == message_of(self@),
    {
        match self {
            PreviewError::UnknownTransformation => "Unknown transformation type".to_owned(),
            PreviewError::EngineFailure(text) => text.clone(),
            PreviewError::OutOfTurn => "Engine reply out of turn".to_owned(),
        }
    }
}

/// The transformation that a node stands for. A node without a
/// configuration, an aggregation and a filter without a predicate keep the
/// table as it is. Mapping, joining and sorting are not defined.
pub open spec fn planned(node: Node) -> Result<TransformationView, PreviewErrorView> {
    match node.config {
        None => Ok(TransformationView::Keep),
        Some(NodeConfig::Filter { rules }) => match compiled(rules) {
            Some(predicate) => Ok(TransformationView::Filter(predicate)),
            None => Ok(TransformationView::Keep),
        },
        Some(NodeConfig::Select { fields }) => Ok(TransformationView::Select(texts(fields@))),
        Some(NodeConfig::Aggregate) => Ok(TransformationView::Keep),
        Some(NodeConfig::Mapping) => Err(PreviewErrorView::UnknownTransformation),
        Some(NodeConfig::Join) => Err(PreviewErrorView::UnknownTransformation),
        Some(NodeConfig::Sort) => Err(PreviewErrorView::UnknownTransformation),
    }
}

/// Whether a node asks for mapping, joining or sorting.
pub open spec fn is_undefined(node: Node) -> bool {
    node.config matches Some(config) && (config is Mapping || config is Join || config is Sort)
}

/// Whether `outcome` is the executable form of `model`.
pub open spec fn carries_out(
    outcome: Result<Transformation, PreviewError>,
    model: Result<TransformationView, PreviewErrorView>,
) -> bool {
    match outcome {
        Ok(transformation) => model == Ok::<TransformationView, PreviewErrorView>(transformation@),
        Err(error) => model == Err::<TransformationView, PreviewErrorView>(error@),
    }
}

/// A copy of a list of names.
fn copy_names(names: &Vec<String>) -> (copy: Vec<String>)
    ensures
        texts(copy@) == texts(names@),
{
    let mut copy: Vec<String> = Vec::new();
    let mut i: usize = 0;
    while i < names.len()
        invariant
            i <= names.len(),
            copy@.len() == i,
            forall|k: int| 0 <= k < i ==> copy@[k]@ == names@[k]@,
        decreases names.len() - i,
    {
        copy.push(names[i].clone());
        i += 1;
    }
    copy
}

/// Decides what the engine is to do with the table that reaches `node`.
///
/// A filter is compiled into its predicate; one that holds no rule is not
/// applied at all. A selection names its columns. A node without a
/// configuration and an aggregation pass the table through. Mapping, joining
/// and sorting fail with `UnknownTransformation`.
pub fn plan_transformation(node: &Node) -> (outcome: Result<Transformation, PreviewError>)
    ensures
        carries_out(outcome, planned(*node)),
        outcome is Err <==> is_undefined(*node),
{
    match &node.config {
        None => Ok(Transformation::Keep),
        Some(NodeConfig::Filter { rules }) => match compile_filter(rules) {
            Some(predicate) => Ok(Transformation::Filter(predicate)),
            None => Ok(Transformation::Keep),
        },
        Some(NodeConfig::Select { fields }) => Ok(Transformation::Select(copy_names(fields))),
        Some(NodeConfig::Aggregate) => Ok(Transformation::Keep),
        Some(NodeConfig::Mapping) => Err(PreviewError::UnknownTransformation),
        Some(NodeConfig::Join) => Err(PreviewError::UnknownTransformation),
        Some(NodeConfig::Sort) => Err(PreviewError::UnknownTransformation),
    }
}

/// What an outcome of the engine means to a preview: its table, or a
/// failure that carries the engine's description of its error.
pub open spec fn settled(outcome: Result<DataFrame, DataFusionError>) -> Result<
    DataFrame,
    PreviewErrorView,
> {
    match outcome {
        Ok(table) => Ok(table),
        Err(error) => Err(PreviewErrorView::EngineFailure(described(error))),
    }
}

/// What comes of a transformation of `table`. A table that is kept comes
/// back as it is. A filter is what the engine makes of the table and of the
/// engine's expression for the predicate, and a selection what it makes of
/// the table and the names.
pub open spec fn performed(table: DataFrame, transformation: TransformationView) -> Result<
    DataFrame,
    PreviewErrorView,
> {
    match transformation {
        TransformationView::Keep => Ok(table),
        TransformationView::Filter(predicate) => settled(filtered(table, expr_of(predicate))),
        TransformationView::Select(fields) => settled(selected(table, fields)),
    }
}

/// Whether `outcome` is the executable form of `model`.
pub open spec fn is_outcome(
    outcome: Result<DataFrame, PreviewError>,
    model: Result<DataFrame, PreviewErrorView>,
) -> bool {
    match outcome {
        Ok(table) => model == Ok::<DataFrame, PreviewErrorView>(table),
        Err(error) => model == Err::<DataFrame, PreviewErrorView>(error@),
    }
}

/// Has the engine carry out a transformation on `table`.
///
/// The engine decides what a filter or a selection yields and whether it
/// accepts them: a column that the table does not have makes it fail.
pub(crate) fn perform(table: DataFrame, transformation: &Transformation) -> (outcome: Result<
    DataFrame,
    PreviewError,
>)
    ensures
        is_outcome(outcome, performed(table, transformation@)),
{
    let done = match transformation {
        Transformation::Keep => {
            return Ok(table);
        },
        Transformation::Filter(predicate) => filter_rows(table, to_expr(predicate)),
        Transformation::Select(fields) => select_columns(table, fields),
    };
    match done {
        Ok(table) => Ok(table),
        Err(error) => Err(PreviewError::EngineFailure(describe(&error))),
    }
}

/// What comes of applying a node to `table`: the error of an undefined
/// transformation, or what comes of the planned one.
pub open spec fn applied(table: DataFrame, node: Node) -> Result<DataFrame, PreviewErrorView> {
    match planned(node) {
        Ok(transformation) => performed(table, transformation),
        Err(error) => Err(error),
    }
}

/// Applies the transformation of `node` to `table`.
///
/// A node without a configuration, an aggregation and a filter that holds no
/// rule hand the table back unchanged. A filter keeps the rows that satisfy
/// its predicate and a selection keeps the named columns, as far as the
/// engine accepts them. Mapping, joining and sorting fail with
/// `UnknownTransformation`.
pub fn apply_transformation(table: DataFrame, node: &Node) -> (outcome: Result<
    DataFrame,
    PreviewError,
>)
    ensures
        is_outcome(outcome, applied(table, *node)),
        outcome matches Err(error) && error is UnknownTransformation <==> is_undefined(*node),
{
    match plan_transformation(node) {
        Ok(transformation) => perform(table, &transformation),
        Err(error) => Err(error),
    }
}

} // verus!
