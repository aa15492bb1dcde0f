//! The value types of a preview request and of its response.

use vstd::prelude::*;

verus! {

/// The comparison that a filter rule applies between a column and a literal.
#[derive(Clone, Copy, Debug, PartialEq, Eq, Structural)]
pub enum FilterConfigConditions {
    Equals,
    NotEquals,
    GreaterThan,
    LessThan,
}

/// The raw comparison value of a rule. Only a value that arrived as text is
/// read; any other kind of value carries nothing.
#[derive(Clone, Debug, PartialEq, Eq)]
pub enum RuleValue {
    Text(String),
    NonText,
}

/// A single comparison of a named column against a literal.
#[derive(Clone, Debug, PartialEq, Eq)]
pub struct FilterRule {
    pub field: String,
    pub condition: FilterConfigConditions,
    pub value: RuleValue,
}

/// How the conditions of a group are joined.
#[derive(Clone, Copy, Debug, PartialEq, Eq, Structural)]
pub enum FilterGroupOperator {
    AND,
    OR,
}

/// A boolean combination of rules and nested groups.
#[derive(Debug, PartialEq, Eq)]
pub struct FilterGroup {
    pub operator: FilterGroupOperator,
    pub conditions: Vec<FilterCondition>,
}

/// A leaf or a branch of a filter tree.
#[derive(Debug, PartialEq, Eq)]
pub enum FilterCondition {
    Rule(FilterRule),
    Group(Box<FilterGroup>),
}

/// What a node does to the table that reaches it.
#[derive(Debug, PartialEq, Eq)]
pub enum NodeConfig {
    Filter { rules: FilterGroup },
    Mapping,
    Join,
    Aggregate,
    Sort,
    Select { fields: Vec<String> },
}

/// The role of a node in the pipeline.
#[derive(Clone, Copy, Debug, PartialEq, Eq, Structural)]
pub enum NodeType {
    Source,
    Transformation,
    Destination,
}

/// One step of a pipeline.
#[derive(Debug, PartialEq, Eq)]
pub struct Node {
    pub id: String,
    pub kind: NodeType,
    pub config: Option<NodeConfig>,
}

/// A directed dependency: `target` consumes what `source` produces.
#[derive(Clone, Debug, PartialEq, Eq)]
pub struct Edge {
    pub id: String,
    pub source: String,
    pub target: String,
}

/// A whole pipeline as submitted for preview.
#[derive(Debug, PartialEq, Eq)]
pub struct PreviewRequest {
    pub nodes: Vec<Node>,
    pub edges: Vec<Edge>,
}

/// A column as reported to the caller.
#[derive(Clone, Debug, PartialEq, Eq)]
pub struct SchemaField {
    pub name: String,
    pub data_type: String,
}

/// The outcome of a preview.
#[derive(Clone, Debug, PartialEq, Eq)]
pub struct PreviewResponse {
    pub incoming_schema: Vec<SchemaField>,
    pub schema: Vec<SchemaField>,
    pub data: Vec<Vec<String>>,
}

/// The character sequences held by a sequence of strings.
pub open spec fn texts(items: Seq<String>) -> Seq<Seq<char>> {
    Seq::new(items.len(), |i: int| items[i]@)
}

impl Edge {
    /// The edge as a pair of node ids, source first.
    pub open spec fn link(&self) -> (Seq<char>, Seq<char>) {
        (self.source@, self.target@)
    }
}

impl PreviewRequest {
    /// The ids of the nodes, in the order of the request.
    pub open spec fn node_ids(&self) -> Seq<Seq<char>> {
        Seq::new(self.nodes@.len(), |i: int| self.nodes@[i].id@)
    }

    /// The edges as pairs of node ids, in the order of the request.
    pub open spec fn links(&self) -> Seq<(Seq<char>, Seq<char>)> {
        Seq::new(self.edges@.len(), |i: int| self.edges@[i].link())
    }
}

/// A reported column as a mathematical value.
pub struct SchemaFieldView {
    pub name: Seq<char>,
    pub data_type: Seq<char>,
}

impl View for SchemaField {
    type V = SchemaFieldView;

    open spec fn view(&self) -> SchemaFieldView {
        SchemaFieldView { name: self.name@, data_type: self.data_type@ }
    }
}

/// The columns that a list of schema fields reports.
pub open spec fn schema_view(fields: Seq<SchemaField>) -> Seq<SchemaFieldView> {
    Seq::new(fields.len(), |i: int| fields[i]@)
}

/// The cell texts of a table of rows.
pub open spec fn rows_view(rows: Seq<Vec<String>>) -> Seq<Seq<Seq<char>>> {
    Seq::new(rows.len(), |i: int| texts(rows[i]@))
}

/// The outcome of a preview as a mathematical value.
pub struct PreviewResponseView {
    pub incoming_schema: Seq<SchemaFieldView>,
    pub schema: Seq<SchemaFieldView>,
    pub data: Seq<Seq<Seq<char>>>,
}

impl View for PreviewResponse {
    type V = PreviewResponseView;

    open spec fn view(&self) -> PreviewResponseView {
        PreviewResponseView {
            incoming_schema: schema_view(self.incoming_schema@),
            schema: schema_view(self.schema@),
            data: rows_view(self.data@),
        }
    }
}

} // verus!
