use datafusion::arrow::array::{Array, ArrayRef, Float64Array, Int64Array, StringArray};
use datafusion::arrow::datatypes::DataType;
use datafusion::arrow::record_batch::RecordBatch;
use datafusion::dataframe::DataFrame;
use datafusion::prelude::SessionContext;
use pipeline_preview::executor::{EngineReply, EngineRequest, Stage};
use pipeline_preview::model::{
    Edge, FilterCondition, FilterConfigConditions, FilterGroup, FilterGroupOperator, FilterRule,
    Node, NodeConfig, NodeType, PreviewRequest, RuleValue, SchemaField,
};
use pipeline_preview::preview::Preview;
use pipeline_preview::render::{Batch, Column, ColumnData};
use pipeline_preview::transform::{apply_transformation, PreviewError};
use std::sync::Arc;

fn source_table() -> DataFrame {
    let a: ArrayRef = Arc::new(Int64Array::from(vec![1, 15, 30]));
    let b: ArrayRef = Arc::new(StringArray::from(vec!["x", "y", "z"]));
    let c: ArrayRef = Arc::new(Float64Array::from(vec![0.5, 1.5, 2.5]));
    let batch = RecordBatch::try_from_iter(vec![("a", a), ("b", b), ("c", c)]).unwrap();
    SessionContext::new().read_batch(batch).unwrap()
}

fn materialize(table: &DataFrame) -> Vec<RecordBatch> {
    let runtime = tokio::runtime::Builder::new_current_thread().build().unwrap();
    runtime.block_on(table.clone().collect()).unwrap()
}

fn seen_schema(batches: &[RecordBatch]) -> Option<Vec<SchemaField>> {
    batches.first().map(|batch| {
        batch
            .schema()
            .fields()
            .iter()
            .map(|f| SchemaField { name: f.name().to_string(), data_type: format!("{:?}", f.data_type()) })
            .collect()
    })
}

fn column_names(table: &DataFrame) -> Vec<String> {
    seen_schema(&materialize(table)).unwrap().into_iter().map(|f| f.name).collect()
}

fn whole_numbers(table: &DataFrame, name: &str) -> Vec<i64> {
    let mut values = Vec::new();
    for batch in materialize(table) {
        let column = batch.column_by_name(name).unwrap();
        let array = column.as_any().downcast_ref::<Int64Array>().unwrap();
        values.extend((0..array.len()).map(|row| array.value(row)));
    }
    values
}

fn held_batches(batches: &[RecordBatch]) -> Vec<Batch> {
    batches
        .iter()
        .map(|batch| {
            let schema = batch.schema();
            let columns = (0..batch.num_columns())
                .map(|index| {
                    let column = batch.column(index);
                    let data = match schema.field(index).data_type() {
                        DataType::Utf8 => {
                            let array = column.as_any().downcast_ref::<StringArray>().unwrap();
                            ColumnData::Utf8((0..array.len()).map(|r| array.value(r).to_string()).collect())
                        }
                        DataType::Int64 => {
                            let array = column.as_any().downcast_ref::<Int64Array>().unwrap();
                            ColumnData::Int64((0..array.len()).map(|r| array.value(r)).collect())
                        }
                        DataType::Float64 => {
                            let array = column.as_any().downcast_ref::<Float64Array>().unwrap();
                            ColumnData::Float64((0..array.len()).map(|r| array.value(r).to_string()).collect())
                        }
                        other => ColumnData::Other(format!("{other:?}")),
                    };
                    Column { name: schema.field(index).name().to_string(), data }
                })
                .collect();
            Batch::new(columns, batch.num_rows()).unwrap()
        })
        .collect()
}

fn one_node(config: Option<NodeConfig>) -> PreviewRequest {
    PreviewRequest {
        nodes: vec![Node { id: "n".to_string(), kind: NodeType::Transformation, config }],
        edges: vec![],
    }
}

fn a_rule(field: &str, condition: FilterConfigConditions, value: &str) -> FilterCondition {
    FilterCondition::Rule(FilterRule {
        field: field.to_string(),
        condition,
        value: RuleValue::Text(value.to_string()),
    })
}

fn a_filter(operator: FilterGroupOperator, conditions: Vec<FilterCondition>) -> NodeConfig {
    NodeConfig::Filter { rules: FilterGroup { operator, conditions } }
}

fn names(items: &[&str]) -> Vec<String> {
    items.iter().map(|s| s.to_string()).collect()
}

/// Drives a preview as a server would: materializes the table whenever the
/// preview asks for an inspection.
fn drive(request: PreviewRequest) -> (Preview, EngineRequest) {
    let (mut preview, mut asked) = Preview::begin(request, source_table());
    while asked == EngineRequest::Inspect {
        let batches = materialize(preview.table().unwrap());
        (preview, asked) = preview.resume(EngineReply::Inspected(seen_schema(&batches)));
    }
    (preview, asked)
}

#[test]
fn selection_keeps_exactly_the_named_columns_in_order() {
    let (preview, asked) = drive(one_node(Some(NodeConfig::Select { fields: names(&["a", "b"]) })));
    assert_eq!(asked, EngineRequest::Collect);
    assert_eq!(column_names(preview.table().unwrap()), names(&["a", "b"]));
    assert_eq!(whole_numbers(preview.table().unwrap(), "a"), vec![1, 15, 30]);

    let (preview, _) = drive(one_node(Some(NodeConfig::Select { fields: names(&["c", "a"]) })));
    assert_eq!(column_names(preview.table().unwrap()), names(&["c", "a"]));
}

#[test]
fn selection_of_a_missing_column_fails() {
    let (preview, asked) = drive(one_node(Some(NodeConfig::Select { fields: names(&["a", "nowhere"]) })));
    match asked {
        EngineRequest::Abort(PreviewError::EngineFailure(text)) => assert!(text.contains("nowhere")),
        other => panic!("{other:?}"),
    }
    assert_eq!(preview.stage(), Stage::Aborted);
    assert!(preview.table().is_none());
}

#[test]
fn empty_node_list_leaves_the_source_unchanged() {
    let (preview, asked) = Preview::begin(PreviewRequest { nodes: vec![], edges: vec![] }, source_table());
    assert_eq!(asked, EngineRequest::Collect);
    let batches = materialize(preview.table().unwrap());
    assert_eq!(batches, materialize(&source_table()));
    let response = preview.finish(&held_batches(&batches));
    assert_eq!(response.incoming_schema, vec![]);
    assert_eq!(
        response.data,
        vec![names(&["1", "x", "0.5"]), names(&["15", "y", "1.5"]), names(&["30", "z", "2.5"])]
    );
}

#[test]
fn filter_keeps_the_rows_that_satisfy_the_rule() {
    let config = a_filter(FilterGroupOperator::AND, vec![a_rule("a", FilterConfigConditions::GreaterThan, "10")]);
    let (preview, asked) = drive(one_node(Some(config)));
    assert_eq!(asked, EngineRequest::Collect);
    assert_eq!(whole_numbers(preview.table().unwrap(), "a"), vec![15, 30]);
}

#[test]
fn nested_filter_is_evaluated_as_written() {
    // (a > 20) OR ((a > 0) AND (a < 10))
    let config = a_filter(
        FilterGroupOperator::OR,
        vec![
            a_rule("a", FilterConfigConditions::GreaterThan, "20"),
            FilterCondition::Group(Box::new(FilterGroup {
                operator: FilterGroupOperator::AND,
                conditions: vec![
                    a_rule("a", FilterConfigConditions::GreaterThan, "0"),
                    a_rule("a", FilterConfigConditions::LessThan, "10"),
                ],
            })),
        ],
    );
    let (preview, _) = drive(one_node(Some(config)));
    assert_eq!(whole_numbers(preview.table().unwrap(), "a"), vec![1, 30]);
}

#[test]
fn filter_compares_with_literals_of_every_type() {
    let cases = [
        ("c", FilterConfigConditions::GreaterThan, "1.0", vec![15, 30]),
        ("c", FilterConfigConditions::LessThan, "2e0", vec![1, 15]),
        ("b", FilterConfigConditions::Equals, "y", vec![15]),
        ("b", FilterConfigConditions::NotEquals, "y", vec![1, 30]),
        ("a", FilterConfigConditions::Equals, "+30", vec![30]),
    ];
    for (field, condition, value, expected) in cases {
        let config = a_filter(FilterGroupOperator::AND, vec![a_rule(field, condition, value)]);
        let (preview, asked) = drive(one_node(Some(config)));
        assert_eq!(asked, EngineRequest::Collect, "{field} {value}");
        assert_eq!(whole_numbers(preview.table().unwrap(), "a"), expected, "{field} {value}");
    }
}

#[test]
fn filter_without_conditions_is_not_applied() {
    let (preview, asked) = drive(one_node(Some(a_filter(FilterGroupOperator::AND, vec![]))));
    assert_eq!(asked, EngineRequest::Collect);
    assert_eq!(materialize(preview.table().unwrap()), materialize(&source_table()));
}

#[test]
fn filter_on_a_missing_column_fails() {
    let config = a_filter(FilterGroupOperator::AND, vec![a_rule("nowhere", FilterConfigConditions::Equals, "1")]);
    let (preview, asked) = drive(one_node(Some(config)));
    assert!(matches!(asked, EngineRequest::Abort(PreviewError::EngineFailure(_))));
    assert!(preview.table().is_none());
}

#[test]
fn undefined_transformation_gives_the_preview_up() {
    let (preview, asked) = drive(one_node(Some(NodeConfig::Sort)));
    assert_eq!(asked, EngineRequest::Abort(PreviewError::UnknownTransformation));
    assert_eq!(preview.stage(), Stage::Aborted);
}

#[test]
fn resume_never_asks_for_a_transformation() {
    let (preview, asked) = Preview::begin(
        one_node(Some(NodeConfig::Select { fields: names(&["b"]) })),
        source_table(),
    );
    assert_eq!(asked, EngineRequest::Inspect);
    let (preview, asked) = preview.resume(EngineReply::Inspected(None));
    assert_eq!(asked, EngineRequest::Collect);
    assert_eq!(column_names(preview.table().unwrap()), names(&["b"]));
    let (_, asked) = preview.resume(EngineReply::Transformed);
    assert_eq!(asked, EngineRequest::Abort(PreviewError::OutOfTurn));
}

#[test]
fn failed_materialization_gives_the_preview_up() {
    let (preview, _) = Preview::begin(one_node(None), source_table());
    let (preview, asked) = preview.resume(EngineReply::Failed("disk on fire".to_string()));
    assert_eq!(asked, EngineRequest::Abort(PreviewError::EngineFailure("disk on fire".to_string())));
    assert_eq!(preview.stage(), Stage::Aborted);
}

#[test]
fn whole_pipeline_runs_on_the_engine() {
    let node = |id: &str, kind: NodeType, config: Option<NodeConfig>| Node { id: id.to_string(), kind, config };
    let edge = |s: &str, t: &str| Edge { id: format!("{s}{t}"), source: s.to_string(), target: t.to_string() };
    let request = PreviewRequest {
        nodes: vec![
            node("out", NodeType::Destination, None),
            node("pick", NodeType::Transformation, Some(NodeConfig::Select { fields: names(&["a", "b"]) })),
            node(
                "keep",
                NodeType::Transformation,
                Some(a_filter(FilterGroupOperator::AND, vec![a_rule("c", FilterConfigConditions::GreaterThan, "1")])),
            ),
            node("in", NodeType::Source, None),
        ],
        edges: vec![edge("in", "keep"), edge("keep", "pick"), edge("pick", "out")],
    };
    let (preview, asked) = drive(request);
    assert_eq!(asked, EngineRequest::Collect);
    let batches = materialize(preview.table().unwrap());
    let response = preview.finish(&held_batches(&batches));
    let field = |name: &str, data_type: &str| SchemaField { name: name.to_string(), data_type: data_type.to_string() };
    assert_eq!(response.incoming_schema, vec![field("a", "Int64"), field("b", "Utf8")]);
    assert_eq!(response.schema, vec![field("a", "Int64"), field("b", "Utf8")]);
    assert_eq!(response.data, vec![names(&["15", "y"]), names(&["30", "z"])]);
}

#[test]
fn applying_a_node_that_keeps_the_table_hands_it_back() {
    for config in [None, Some(NodeConfig::Aggregate), Some(a_filter(FilterGroupOperator::OR, vec![]))] {
        let node = Node { id: "n".to_string(), kind: NodeType::Transformation, config };
        let applied = apply_transformation(source_table(), &node).unwrap();
        assert_eq!(materialize(&applied), materialize(&source_table()));
    }
}

#[test]
fn applying_a_node_transforms_the_table() {
    let select = Node {
        id: "n".to_string(),
        kind: NodeType::Transformation,
        config: Some(NodeConfig::Select { fields: names(&["b"]) }),
    };
    assert_eq!(column_names(&apply_transformation(source_table(), &select).unwrap()), names(&["b"]));
    let filter = Node {
        id: "n".to_string(),
        kind: NodeType::Transformation,
        config: Some(a_filter(FilterGroupOperator::AND, vec![a_rule("b", FilterConfigConditions::LessThan, "y")])),
    };
    assert_eq!(whole_numbers(&apply_transformation(source_table(), &filter).unwrap(), "a"), vec![1]);
}

#[test]
fn applying_an_undefined_node_fails() {
    for config in [NodeConfig::Mapping, NodeConfig::Join, NodeConfig::Sort] {
        let node = Node { id: "n".to_string(), kind: NodeType::Transformation, config: Some(config) };
        match apply_transformation(source_table(), &node) {
            Err(error) => assert_eq!(error, PreviewError::UnknownTransformation),
            Ok(_) => panic!("applied"),
        }
    }
}

#[test]
fn applying_reports_the_engines_error() {
    let missing = Node {
        id: "n".to_string(),
        kind: NodeType::Transformation,
        config: Some(NodeConfig::Select { fields: names(&["nowhere"]) }),
    };
    match apply_transformation(source_table(), &missing) {
        Err(PreviewError::EngineFailure(text)) => assert!(text.contains("nowhere")),
        other => panic!("{:?}", other.map(|_| ())),
    }
}
