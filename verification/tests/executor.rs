use pipeline_preview::executor::{EngineReply, EngineRequest, PreviewRun, Stage};
use pipeline_preview::filter::Predicate;
use pipeline_preview::literal::Literal;
use pipeline_preview::model::{
    Edge, FilterCondition, FilterConfigConditions, FilterGroup, FilterGroupOperator, FilterRule,
    Node, NodeConfig, NodeType, PreviewRequest, PreviewResponse, RuleValue, SchemaField,
};
use pipeline_preview::render::{Batch, Column, ColumnData};
use pipeline_preview::transform::{PreviewError, Transformation};

fn step_node(id: &str, kind: NodeType, config: Option<NodeConfig>) -> Node {
    Node { id: id.to_string(), kind, config }
}

fn link(source: &str, target: &str) -> Edge {
    Edge { id: format!("{source}-{target}"), source: source.to_string(), target: target.to_string() }
}

fn schema(names: &[&str]) -> Vec<SchemaField> {
    names.iter().map(|n| SchemaField { name: n.to_string(), data_type: "Utf8".to_string() }).collect()
}

fn age_filter() -> NodeConfig {
    NodeConfig::Filter {
        rules: FilterGroup {
            operator: FilterGroupOperator::AND,
            conditions: vec![FilterCondition::Rule(FilterRule {
                field: "age".to_string(),
                condition: FilterConfigConditions::GreaterThan,
                value: RuleValue::Text("18".to_string()),
            })],
        },
    }
}

fn age_predicate() -> Predicate {
    Predicate::Compare {
        field: "age".to_string(),
        condition: FilterConfigConditions::GreaterThan,
        value: Literal::Int(18),
    }
}

#[test]
fn empty_node_list_collects_at_once() {
    let (run, first) = PreviewRun::begin(PreviewRequest { nodes: vec![], edges: vec![] });
    assert_eq!(first, EngineRequest::Collect);
    assert_eq!(run.stage(), Stage::Collecting);
    assert_eq!(run.order(), &Vec::<String>::new());
    assert_eq!(run.incoming_schema(), &Vec::<SchemaField>::new());
    let source = Batch::new(
        vec![Column { name: "a".to_string(), data: ColumnData::Utf8(vec!["v".to_string()]) }],
        1,
    )
    .unwrap();
    let response = run.finish(&vec![source]);
    assert_eq!(
        response,
        PreviewResponse {
            incoming_schema: vec![],
            schema: schema(&["a"]),
            data: vec![vec!["v".to_string()]],
        }
    );
}

#[test]
fn pipeline_is_walked_in_execution_order() {
    let request = PreviewRequest {
        nodes: vec![
            step_node("out", NodeType::Destination, None),
            step_node("pick", NodeType::Transformation, Some(NodeConfig::Select { fields: vec!["a".to_string(), "b".to_string()] })),
            step_node("keep", NodeType::Transformation, Some(age_filter())),
            step_node("in", NodeType::Source, None),
        ],
        edges: vec![link("in", "keep"), link("keep", "pick"), link("pick", "out")],
    };
    let (run, first) = PreviewRun::begin(request);
    assert_eq!(run.order(), &vec!["in".to_string(), "keep".to_string(), "pick".to_string(), "out".to_string()]);
    assert_eq!(first, EngineRequest::Inspect);

    // source: nothing to apply, so the next node is inspected right away
    let (run, next) = run.step(EngineReply::Inspected(Some(schema(&["a", "b", "age"]))));
    assert_eq!(next, EngineRequest::Inspect);
    assert_eq!(run.incoming_schema(), &schema(&["a", "b", "age"]));

    // filter
    let (run, next) = run.step(EngineReply::Inspected(Some(schema(&["a", "b", "age"]))));
    assert_eq!(next, EngineRequest::Apply(Transformation::Filter(age_predicate())));
    assert_eq!(run.stage(), Stage::Transforming);
    let (run, next) = run.step(EngineReply::Transformed);
    assert_eq!(next, EngineRequest::Inspect);

    // selection of exactly `a` and `b`, in that order
    let (run, next) = run.step(EngineReply::Inspected(Some(schema(&["a", "b", "age"]))));
    assert_eq!(next, EngineRequest::Apply(Transformation::Select(vec!["a".to_string(), "b".to_string()])));
    let (run, next) = run.step(EngineReply::Transformed);
    assert_eq!(next, EngineRequest::Inspect);

    // destination: the schema seen before it is the one that is reported
    let (run, next) = run.step(EngineReply::Inspected(Some(schema(&["a", "b"]))));
    assert_eq!(next, EngineRequest::Collect);
    assert_eq!(run.stage(), Stage::Collecting);
    let batch = Batch::new(
        vec![
            Column { name: "a".to_string(), data: ColumnData::Int64(vec![1, 2]) },
            Column { name: "b".to_string(), data: ColumnData::Utf8(vec!["x".to_string(), "y".to_string()]) },
        ],
        2,
    )
    .unwrap();
    let response = run.finish(&vec![batch]);
    assert_eq!(response.incoming_schema, schema(&["a", "b"]));
    assert_eq!(
        response.schema,
        vec![
            SchemaField { name: "a".to_string(), data_type: "Int64".to_string() },
            SchemaField { name: "b".to_string(), data_type: "Utf8".to_string() },
        ]
    );
    assert_eq!(response.data, vec![vec!["1".to_string(), "x".to_string()], vec!["2".to_string(), "y".to_string()]]);
}

#[test]
fn inspection_without_batches_keeps_the_recorded_schema() {
    let request = PreviewRequest {
        nodes: vec![step_node("a", NodeType::Source, None), step_node("b", NodeType::Destination, None)],
        edges: vec![link("a", "b")],
    };
    let (run, _) = PreviewRun::begin(request);
    let (run, _) = run.step(EngineReply::Inspected(Some(schema(&["x"]))));
    let (run, next) = run.step(EngineReply::Inspected(None));
    assert_eq!(next, EngineRequest::Collect);
    assert_eq!(run.incoming_schema(), &schema(&["x"]));
}

#[test]
fn final_result_without_batches_reports_nothing() {
    let request = PreviewRequest { nodes: vec![step_node("a", NodeType::Source, None)], edges: vec![] };
    let (run, _) = PreviewRun::begin(request);
    let (run, next) = run.step(EngineReply::Inspected(Some(schema(&["x"]))));
    assert_eq!(next, EngineRequest::Collect);
    let response = run.finish(&vec![]);
    assert_eq!(response, PreviewResponse { incoming_schema: vec![], schema: vec![], data: vec![] });
}

#[test]
fn undefined_transformation_aborts_after_its_inspection() {
    for config in [NodeConfig::Mapping, NodeConfig::Join, NodeConfig::Sort] {
        let request = PreviewRequest {
            nodes: vec![step_node("a", NodeType::Source, None), step_node("b", NodeType::Transformation, Some(config))],
            edges: vec![link("a", "b")],
        };
        let (run, first) = PreviewRun::begin(request);
        assert_eq!(first, EngineRequest::Inspect);
        let (run, next) = run.step(EngineReply::Inspected(None));
        assert_eq!(next, EngineRequest::Inspect);
        let (run, next) = run.step(EngineReply::Inspected(Some(schema(&["seen"]))));
        assert_eq!(next, EngineRequest::Abort(PreviewError::UnknownTransformation));
        assert_eq!(run.stage(), Stage::Aborted);
        assert_eq!(run.incoming_schema(), &schema(&["seen"]));
    }
}

#[test]
fn ids_without_a_node_are_skipped() {
    let request = PreviewRequest {
        nodes: vec![step_node("a", NodeType::Source, None), step_node("c", NodeType::Destination, None)],
        edges: vec![link("a", "ghost"), link("a", "c")],
    };
    let (run, first) = PreviewRun::begin(request);
    assert_eq!(run.order(), &vec!["a".to_string(), "ghost".to_string(), "c".to_string()]);
    assert_eq!(first, EngineRequest::Inspect);
    let (run, next) = run.step(EngineReply::Inspected(None));
    assert_eq!(next, EngineRequest::Inspect);
    let (_, next) = run.step(EngineReply::Inspected(None));
    assert_eq!(next, EngineRequest::Collect);
}

#[test]
fn first_node_with_an_id_is_the_one_applied() {
    let request = PreviewRequest {
        nodes: vec![
            step_node("a", NodeType::Transformation, Some(NodeConfig::Select { fields: vec!["first".to_string()] })),
            step_node("a", NodeType::Transformation, Some(NodeConfig::Sort)),
        ],
        edges: vec![],
    };
    let (run, _) = PreviewRun::begin(request);
    assert_eq!(run.order(), &vec!["a".to_string(), "a".to_string()]);
    let (run, next) = run.step(EngineReply::Inspected(None));
    assert_eq!(next, EngineRequest::Apply(Transformation::Select(vec!["first".to_string()])));
    let (run, next) = run.step(EngineReply::Transformed);
    assert_eq!(next, EngineRequest::Inspect);
    let (_, next) = run.step(EngineReply::Inspected(None));
    assert_eq!(next, EngineRequest::Apply(Transformation::Select(vec!["first".to_string()])));
}

#[test]
fn cyclic_pipeline_collects_the_source_unchanged() {
    let request = PreviewRequest {
        nodes: vec![step_node("a", NodeType::Transformation, Some(NodeConfig::Sort)), step_node("b", NodeType::Transformation, None)],
        edges: vec![link("a", "b"), link("b", "a")],
    };
    let (run, first) = PreviewRun::begin(request);
    assert_eq!(run.order(), &Vec::<String>::new());
    assert_eq!(first, EngineRequest::Collect);
}

#[test]
fn reply_out_of_turn_aborts() {
    let request = PreviewRequest { nodes: vec![step_node("a", NodeType::Source, None)], edges: vec![] };
    let (run, first) = PreviewRun::begin(request);
    assert_eq!(first, EngineRequest::Inspect);
    let (run, next) = run.step(EngineReply::Transformed);
    assert_eq!(next, EngineRequest::Abort(PreviewError::OutOfTurn));
    assert_eq!(run.stage(), Stage::Aborted);
    let (_, next) = run.step(EngineReply::Inspected(None));
    assert_eq!(next, EngineRequest::Abort(PreviewError::OutOfTurn));
}

#[test]
fn engine_failure_aborts_and_is_not_retried() {
    let request = PreviewRequest {
        nodes: vec![step_node(
            "pick",
            NodeType::Transformation,
            Some(NodeConfig::Select { fields: vec!["nowhere".to_string()] }),
        )],
        edges: vec![],
    };
    let (run, _) = PreviewRun::begin(request);
    let (run, next) = run.step(EngineReply::Inspected(Some(schema(&["a", "b", "c"]))));
    assert_eq!(next, EngineRequest::Apply(Transformation::Select(vec!["nowhere".to_string()])));
    let (run, next) = run.step(EngineReply::Failed("no field named nowhere".to_string()));
    assert_eq!(
        next,
        EngineRequest::Abort(PreviewError::EngineFailure("no field named nowhere".to_string()))
    );
    assert_eq!(run.stage(), Stage::Aborted);
    let (_, next) = run.step(EngineReply::Transformed);
    assert_eq!(next, EngineRequest::Abort(PreviewError::OutOfTurn));
}

#[test]
fn failed_inspection_aborts() {
    let request = PreviewRequest { nodes: vec![step_node("a", NodeType::Source, None)], edges: vec![] };
    let (run, _) = PreviewRun::begin(request);
    let (_, next) = run.step(EngineReply::Failed("out of memory".to_string()));
    assert_eq!(next, EngineRequest::Abort(PreviewError::EngineFailure("out of memory".to_string())));
}
