use pipeline_preview::filter::Predicate;
use pipeline_preview::literal::Literal;
use pipeline_preview::model::{
    FilterCondition, FilterConfigConditions, FilterGroup, FilterGroupOperator, FilterRule, Node,
    NodeConfig, NodeType, RuleValue,
};
use pipeline_preview::transform::{plan_transformation, PreviewError, Transformation};

fn configured(config: Option<NodeConfig>) -> Node {
    Node { id: "n".to_string(), kind: NodeType::Transformation, config }
}

#[test]
fn node_without_configuration_keeps_the_table() {
    assert_eq!(plan_transformation(&configured(None)), Ok(Transformation::Keep));
}

#[test]
fn aggregate_keeps_the_table() {
    assert_eq!(plan_transformation(&configured(Some(NodeConfig::Aggregate))), Ok(Transformation::Keep));
}

#[test]
fn filter_without_conditions_keeps_the_table() {
    let rules = FilterGroup { operator: FilterGroupOperator::AND, conditions: vec![] };
    let got = plan_transformation(&configured(Some(NodeConfig::Filter { rules })));
    assert_eq!(got, Ok(Transformation::Keep));
}

#[test]
fn filter_with_a_rule_asks_for_its_predicate() {
    let rules = FilterGroup {
        operator: FilterGroupOperator::AND,
        conditions: vec![FilterCondition::Rule(FilterRule {
            field: "age".to_string(),
            condition: FilterConfigConditions::LessThan,
            value: RuleValue::Text("30".to_string()),
        })],
    };
    let got = plan_transformation(&configured(Some(NodeConfig::Filter { rules })));
    let expected = Predicate::Compare {
        field: "age".to_string(),
        condition: FilterConfigConditions::LessThan,
        value: Literal::Int(30),
    };
    assert_eq!(got, Ok(Transformation::Filter(expected)));
}

#[test]
fn select_names_its_columns_in_order() {
    let fields = vec!["b".to_string(), "a".to_string(), "b".to_string()];
    let got = plan_transformation(&configured(Some(NodeConfig::Select { fields: fields.clone() })));
    assert_eq!(got, Ok(Transformation::Select(fields)));
}

#[test]
fn select_of_nothing_is_still_a_selection() {
    let got = plan_transformation(&configured(Some(NodeConfig::Select { fields: vec![] })));
    assert_eq!(got, Ok(Transformation::Select(vec![])));
}

#[test]
fn undefined_transformations_fail() {
    for config in [NodeConfig::Mapping, NodeConfig::Join, NodeConfig::Sort] {
        assert_eq!(
            plan_transformation(&configured(Some(config))),
            Err(PreviewError::UnknownTransformation)
        );
    }
}

#[test]
fn preview_errors_have_messages() {
    assert_eq!(PreviewError::UnknownTransformation.message(), "Unknown transformation type");
    assert_eq!(PreviewError::EngineFailure("no such column".to_string()).message(), "no such column");
    assert_eq!(PreviewError::OutOfTurn.message(), "Engine reply out of turn");
}
