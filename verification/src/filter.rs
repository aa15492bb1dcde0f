//! Compilation of a nested filter specification into one predicate.

use datafusion::logical_expr::Expr;
use vstd::prelude::*;
use crate::engine::{
    and_expr, boolean_expr, boolean_literal, both, column, column_expr, either, equal_expr,
    float_expr, float_literal, greater_expr, integer_expr, integer_literal, is_equal, is_greater,
    is_less, is_not_equal, less_expr, not_equal_expr, or_expr, text_expr, text_literal,
};
use crate::literal::{literal_of, parse_literal, Literal, LiteralView};
use crate::model::{
    FilterCondition, FilterConfigConditions, FilterGroup, FilterGroupOperator, FilterRule,
    RuleValue,
};

verus! {

/// A boolean expression over named columns.
#[derive(Debug, PartialEq, Eq)]
pub enum Predicate {
    /// `field <condition> value`
    Compare { field: String, condition: FilterConfigConditions, value: Literal },
    And(Box<Predicate>, Box<Predicate>),
    Or(Box<Predicate>, Box<Predicate>),
}

/// A predicate as a mathematical value.
pub enum PredicateView {
    Compare { field: Seq<char>, condition: FilterConfigConditions, value: LiteralView },
    And(Box<PredicateView>, Box<PredicateView>),
    Or(Box<PredicateView>, Box<PredicateView>),
}

/// The mathematical value of a predicate.
pub open spec fn predicate_view(predicate: Predicate) -> PredicateView
    decreases predicate,
{
    match predicate {
        Predicate::Compare { field, condition, value } => PredicateView::Compare {
            field: field@,
            condition,
            value: value@,
        },
        Predicate::And(left, right) => PredicateView::And(
            Box::new(predicate_view(*left)),
            Box::new(predicate_view(*right)),
        ),
        Predicate::Or(left, right) => PredicateView::Or(
            Box::new(predicate_view(*left)),
            Box::new(predicate_view(*right)),
        ),
    }
}

impl View for Predicate {
    type V = PredicateView;

    open spec fn view(&self) -> PredicateView {
        predicate_view(*self)
    }
}

/// The text that a rule compares against. A value that did not arrive as
/// text reads as the empty text.
pub open spec fn value_text(value: RuleValue) -> Seq<char> {
    match value {
        RuleValue::Text(text) => text@,
        RuleValue::NonText => Seq::empty(),
    }
}

/// The comparison that a rule stands for.
pub open spec fn compiled_rule(rule: FilterRule) -> PredicateView {
    PredicateView::Compare {
        field: rule.field@,
        condition: rule.condition,
        value: literal_of(value_text(rule.value)),
    }
}

/// Two predicates joined by a group's operator.
pub open spec fn joined(
    operator: FilterGroupOperator,
    left: PredicateView,
    right: PredicateView,
) -> PredicateView {
    match operator {
        FilterGroupOperator::AND => PredicateView::And(Box::new(left), Box::new(right)),
        FilterGroupOperator::OR => PredicateView::Or(Box::new(left), Box::new(right)),
    }
}

/// What has been compiled so far, extended by one more condition. A
/// condition without a predicate leaves it as it is, and the first predicate
/// starts it.
pub open spec fn extended(
    operator: FilterGroupOperator,
    so_far: Option<PredicateView>,
    next: Option<PredicateView>,
) -> Option<PredicateView> {
    match (so_far, next) {
        (Some(left), Some(right)) => Some(joined(operator, left, right)),
        (Some(left), None) => Some(left),
        (None, next) => next,
    }
}

/// The predicate of a group: its conditions joined by its operator from left
/// to right, `((c1 op c2) op c3) ..`. A group without conditions has no
/// predicate, and a nested group without a predicate is passed over.
pub open spec fn compiled(group: FilterGroup) -> Option<PredicateView>
    decreases group, group.conditions@.len() + 1,
{
    compiled_first(group, group.conditions@.len())
}

/// The predicate of the first `count` conditions of a group.
pub open spec fn compiled_first(group: FilterGroup, count: nat) -> Option<PredicateView>
    decreases group, count,
{
    if count == 0 || count > group.conditions@.len() {
        None
    } else {
        let next = match group.conditions@[count - 1] {
            FilterCondition::Rule(rule) => Some(compiled_rule(rule)),
            FilterCondition::Group(inner) => compiled(*inner),
        };
        extended(group.operator, compiled_first(group, (count - 1) as nat), next)
    }
}

/// Whether `predicate` is the executable form of `model`.
pub open spec fn stands_for(predicate: Option<Predicate>, model: Option<PredicateView>) -> bool {
    match predicate {
        Some(p) => model == Some(p@),
        None => model is None,
    }
}

/// How many rules a group holds, nested groups included.
pub open spec fn rule_count(group: FilterGroup) -> nat
    decreases group, group.conditions@.len() + 1,
{
    rule_count_first(group, group.conditions@.len())
}

/// How many rules the first `count` conditions of a group hold.
pub open spec fn rule_count_first(group: FilterGroup, count: nat) -> nat
    decreases group, count,
{
    if count == 0 || count > group.conditions@.len() {
        0
    } else {
        let here: nat = match group.conditions@[count - 1] {
            FilterCondition::Rule(_) => 1,
            FilterCondition::Group(inner) => rule_count(*inner),
        };
        rule_count_first(group, (count - 1) as nat) + here
    }
}

/// A group has a predicate exactly when it holds a rule somewhere.
pub proof fn lemma_compiled_needs_rule(group: FilterGroup)
    ensures
        compiled(group) is Some <==> rule_count(group) > 0,
    decreases group, group.conditions@.len() + 1,
{
    lemma_compiled_first_needs_rule(group, group.conditions@.len());
}

proof fn lemma_compiled_first_needs_rule(group: FilterGroup, count: nat)
    ensures
        compiled_first(group, count) is Some <==> rule_count_first(group, count) > 0,
    decreases group, count,
{
    if count > 0 && count <= group.conditions@.len() {
        lemma_compiled_first_needs_rule(group, (count - 1) as nat);
        match group.conditions@[count - 1] {
            FilterCondition::Rule(_) => {},
            FilterCondition::Group(inner) => {
                lemma_compiled_needs_rule(*inner);
            },
        }
    }
}

/// Which comparisons hold: of a column, a comparator and a literal.
pub type Valuation = spec_fn(Seq<char>, FilterConfigConditions, LiteralView) -> bool;

/// Whether a predicate holds under a valuation of its comparisons.
pub open spec fn holds(predicate: PredicateView, atoms: Valuation) -> bool
    decreases predicate,
{
    match predicate {
        PredicateView::Compare { field, condition, value } => atoms(field, condition, value),
        PredicateView::And(left, right) => holds(*left, atoms) && holds(*right, atoms),
        PredicateView::Or(left, right) => holds(*left, atoms) || holds(*right, atoms),
    }
}

/// Whether a group is satisfied under a valuation: an `AND` group where all
/// of its conditions are, an `OR` group where one of them is. A nested group
/// that holds no rule counts for nothing either way.
pub open spec fn satisfied(group: FilterGroup, atoms: Valuation) -> bool
    decreases group, group.conditions@.len() + 1,
{
    match group.operator {
        FilterGroupOperator::AND => all_satisfied(group, group.conditions@.len(), atoms),
        FilterGroupOperator::OR => some_satisfied(group, group.conditions@.len(), atoms),
    }
}

/// Whether a condition holds no rule at all.
pub open spec fn is_silent(condition: FilterCondition) -> bool {
    match condition {
        FilterCondition::Rule(_) => false,
        FilterCondition::Group(inner) => rule_count(*inner) == 0,
    }
}

/// Whether a condition is satisfied under a valuation.
pub open spec fn condition_satisfied(condition: FilterCondition, atoms: Valuation) -> bool
    decreases condition,
{
    match condition {
        FilterCondition::Rule(rule) => atoms(
            rule.field@,
            rule.condition,
            literal_of(value_text(rule.value)),
        ),
        FilterCondition::Group(inner) => satisfied(*inner, atoms),
    }
}

/// Whether each of the first `count` conditions of a group is satisfied or
/// silent.
pub open spec fn all_satisfied(group: FilterGroup, count: nat, atoms: Valuation) -> bool
    decreases group, count,
{
    if count == 0 || count > group.conditions@.len() {
        true
    } else {
        let condition = group.conditions@[count - 1];
        all_satisfied(group, (count - 1) as nat, atoms) && (is_silent(condition)
            || condition_satisfied(condition, atoms))
    }
}

/// Whether one of the first `count` conditions of a group is satisfied and
/// not silent.
pub open spec fn some_satisfied(group: FilterGroup, count: nat, atoms: Valuation) -> bool
    decreases group, count,
{
    if count == 0 || count > group.conditions@.len() {
        false
    } else {
        let condition = group.conditions@[count - 1];
        some_satisfied(group, (count - 1) as nat, atoms) || (!is_silent(condition)
            && condition_satisfied(condition, atoms))
    }
}

/// The predicate of a group is logically equivalent to the group.
///
/// For every group that has a predicate and every valuation of comparisons:
/// the predicate holds exactly when the group is satisfied, that is when all
/// conditions of an `AND` group or one condition of an `OR` group are.
pub proof fn lemma_compiled_is_equivalent(group: FilterGroup, atoms: Valuation)
    requires
        compiled(group) is Some,
    ensures
        holds(compiled(group).unwrap(), atoms) == satisfied(group, atoms),
    decreases group, group.conditions@.len() + 1,
{
    lemma_compiled_first_is_equivalent(group, group.conditions@.len(), atoms);
}

proof fn lemma_compiled_first_is_equivalent(group: FilterGroup, count: nat, atoms: Valuation)
    requires
        count <= group.conditions@.len(),
    ensures
        compiled_first(group, count) matches Some(predicate) ==> holds(predicate, atoms) == (
        match group.operator {
            FilterGroupOperator::AND => all_satisfied(group, count, atoms),
            FilterGroupOperator::OR => some_satisfied(group, count, atoms),
        }),
        compiled_first(group, count) is None ==> all_satisfied(group, count, atoms)
            && !some_satisfied(group, count, atoms),
    decreases group, count,
{
    if count > 0 {
        lemma_compiled_first_is_equivalent(group, (count - 1) as nat, atoms);
        let condition = group.conditions@[count - 1];
        let so_far = compiled_first(group, (count - 1) as nat);
        let next = match condition {
            FilterCondition::Rule(rule) => Some(compiled_rule(rule)),
            FilterCondition::Group(inner) => compiled(*inner),
        };
        match condition {
            FilterCondition::Rule(rule) => {
                assert(holds(compiled_rule(rule), atoms) == condition_satisfied(condition, atoms));
            },
            FilterCondition::Group(inner) => {
                lemma_compiled_needs_rule(*inner);
                if compiled(*inner) is Some {
                    lemma_compiled_is_equivalent(*inner, atoms);
                }
            },
        }
        assert(next is None <==> is_silent(condition));
        assert(next matches Some(predicate) ==> holds(predicate, atoms) == condition_satisfied(
            condition,
            atoms,
        ));
        if let (Some(left), Some(right)) = (so_far, next) {
            lemma_joined_holds(group.operator, left, right, atoms);
        }
    }
}

/// Two predicates joined by `AND` hold where both do, joined by `OR` where
/// one of them does.
proof fn lemma_joined_holds(
    operator: FilterGroupOperator,
    left: PredicateView,
    right: PredicateView,
    atoms: Valuation,
)
    ensures
        holds(joined(operator, left, right), atoms) == match operator {
            FilterGroupOperator::AND => holds(left, atoms) && holds(right, atoms),
            FilterGroupOperator::OR => holds(left, atoms) || holds(right, atoms),
        },
{
}

/// Compiles one rule: the named column compared against the literal that
/// the rule's value text stands for.
fn compile_rule(rule: &FilterRule) -> (predicate: Predicate)
    ensures
        predicate@ == compiled_rule(*rule),
{
    let value = match &rule.value {
        RuleValue::Text(text) => parse_literal(text.as_str()),
        RuleValue::NonText => {
            proof {
                reveal_strlit("");
                assert(""@ =~= Seq::<char>::empty());
            }
            parse_literal("")
        },
    };
    Predicate::Compare { field: rule.field.clone(), condition: rule.condition, value }
}

/// Joins two predicates by a group's operator.
fn join(operator: FilterGroupOperator, left: Predicate, right: Predicate) -> (predicate: Predicate)
    ensures
        predicate@ == joined(operator, left@, right@),
{
    match operator {
        FilterGroupOperator::AND => Predicate::And(Box::new(left), Box::new(right)),
        FilterGroupOperator::OR => Predicate::Or(Box::new(left), Box::new(right)),
    }
}

/// Compiles a filter group into one predicate.
///
/// Returns `None` where the group holds no rule, so that the caller skips
/// filtering instead of applying an expression that is vacuously true or
/// false. Otherwise the conditions are joined from left to right by the
/// group's operator, the first one being the seed; a single condition yields
/// its own predicate unchanged.
pub fn compile_filter(group: &FilterGroup) -> (predicate: Option<Predicate>)
    ensures
        stands_for(predicate, compiled(*group)),
        predicate is Some <==> rule_count(*group) > 0,
        group.conditions@.len() == 0 ==> predicate is None,
    decreases group,
{
    let mut so_far: Option<Predicate> = None;
    let mut i: usize = 0;
    while i < group.conditions.len()
        invariant
            i <= group.conditions@.len(),
            stands_for(so_far, compiled_first(*group, i as nat)),
        decreases group.conditions@.len() - i,
    {
        let next = match &group.conditions[i] {
            FilterCondition::Rule(rule) => Some(compile_rule(rule)),
            FilterCondition::Group(inner) => compile_filter(inner),
        };
        so_far = match (so_far, next) {
            (Some(left), Some(right)) => Some(join(group.operator, left, right)),
            (Some(left), None) => Some(left),
            (None, next) => next,
        };
        i += 1;
    }
    proof {
        lemma_compiled_needs_rule(*group);
    }
    so_far
}

/// The engine's literal for a typed literal: the literal of the integer, of
/// the boolean or of the text, and for a floating-point literal that of the
/// number that its text is written as, or of the text itself where std does
/// not read it as a number.
pub open spec fn literal_expr_of(value: LiteralView) -> Expr {
    match value {
        LiteralView::Int(number) => integer_expr(number),
        LiteralView::Float(text) => match float_expr(text) {
            Some(number) => number,
            None => text_expr(text),
        },
        LiteralView::Bool(flag) => boolean_expr(flag),
        LiteralView::Text(text) => text_expr(text),
    }
}

/// The engine's expression for a predicate: each comparison is the engine's
/// comparison of the named column with the literal, and the comparisons are
/// joined by the engine's `AND` and `OR` as the predicate joins them.
pub open spec fn expr_of(predicate: PredicateView) -> Expr
    decreases predicate,
{
    match predicate {
        PredicateView::Compare { field, condition, value } => {
            let left = column_expr(field);
            let right = literal_expr_of(value);
            match condition {
                FilterConfigConditions::Equals => equal_expr(left, right),
                FilterConfigConditions::NotEquals => not_equal_expr(left, right),
                FilterConfigConditions::GreaterThan => greater_expr(left, right),
                FilterConfigConditions::LessThan => less_expr(left, right),
            }
        },
        PredicateView::And(left, right) => and_expr(expr_of(*left), expr_of(*right)),
        PredicateView::Or(left, right) => or_expr(expr_of(*left), expr_of(*right)),
    }
}

/// The engine's literal for a typed literal. A floating-point literal is the
/// number that its text is written as.
fn literal_expr(value: &Literal) -> (expr: Expr)
    ensures
        expr == literal_expr_of(value@),
{
    match value {
        Literal::Int(number) => integer_literal(*number),
        Literal::Float(text) => match float_literal(text.as_str()) {
            Some(number) => number,
            None => text_literal(text.as_str()),
        },
        Literal::Bool(flag) => boolean_literal(*flag),
        Literal::Text(text) => text_literal(text.as_str()),
    }
}

/// The engine's expression for a predicate: comparisons of columns with
/// literals, joined by `AND` and `OR` as the predicate joins them.
pub(crate) fn to_expr(predicate: &Predicate) -> (expr: Expr)
    ensures
        expr == expr_of(predicate@),
    decreases predicate,
{
    match predicate {
        Predicate::Compare { field, condition, value } => {
            let left = column(field.as_str());
            let right = literal_expr(value);
            match condition {
                FilterConfigConditions::Equals => is_equal(left, right),
                FilterConfigConditions::NotEquals => is_not_equal(left, right),
                FilterConfigConditions::GreaterThan => is_greater(left, right),
                FilterConfigConditions::LessThan => is_less(left, right),
            }
        },
        Predicate::And(left, right) => both(to_expr(left), to_expr(right)),
        Predicate::Or(left, right) => either(to_expr(left), to_expr(right)),
    }
}

/// Builds the engine's filter expression of a group, or `None` where the
/// group holds no rule and no filter is to be applied.
pub fn build_filter_predicate(group: &FilterGroup) -> (expr: Option<Expr>)
    ensures
        expr == match compiled(*group) {
            Some(predicate) => Some(expr_of(predicate)),
            None => None,
        },
        expr is Some <==> rule_count(*group) > 0,
        group.conditions@.len() == 0 ==> expr is None,
{
    match compile_filter(group) {
        Some(predicate) => Some(to_expr(&predicate)),
        None => None,
    }
}

} // verus!
