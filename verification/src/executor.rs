//! The node-by-node protocol of a preview.
//!
//! A run holds no table. It says what is to be asked of the engine next and
//! takes what the engine did as a reply. The run visits the nodes in
//! execution order. Before a node is applied, the table is inspected and the
//! schema of its first batch replaces the incoming schema recorded so far,
//! so the schema seen before the last node is the one that is reported.

use vstd::prelude::*;
use crate::model::{
    schema_view, texts, Node, PreviewRequest, PreviewResponse, SchemaField, SchemaFieldView,
};
use crate::order_laws::lemma_no_nodes_no_order;
use crate::planner::{kahn_order, topological_sort};
use crate::render::{render_response, rendered, Batch};
use crate::transform::{
    plan_transformation, planned, PreviewError, PreviewErrorView, Transformation,
    TransformationView,
};

verus! {

/// What the caller is to ask of the engine next.
#[derive(Debug, PartialEq, Eq)]
pub enum EngineRequest {
    /// Materialize the current table and report the schema of its first
    /// batch, or `None` where it has no batch.
    Inspect,
    /// Replace the current table by what the engine makes of it under the
    /// transformation, which is a filter or a selection.
    Apply(Transformation),
    /// Materialize the current table for the response: every node is done.
    Collect,
    /// Give up the preview.
    Abort(PreviewError),
}

/// A request to the engine as a mathematical value.
pub enum EngineRequestView {
    Inspect,
    Apply(TransformationView),
    Collect,
    Abort(PreviewErrorView),
}

impl View for EngineRequest {
    type V = EngineRequestView;

    open spec fn view(&self) -> EngineRequestView {
        match self {
            EngineRequest::Inspect => EngineRequestView::Inspect,
            EngineRequest::Apply(transformation) => EngineRequestView::Apply(transformation@),
            EngineRequest::Collect => EngineRequestView::Collect,
            EngineRequest::Abort(error) => EngineRequestView::Abort(error@),
        }
    }
}

/// What the engine did.
#[derive(Debug, PartialEq, Eq)]
pub enum EngineReply {
    /// The table was inspected; the schema of its first batch, if it has one.
    Inspected(Option<Vec<SchemaField>>),
    /// The table was filtered or projected as asked.
    Transformed,
    /// The engine could not do what it was asked for; the text is its own
    /// description of its error.
    Failed(String),
}

/// A reply of the engine as a mathematical value.
pub enum EngineReplyView {
    Inspected(Option<Seq<SchemaFieldView>>),
    Transformed,
    Failed(Seq<char>),
}

impl View for EngineReply {
    type V = EngineReplyView;

    open spec fn view(&self) -> EngineReplyView {
        match self {
            EngineReply::Inspected(Some(fields)) => EngineReplyView::Inspected(
                Some(schema_view(fields@)),
            ),
            EngineReply::Inspected(None) => EngineReplyView::Inspected(None),
            EngineReply::Transformed => EngineReplyView::Transformed,
            EngineReply::Failed(text) => EngineReplyView::Failed(text@),
        }
    }
}

/// What a run waits for.
#[derive(Clone, Copy, Debug, PartialEq, Eq, Structural)]
pub enum Stage {
    /// The schema of the table before the node at the cursor.
    Inspecting,
    /// The outcome of the transformation of the node at the cursor.
    Transforming,
    /// Nothing more from the engine but the final batches.
    Collecting,
    /// Nothing: the preview was given up.
    Aborted,
}

/// The position of the first node with the given id at or after `from`.
pub open spec fn find_node_from(nodes: Seq<Node>, id: Seq<char>, from: int) -> Option<int>
    decreases nodes.len() - from,
{
    if from < 0 || from >= nodes.len() {
        None
    } else if nodes[from].id@ == id {
        Some(from)
    } else {
        find_node_from(nodes, id, from + 1)
    }
}

/// The position of the first node with the given id.
pub open spec fn find_node(nodes: Seq<Node>, id: Seq<char>) -> Option<int> {
    find_node_from(nodes, id, 0)
}

/// The first place of `order` at or after `from` whose id names a node, or
/// the length of `order` where there is none. Ids without a node are skipped.
pub open spec fn next_visit(nodes: Seq<Node>, order: Seq<Seq<char>>, from: nat) -> nat
    decreases order.len() - from,
{
    if from >= order.len() {
        order.len()
    } else if find_node(nodes, order[from as int]) is Some {
        from
    } else {
        next_visit(nodes, order, from + 1)
    }
}

/// A run as a mathematical value.
pub struct RunView {
    pub nodes: Seq<Node>,
    pub order: Seq<Seq<char>>,
    pub cursor: nat,
    pub incoming_schema: Seq<SchemaFieldView>,
    pub stage: Stage,
}

/// The run as it turns to the next node at or after `from`: it asks for an
/// inspection before that node, or for the final batches where no node is
/// left.
pub open spec fn visit(run: RunView, from: nat) -> (RunView, EngineRequestView) {
    let cursor = next_visit(run.nodes, run.order, from);
    if cursor < run.order.len() {
        (RunView { cursor, stage: Stage::Inspecting, ..run }, EngineRequestView::Inspect)
    } else {
        (RunView { cursor, stage: Stage::Collecting, ..run }, EngineRequestView::Collect)
    }
}

/// The run as it begins.
pub open spec fn begun(request: PreviewRequest) -> (RunView, EngineRequestView) {
    visit(
        RunView {
            nodes: request.nodes@,
            order: kahn_order(request.node_ids(), request.links()),
            cursor: 0,
            incoming_schema: Seq::empty(),
            stage: Stage::Collecting,
        },
        0,
    )
}

/// The run after a reply of the engine, and what it asks for next.
///
/// After an inspection the schema that was seen, if any, becomes the
/// incoming schema. Then the node at the cursor decides: an undefined
/// transformation gives the preview up, a filter or a selection is handed to
/// the engine, and a node that keeps the table lets the run turn to the
/// next node. After a transformation the run turns to the next node. A
/// failure of the engine gives the preview up and is not tried again, and so
/// does a reply that the run does not wait for.
pub open spec fn stepped(run: RunView, reply: EngineReplyView) -> (RunView, EngineRequestView) {
    match (run.stage, reply) {
        (Stage::Inspecting, EngineReplyView::Inspected(schema)) => {
            let seen = RunView {
                incoming_schema: match schema {
                    Some(fields) => fields,
                    None => run.incoming_schema,
                },
                ..run
            };
            let node = run.nodes[find_node(run.nodes, run.order[run.cursor as int]).unwrap()];
            match planned(node) {
                Err(error) => (
                    RunView { stage: Stage::Aborted, ..seen },
                    EngineRequestView::Abort(error),
                ),
                Ok(TransformationView::Keep) => visit(seen, run.cursor + 1),
                Ok(transformation) => (
                    RunView { stage: Stage::Transforming, ..seen },
                    EngineRequestView::Apply(transformation),
                ),
            }
        },
        (Stage::Transforming, EngineReplyView::Transformed) => visit(run, run.cursor + 1),
        (_, EngineReplyView::Failed(text)) => (
            RunView { stage: Stage::Aborted, ..run },
            EngineRequestView::Abort(PreviewErrorView::EngineFailure(text)),
        ),
        _ => (
            RunView { stage: Stage::Aborted, ..run },
            EngineRequestView::Abort(PreviewErrorView::OutOfTurn),
        ),
    }
}

/// Finds the first node with the given id.
fn locate(nodes: &Vec<Node>, id: &String) -> (found: Option<usize>)
    ensures
        match found {
            Some(at) => find_node(nodes@, id@) == Some(at as int) && at < nodes@.len(),
            None => find_node(nodes@, id@) is None,
        },
{
    let mut at: usize = 0;
    while at < nodes.len()
        invariant
            at <= nodes.len(),
            find_node(nodes@, id@) == find_node_from(nodes@, id@, at as int),
        decreases nodes.len() - at,
    {
        if nodes[at].id == *id {
            return Some(at);
        }
        at += 1;
    }
    None
}

/// One preview in progress.
pub struct PreviewRun {
    request: PreviewRequest,
    order: Vec<String>,
    cursor: usize,
    incoming_schema: Vec<SchemaField>,
    stage: Stage,
}

impl View for PreviewRun {
    type V = RunView;

    closed spec fn view(&self) -> RunView {
        RunView {
            nodes: self.request.nodes@,
            order: texts(self.order@),
            cursor: self.cursor as nat,
            incoming_schema: schema_view(self.incoming_schema@),
            stage: self.stage,
        }
    }
}

impl PreviewRun {
    #[verifier::type_invariant]
    spec fn well_formed(&self) -> bool {
        &&& self.cursor <= self.order@.len()
        &&& self.stage is Inspecting || self.stage is Transforming ==> self.cursor
            < self.order@.len() && find_node(self.request.nodes@, self.order@[self.cursor as int]@)
            is Some
    }

    /// Turns to the next node at or after `from`.
    fn turn_to(
        request: PreviewRequest,
        order: Vec<String>,
        from: usize,
        incoming_schema: Vec<SchemaField>,
    ) -> (next: (PreviewRun, EngineRequest))
        requires
            from <= order@.len(),
        ensures
            (next.0@, next.1@) == visit(
                RunView {
                    nodes: request.nodes@,
                    order: texts(order@),
                    cursor: from as nat,
                    incoming_schema: schema_view(incoming_schema@),
                    stage: Stage::Collecting,
                },
                from as nat,
            ),
    {
        let mut cursor = from;
        while cursor < order.len()
            invariant
                from <= cursor <= order@.len(),
                next_visit(request.nodes@, texts(order@), from as nat) == next_visit(
                    request.nodes@,
                    texts(order@),
                    cursor as nat,
                ),
            decreases order@.len() - cursor,
        {
            match locate(&request.nodes, &order[cursor]) {
                Some(_) => {
                    let run = PreviewRun {
                        request,
                        order,
                        cursor,
                        incoming_schema,
                        stage: Stage::Inspecting,
                    };
                    return (run, EngineRequest::Inspect);
                },
                None => {},
            }
            cursor += 1;
        }
        let run = PreviewRun { request, order, cursor, incoming_schema, stage: Stage::Collecting };
        (run, EngineRequest::Collect)
    }

    /// Begins the preview of `request`: plans the execution order and asks
    /// for the first inspection, or for the final batches where the order
    /// names no node.
    pub fn begin(request: PreviewRequest) -> (started: (PreviewRun, EngineRequest))
        ensures
            (started.0@, started.1@) == begun(request),
            request.nodes@.len() == 0 ==> started.1 is Collect && started.0@.order.len() == 0
                && started.0@.incoming_schema.len() == 0,
    {
        let order = topological_sort(&request);
        proof {
            if request.nodes@.len() == 0 {
                lemma_no_nodes_no_order(request.node_ids(), request.links());
            }
        }
        let incoming_schema: Vec<SchemaField> = Vec::new();
        assert(schema_view(incoming_schema@) =~= Seq::empty());
        PreviewRun::turn_to(request, order, 0, incoming_schema)
    }

    /// Takes the engine's reply and says what to ask of it next.
    pub fn step(self, reply: EngineReply) -> (next: (PreviewRun, EngineRequest))
        ensures
            (next.0@, next.1@) == stepped(self@, reply@),
    {
        proof {
            use_type_invariant(&self);
        }
        let PreviewRun { request, order, cursor, incoming_schema, stage } = self;
        let places = order.len();
        match (stage, reply) {
            (Stage::Inspecting, EngineReply::Inspected(schema)) => {
                let seen = match schema {
                    Some(fields) => fields,
                    None => incoming_schema,
                };
                let at = locate(&request.nodes, &order[cursor]).unwrap();
                match plan_transformation(&request.nodes[at]) {
                    Err(error) => {
                        let run = PreviewRun {
                            request,
                            order,
                            cursor,
                            incoming_schema: seen,
                            stage: Stage::Aborted,
                        };
                        (run, EngineRequest::Abort(error))
                    },
                    Ok(Transformation::Keep) => PreviewRun::turn_to(
                        request,
                        order,
                        cursor + 1,
                        seen,
                    ),
                    Ok(transformation) => {
                        let run = PreviewRun {
                            request,
                            order,
                            cursor,
                            incoming_schema: seen,
                            stage: Stage::Transforming,
                        };
                        (run, EngineRequest::Apply(transformation))
                    },
                }
            },
            (Stage::Transforming, EngineReply::Transformed) => PreviewRun::turn_to(
                request,
                order,
                cursor + 1,
                incoming_schema,
            ),
            (_, reply) => {
                let error = match reply {
                    EngineReply::Failed(text) => PreviewError::EngineFailure(text),
                    _ => PreviewError::OutOfTurn,
                };
                let run = PreviewRun {
                    request,
                    order,
                    cursor,
                    incoming_schema,
                    stage: Stage::Aborted,
                };
                (run, EngineRequest::Abort(error))
            },
        }
    }

    /// Builds the response from the batches of the final table. Only a run
    /// that has visited every node and waits for the final batches has a
    /// response: one that gave up has none.
    pub fn finish(self, batches: &Vec<Batch>) -> (response: PreviewResponse)
        requires
            self@.stage is Collecting,
        ensures
            response@ == rendered(self@.incoming_schema, batches@),
    {
        render_response(self.incoming_schema, batches)
    }

    /// What the run waits for.
    pub fn stage(&self) -> (stage: Stage)
        ensures
            stage == self@.stage,
    {
        self.stage
    }

    /// The execution order of the run.
    pub fn order(&self) -> (order: &Vec<String>)
        ensures
            texts(order@) == self@.order,
    {
        &self.order
    }

    /// The incoming schema recorded so far.
    pub fn incoming_schema(&self) -> (fields: &Vec<SchemaField>)
        ensures
            schema_view(fields@) == self@.incoming_schema,
    {
        &self.incoming_schema
    }
}

} // verus!
