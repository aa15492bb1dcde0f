//! A preview on the engine: a run together with the table that it
//! transforms.
//!
//! Filters and selections are handed to the engine here. What is left to the
//! caller is to materialize the table when the preview asks for it, because
//! that is where the engine suspends: once before each node, for the schema
//! that comes in, and once at the end, for the rows of the result.

use datafusion::dataframe::DataFrame;
use vstd::prelude::*;
use crate::executor::{
    begun, stepped, EngineReply, EngineReplyView, EngineRequest, EngineRequestView, PreviewRun,
    RunView, Stage,
};
use crate::model::{PreviewRequest, PreviewResponse};
use crate::render::{rendered, Batch};
use crate::transform::{message_of, perform, performed};

verus! {

/// A run and its current table. A preview that was given up after the engine
/// failed on its table holds none.
pub struct Preview {
    run: PreviewRun,
    table: Option<DataFrame>,
}

/// A preview as a mathematical value.
pub struct PreviewView {
    pub run: RunView,
    pub table: Option<DataFrame>,
}

impl View for Preview {
    type V = PreviewView;

    closed spec fn view(&self) -> PreviewView {
        PreviewView { run: self.run@, table: self.table }
    }
}

/// What comes of a reply of the engine. The run takes the reply. Where it
/// then wants a transformation applied, the engine is asked at once: the
/// table becomes what the engine makes of it and the run goes on as after a
/// transformation, or the engine fails, the run gives up with the engine's
/// description and the table is gone. Otherwise the table stays as it is.
pub open spec fn resumed(
    before: PreviewView,
    reply: EngineReplyView,
    after: PreviewView,
    asked: EngineRequestView,
) -> bool {
    let (turned, wanted) = stepped(before.run, reply);
    match wanted {
        EngineRequestView::Apply(transformation) => match performed(
            before.table.unwrap(),
            transformation,
        ) {
            Ok(made) => after.table == Some(made) && (after.run, asked) == stepped(
                turned,
                EngineReplyView::Transformed,
            ),
            Err(error) => after.table is None && (after.run, asked) == stepped(
                turned,
                EngineReplyView::Failed(message_of(error)),
            ),
        },
        _ => after.table == before.table && (after.run, asked) == (turned, wanted),
    }
}

impl Preview {
    #[verifier::type_invariant]
    spec fn well_formed(&self) -> bool {
        &&& !(self.run@.stage is Transforming)
        &&& self.run@.stage is Inspecting || self.run@.stage is Collecting ==> self.table is Some
    }

    /// Begins the preview of `request` on the table `source`.
    pub fn begin(request: PreviewRequest, source: DataFrame) -> (started: (Preview, EngineRequest))
        ensures
            (started.0@.run, started.1@) == begun(request),
            started.0@.table == Some(source),
            request.nodes@.len() == 0 ==> started.1 is Collect,
    {
        let (run, asked) = PreviewRun::begin(request);
        (Preview { run, table: Some(source) }, asked)
    }

    /// Takes the engine's reply to an inspection, has the engine apply the
    /// node that is due, and says what to materialize next.
    pub fn resume(self, reply: EngineReply) -> (next: (Preview, EngineRequest))
        ensures
            resumed(self@, reply@, next.0@, next.1@),
            !(next.1 is Apply),
    {
        proof {
            use_type_invariant(&self);
        }
        let Preview { run, table } = self;
        let (run, wanted) = run.step(reply);
        match wanted {
            EngineRequest::Apply(transformation) => {
                match perform(table.unwrap(), &transformation) {
                    Ok(made) => {
                        let (run, asked) = run.step(EngineReply::Transformed);
                        (Preview { run, table: Some(made) }, asked)
                    },
                    Err(error) => {
                        let (run, asked) = run.step(EngineReply::Failed(error.message()));
                        (Preview { run, table: None }, asked)
                    },
                }
            },
            asked => (Preview { run, table }, asked),
        }
    }

    /// The table as it stands, to be materialized when the preview asks for
    /// an inspection or for the final rows.
    pub fn table(&self) -> (table: Option<&DataFrame>)
        ensures
            table == match self@.table {
                Some(held) => Some(&held),
                None => None,
            },
            self@.run.stage is Inspecting || self@.run.stage is Collecting ==> table is Some,
    {
        proof {
            use_type_invariant(self);
        }
        self.table.as_ref()
    }

    /// What the preview waits for.
    pub fn stage(&self) -> (stage: Stage)
        ensures
            stage == self@.run.stage,
    {
        self.run.stage()
    }

    /// Builds the response from the batches of the final table. Only a
    /// preview that has applied every node and waits for the final batches
    /// has a response: one that was given up has none.
    pub fn finish(self, batches: &Vec<Batch>) -> (response: PreviewResponse)
        requires
            self@.run.stage is Collecting,
        ensures
            response@ == rendered(self@.run.incoming_schema, batches@),
    {
        self.run.finish(batches)
    }
}

} // verus!
