//! Creating a stream of the changes of a table.

use std::sync::Arc;

use vstd::prelude::*;

use crate::exception::ErrorCode;
use crate::pipeline::pipe::Pipeline;

verus! {

/// What is known of the session that a query runs in.
#[derive(Debug)]
pub struct QueryContext {
    pub license_key: String,
}

/// A plan to create a stream.
#[derive(Debug)]
pub struct CreateStreamPlan {
    pub catalog: String,
    pub database: String,
    pub stream_name: String,
    /// The table whose changes the stream has.
    pub table_database: String,
    pub table_name: String,
}

/// What a license is needed for.
#[derive(Clone, Copy, PartialEq, Eq, Debug, Structural)]
pub enum Feature {
    Stream,
}

/// The pipelines that a plan is carried out by.
pub struct PipelineBuildResult {
    pub main_pipeline: Pipeline,
    /// The pipelines that the main one has rows from.
    pub sources_pipelines: Vec<Pipeline>,
}

impl PipelineBuildResult {
    /// There is nothing to be carried out.
    pub open spec fn is_empty(self) -> bool {
        self.main_pipeline.pipes@.len() == 0 && self.sources_pipelines@.len() == 0
    }

    /// No pipelines.
    pub fn create() -> (r: PipelineBuildResult)
        ensures
            r.is_empty(),
    {
        PipelineBuildResult {
            main_pipeline: Pipeline { pipes: Vec::new() },
            sources_pipelines: Vec::new(),
        }
    }
}

/// Creates a stream.
#[derive(Debug)]
pub struct CreateStreamInterpreter {
    pub ctx: Arc<QueryContext>,
    pub plan: CreateStreamPlan,
}

/// What has to be done next to create a stream.
pub enum CreateStreamStep<'a> {
    /// Make sure that the license of that key is good for the feature.
    CheckEnterpriseEnabled(String, Feature),
    /// Let the stream of that plan be created in that session.
    DoCreateStream(Arc<QueryContext>, &'a CreateStreamPlan),
    /// All is done.
    Done(PipelineBuildResult),
}

/// The text of an interpreter's name.
pub const CREATE_STREAM_NAME: &'static str = "CreateStreamInterpreter";

impl CreateStreamInterpreter {
    /// An interpreter of the plan.
    pub fn try_create(ctx: Arc<QueryContext>, plan: CreateStreamPlan) -> (r: Result<
        CreateStreamInterpreter,
        ErrorCode,
    >)
        ensures
            r == Ok::<CreateStreamInterpreter, ErrorCode>(CreateStreamInterpreter { ctx, plan }),
    {
        Ok(CreateStreamInterpreter { ctx, plan })
    }

    /// The name of the interpreter.
    pub fn name(&self) -> (r: &'static str)
        ensures
            r@ == CREATE_STREAM_NAME@,
    {
        CREATE_STREAM_NAME
    }

    /// The license is checked with the key of the session.
    pub open spec fn is_license_check(self, step: CreateStreamStep) -> bool {
        step matches CreateStreamStep::CheckEnterpriseEnabled(key, feature) && key@
            == self.ctx.license_key@ && feature == Feature::Stream
    }

    /// The second step comes after the first.
    pub open spec fn comes_after(self, step: CreateStreamStep, next: CreateStreamStep) -> bool {
        match step {
            CreateStreamStep::CheckEnterpriseEnabled(..) => next
                == CreateStreamStep::DoCreateStream(self.ctx, &self.plan),
            _ => next matches CreateStreamStep::Done(result) && result.is_empty(),
        }
    }

    /// Begins to create the stream.
    pub fn execute2<'a>(&'a self) -> (r: CreateStreamStep<'a>)
        ensures
            self.is_license_check(r),
    {
        CreateStreamStep::CheckEnterpriseEnabled(self.ctx.license_key.clone(), Feature::Stream)
    }

    /// Goes on with what the step has given.
    pub fn resume<'a>(
        &'a self,
        step: &CreateStreamStep<'a>,
        reply: Result<(), ErrorCode>,
    ) -> (r: Result<CreateStreamStep<'a>, ErrorCode>)
        requires
            !(step is Done),
        ensures
            match reply {
                Ok(_) => r matches Ok(next) && self.comes_after(*step, next),
                Err(e) => r == Err::<CreateStreamStep<'a>, ErrorCode>(e),
            },
    {
        match reply {
            Err(e) => Err(e),
            Ok(_) => match step {
                CreateStreamStep::CheckEnterpriseEnabled(_, _) => Ok(
                    CreateStreamStep::DoCreateStream(self.ctx.clone(), &self.plan),
                ),
                _ => Ok(CreateStreamStep::Done(PipelineBuildResult::create())),
            },
        }
    }
}

/// The steps are those of the interpreter, in order.
pub open spec fn is_run(
    interpreter: CreateStreamInterpreter,
    steps: Seq<CreateStreamStep>,
) -> bool {
    &&& steps.len() > 0
    &&& interpreter.is_license_check(steps[0])
    &&& forall|k: int|
        0 <= k < steps.len() - 1 ==> !(#[trigger] steps[k] is Done)
            && interpreter.comes_after(steps[k], steps[k + 1])
}

/// A stream is created only after the license was checked, it is created once, in the session and by
/// the plan of the interpreter, and a run that ends well ends without pipelines.
pub proof fn law_stream_needs_a_license(
    interpreter: CreateStreamInterpreter,
    steps: Seq<CreateStreamStep>,
)
    requires
        is_run(interpreter, steps),
    ensures
        steps.len() <= 3,
        forall|k: int|
            0 <= k < steps.len() ==> (#[trigger] steps[k] is DoCreateStream <==> k == 1) && (
            steps[k] is CheckEnterpriseEnabled <==> k == 0) && (steps[k] matches
                CreateStreamStep::Done(result) ==> k == 2 && result.is_empty()),
        steps.len() > 1 ==> steps[1] == CreateStreamStep::DoCreateStream(
            interpreter.ctx,
            &interpreter.plan,
        ),
{
    assert(!(steps[0] is Done));
    if steps.len() > 1 {
        assert(interpreter.comes_after(steps[0], steps[1]));
    }
    if steps.len() > 2 {
        assert(!(steps[1] is Done));
        assert(interpreter.comes_after(steps[1], steps[2]));
    }
    if steps.len() > 3 {
        assert(!(steps[2] is Done));
    }
}

} // verus!
