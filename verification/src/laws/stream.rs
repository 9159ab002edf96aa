//! Laws on creating a stream, and on the plan that shows a plan.

use std::sync::Arc;

use vstd::prelude::*;

use crate::exception::ErrorCode;
use crate::interpreters::stream_create::{
    CreateStreamInterpreter, CreateStreamPlan, CreateStreamStep, Feature, PipelineBuildResult,
    QueryContext,
};
use crate::planners::plan_explain::ExplainPlan;

verus! {

/// An interpreter can always be made, of the session and the plan that it is given.
pub proof fn law_interpreter_is_made_of_its_plan(
    ctx: Arc<QueryContext>,
    plan: CreateStreamPlan,
    r: Result<CreateStreamInterpreter, ErrorCode>,
)
    requires
        call_ensures(CreateStreamInterpreter::try_create, (ctx, plan), r),
    ensures
        r matches Ok(i) && i.ctx == ctx && i.plan == plan,
{
}

/// First the license of the session is checked, for streams. Where it is good, the stream of the
/// plan is created in the session. Where that goes well all is done, and there is nothing to be
/// carried out.
pub proof fn law_stream_is_created_after_the_check(
    i: CreateStreamInterpreter,
    first: CreateStreamStep,
    second: Result<CreateStreamStep, ErrorCode>,
    third: Result<CreateStreamStep, ErrorCode>,
)
    requires
        call_ensures(CreateStreamInterpreter::execute2, (&i,), first),
        call_ensures(CreateStreamInterpreter::resume, (&i, &first, Ok(())), second),
        second matches Ok(step) ==> call_ensures(
            CreateStreamInterpreter::resume,
            (&i, &step, Ok(())),
            third,
        ),
    ensures
        first matches CreateStreamStep::CheckEnterpriseEnabled(key, feature) && key@
            == i.ctx.license_key@ && feature == Feature::Stream,
        second matches Ok(CreateStreamStep::DoCreateStream(ctx, plan)) && ctx == i.ctx && *plan
            == i.plan,
        third matches Ok(CreateStreamStep::Done(result)) && result.main_pipeline.pipes@.len() == 0
            && result.sources_pipelines@.len() == 0,
{
}

/// The first error ends the run, at whatever step it comes.
pub proof fn law_first_error_ends_the_run(
    i: CreateStreamInterpreter,
    step: CreateStreamStep,
    e: ErrorCode,
    r: Result<CreateStreamStep, ErrorCode>,
)
    requires
        call_ensures(CreateStreamInterpreter::resume, (&i, &step, Err(e)), r),
    ensures
        r matches Err(f) && f == e,
{
}

/// The name of the interpreter does not depend on its plan.
pub proof fn law_name_is_that_of_the_interpreter(i: CreateStreamInterpreter, r: &str)
    requires
        call_ensures(CreateStreamInterpreter::name, (&i,), r),
    ensures
        r@ == "CreateStreamInterpreter"@,
{
}

/// No pipelines are none at all.
pub proof fn law_no_pipelines(r: PipelineBuildResult)
    requires
        call_ensures(PipelineBuildResult::create, (), r),
    ensures
        r.main_pipeline.pipes@.len() == 0,
        r.sources_pipelines@.len() == 0,
{
}

/// A copy of a plan that shows a plan shows the same.
pub proof fn law_copy_shows_the_same(plan: ExplainPlan, r: ExplainPlan)
    requires
        call_ensures(ExplainPlan::clone, (&plan,), r),
    ensures
        r.typ == plan.typ,
        *r.plan == *plan.plan,
{
}

} // verus!
