//! A plan to show a plan.

use vstd::prelude::*;

use crate::planners::plan::{DFExplainType, PlanNode};

verus! {

/// A plan to show a plan.
#[derive(Debug)]
pub struct ExplainPlan {
    pub typ: DFExplainType,
    pub plan: Box<PlanNode>,
}

impl Clone for ExplainPlan {
    fn clone(&self) -> (r: Self)
        ensures
            r == *self,
        decreases self,
    {
        let plan: &PlanNode = &self.plan;
        ExplainPlan { typ: self.typ, plan: Box::new(plan.clone()) }
    }
}

} // verus!
