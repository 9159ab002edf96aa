//! A plan of a query.

use vstd::prelude::*;

use crate::planners::plan_explain::ExplainPlan;

verus! {

/// What is shown of a plan.
#[derive(Clone, Copy, PartialEq, Eq, Debug, Structural)]
pub enum DFExplainType {
    Syntax,
    Graph,
    Pipeline,
}

/// A plan of a query.
#[derive(Debug)]
pub enum PlanNode {
    /// Gives nothing.
    Empty,
    /// Shows a plan.
    Explain(ExplainPlan),
}

impl Clone for PlanNode {
    fn clone(&self) -> (r: Self)
        ensures
            r == *self,
        decreases self,
    {
        match self {
            PlanNode::Empty => PlanNode::Empty,
            PlanNode::Explain(explain) => PlanNode::Explain(explain.clone()),
        }
    }
}

} // verus!
