use databend_query::planners::plan::{DFExplainType, PlanNode};
use databend_query::planners::plan_explain::ExplainPlan;

#[test]
fn explain_plan_is_cloned_whole() {
    let inner = ExplainPlan { typ: DFExplainType::Graph, plan: Box::new(PlanNode::Empty) };
    let outer = ExplainPlan { typ: DFExplainType::Syntax, plan: Box::new(PlanNode::Explain(inner)) };
    let copy = outer.clone();
    assert_eq!(copy.typ, DFExplainType::Syntax);
    match *copy.plan {
        PlanNode::Explain(explain) => {
            assert_eq!(explain.typ, DFExplainType::Graph);
            assert!(matches!(*explain.plan, PlanNode::Empty));
        }
        PlanNode::Empty => panic!("the inner plan is lost"),
    }
    assert_eq!(outer.typ, DFExplainType::Syntax);
}
