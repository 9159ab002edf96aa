use std::sync::Arc;

use databend_query::binder::context::{BindContext, ExprContext};
use databend_query::binder::having::{
    AnalyzeStep, Binder, Expr, HavingStep, RelOperator, SExpr,
};
use databend_query::binder::scalar::{
    find_window_function, split_conjunctions, ScalarExpr, ScalarKind,
};
use databend_query::exception::{ErrorCode, ErrorKind, Range};

fn call(name: &str, arguments: Vec<ScalarExpr>) -> ScalarExpr {
    ScalarExpr { span: None, kind: ScalarKind::FunctionCall(name.to_string()), arguments }
}

fn column(name: &str) -> ScalarExpr {
    ScalarExpr {
        span: None,
        kind: ScalarKind::BoundColumnRef(name.to_string()),
        arguments: vec![],
    }
}

fn and(left: ScalarExpr, right: ScalarExpr) -> ScalarExpr {
    call("and", vec![left, right])
}

fn scan() -> SExpr {
    SExpr { plan: Arc::new(RelOperator::Other("scan".to_string())), children: vec![] }
}

fn names(predicates: &[ScalarExpr]) -> Vec<String> {
    predicates
        .iter()
        .map(|p| match &p.kind {
            ScalarKind::BoundColumnRef(name) => name.clone(),
            ScalarKind::FunctionCall(name) => format!("{}()", name),
            _ => panic!("another expression"),
        })
        .collect()
}

fn filter_of(bound: &SExpr) -> Vec<String> {
    assert_eq!(bound.children.len(), 1);
    assert!(matches!(&*bound.children[0].plan, RelOperator::Other(name) if name == "scan"));
    match &*bound.plan {
        RelOperator::Filter(filter) => names(&filter.predicates),
        RelOperator::Other(_) => panic!("no filter"),
    }
}

#[test]
fn clause_is_split_at_conjunctions() {
    let clause = and(and(column("a"), column("b")), and(column("c"), call("or", vec![])));
    assert_eq!(names(&split_conjunctions(clause)), vec!["a", "b", "c", "or()"]);
    assert_eq!(names(&split_conjunctions(column("a"))), vec!["a"]);
    let under_not = call("not", vec![and(column("a"), column("b"))]);
    assert_eq!(names(&split_conjunctions(under_not)), vec!["not()"]);
}

#[test]
fn ungrouped_having_is_a_selection() {
    let mut ctx = BindContext::new();
    let clause = and(column("a"), column("b"));
    match Binder::bind_having(&mut ctx, clause, None, scan()).unwrap() {
        HavingStep::Bound(bound) => assert_eq!(filter_of(&bound), vec!["a", "b"]),
        HavingStep::CheckGrouping { .. } => panic!("rows are not grouped"),
    }
    assert_eq!(ctx.expr_context, ExprContext::HavingClause);
    assert!(!ctx.in_grouping);
}

#[test]
fn grouped_having_is_checked_first() {
    let mut ctx = BindContext { expr_context: ExprContext::Unknown, in_grouping: true };
    let at = Some(Range { start: 3, end: 9 });
    match Binder::bind_having(&mut ctx, column("a"), at, scan()).unwrap() {
        HavingStep::CheckGrouping { having, span, child } => {
            assert_eq!(names(&[having]), vec!["a"]);
            assert_eq!(span, at);
            let bound = Binder::bind_checked_having(Ok(and(column("x"), column("y"))), child);
            assert_eq!(filter_of(&bound.unwrap()), vec!["x", "y"]);
        }
        HavingStep::Bound(_) => panic!("rows are grouped"),
    }
    assert_eq!(ctx.expr_context, ExprContext::HavingClause);
    let failed = ErrorCode::create(ErrorKind::SemanticError, "not in group by");
    let e = Binder::bind_checked_having(Err(failed), scan()).unwrap_err();
    assert_eq!(e.message, "not in group by");
}

#[test]
fn window_function_in_having_is_an_error() {
    let window = ScalarExpr {
        span: None,
        kind: ScalarKind::WindowFunction("rank".to_string()),
        arguments: vec![],
    };
    let mut clause = call(">", vec![column("a"), call("plus", vec![window])]);
    clause.span = Some(Range { start: 40, end: 51 });
    assert!(find_window_function(&clause));
    let mut ctx = BindContext { expr_context: ExprContext::WhereClause, in_grouping: true };
    let e = Binder::bind_having(&mut ctx, clause, None, scan()).unwrap_err();
    assert_eq!(e.kind, ErrorKind::SemanticError);
    assert_eq!(e.message, "Having clause can't contain window functions");
    assert_eq!(e.span, Some(Range { start: 40, end: 51 }));
    assert_eq!(ctx.expr_context, ExprContext::HavingClause);
}

#[test]
fn predicates_of_a_clause_without_window_function_have_none() {
    let clause = and(column("a"), call("f", vec![column("b")]));
    assert!(!find_window_function(&clause));
    assert!(split_conjunctions(clause).iter().all(|p| !find_window_function(p)));
}

#[test]
fn aggregates_are_rewritten_after_the_clause_was_bound() {
    let mut ctx = BindContext::new();
    let at = Some(Range { start: 7, end: 8 });
    let having = Expr { span: at, node: "sum(x) > y" };
    let aliases = vec![("y".to_string(), column("z"))];
    let step = Binder::analyze_aggregate_having(&mut ctx, &aliases, &having);
    match &step {
        AnalyzeStep::Bind { having, aliases } => {
            assert_eq!(having.node, "sum(x) > y");
            assert_eq!(aliases[0].0, "y");
        }
        _ => panic!("not bound"),
    }
    assert_eq!(ctx.expr_context, ExprContext::HavingClause);
    let step = Binder::resume_analyze_having(step, &having, Ok(column("sum"))).unwrap();
    match &step {
        AnalyzeStep::Rewrite(scalar) => assert!(matches!(
            &scalar.kind,
            ScalarKind::BoundColumnRef(name) if name == "sum"
        )),
        _ => panic!("not rewritten"),
    }
    match Binder::resume_analyze_having(step, &having, Ok(column("agg"))).unwrap() {
        AnalyzeStep::Done(scalar, span) => {
            assert_eq!(names(&[scalar]), vec!["agg"]);
            assert_eq!(span, at);
        }
        _ => panic!("not done"),
    }
    let failed = ErrorCode::create(ErrorKind::SemanticError, "unknown column");
    let step = Binder::analyze_aggregate_having(&mut ctx, &aliases, &having);
    let e = Binder::resume_analyze_having(step, &having, Err(failed)).unwrap_err();
    assert_eq!(e.message, "unknown column");
}
