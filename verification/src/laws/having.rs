//! Laws on the binding of the having clause.

use std::sync::Arc;

use vstd::prelude::*;

use crate::binder::context::{BindContext, ExprContext};
use crate::binder::having::{AnalyzeStep, Binder, Expr, HavingStep, RelOperator, SExpr};
use crate::binder::scalar::{
    all_conjuncts, any_calls_window, calls_window, conjuncts, find_window_function,
    split_conjunctions, ScalarExpr, ScalarKind,
};
use crate::exception::{ErrorCode, ErrorKind, Span};

verus! {

/// The expression calls the function of that name.
pub open spec fn is_call(scalar: ScalarExpr, function: Seq<char>) -> bool {
    scalar.kind matches ScalarKind::FunctionCall(name) && name@ == function
}

/// Whether an expression holds for a row: a call of `and` where all its arguments do, a call of
/// `or` where one of them does, and any other expression as it is told.
pub open spec fn is_true(scalar: ScalarExpr, told: spec_fn(ScalarExpr) -> bool) -> bool
    decreases scalar, 0int,
{
    if is_call(scalar, "and"@) {
        all_true(scalar.arguments@, scalar.arguments@.len() as int, told)
    } else if is_call(scalar, "or"@) {
        some_true(scalar.arguments@, scalar.arguments@.len() as int, told)
    } else {
        told(scalar)
    }
}

/// The first `k` expressions all hold.
pub open spec fn all_true(
    scalars: Seq<ScalarExpr>,
    k: int,
    told: spec_fn(ScalarExpr) -> bool,
) -> bool
    decreases scalars, k,
{
    if k <= 0 || k > scalars.len() {
        true
    } else {
        all_true(scalars, k - 1, told) && is_true(scalars[k - 1], told)
    }
}

/// One of the first `k` expressions holds.
pub open spec fn some_true(
    scalars: Seq<ScalarExpr>,
    k: int,
    told: spec_fn(ScalarExpr) -> bool,
) -> bool
    decreases scalars, k,
{
    if k <= 0 || k > scalars.len() {
        false
    } else {
        some_true(scalars, k - 1, told) || is_true(scalars[k - 1], told)
    }
}

/// All expressions of the list hold.
pub open spec fn each_true(scalars: Seq<ScalarExpr>, told: spec_fn(ScalarExpr) -> bool) -> bool {
    forall|k: int| 0 <= k < scalars.len() ==> is_true(#[trigger] scalars[k], told)
}

proof fn lemma_all_parts_are_true(
    scalars: Seq<ScalarExpr>,
    k: int,
    told: spec_fn(ScalarExpr) -> bool,
)
    ensures
        all_true(scalars, k, told) <==> each_true(all_conjuncts(scalars, k), told),
    decreases scalars, k,
{
    if 0 < k <= scalars.len() {
        let front = all_conjuncts(scalars, k - 1);
        let back = conjuncts(scalars[k - 1]);
        let all = all_conjuncts(scalars, k);
        lemma_all_parts_are_true(scalars, k - 1, told);
        lemma_parts_are_true(scalars[k - 1], told);
        assert(all == front + back);
        if each_true(all, told) {
            assert forall|j: int| 0 <= j < front.len() implies is_true(#[trigger] front[j], told) by {
                assert(all[j] == front[j]);
            }
            assert forall|j: int| 0 <= j < back.len() implies is_true(#[trigger] back[j], told) by {
                assert(all[front.len() + j] == back[j]);
            }
        }
        if each_true(front, told) && each_true(back, told) {
            assert forall|j: int| 0 <= j < all.len() implies is_true(#[trigger] all[j], told) by {
                if j < front.len() {
                    assert(all[j] == front[j]);
                } else {
                    assert(all[j] == back[j - front.len()]);
                }
            }
        }
    }
}

proof fn lemma_parts_are_true(scalar: ScalarExpr, told: spec_fn(ScalarExpr) -> bool)
    ensures
        is_true(scalar, told) <==> each_true(conjuncts(scalar), told),
    decreases scalar, 0int,
{
    if is_call(scalar, "and"@) {
        let scalars = scalar.arguments@;
        let k = scalars.len() as int;
        lemma_all_parts_are_true(scalars, k, told);
        assert(conjuncts(scalar) == all_conjuncts(scalars, k));
        assert(is_true(scalar, told) == all_true(scalars, k, told));
    } else {
        assert(conjuncts(scalar) =~= seq![scalar]);
        if each_true(conjuncts(scalar), told) {
            assert(is_true(conjuncts(scalar)[0], told));
        }
    }
}

/// What an expression is split into holds, all of it, exactly where the expression does.
pub proof fn law_parts_hold_where_the_whole_does(
    scalar: ScalarExpr,
    r: Vec<ScalarExpr>,
    told: spec_fn(ScalarExpr) -> bool,
)
    requires
        call_ensures(split_conjunctions, (scalar,), r),
    ensures
        is_true(scalar, told) <==> each_true(r@, told),
{
    lemma_parts_are_true(scalar, told);
}

/// An expression that is no call of `and` is one part, itself, whatever it calls.
pub proof fn law_other_calls_are_not_split(scalar: ScalarExpr, r: Vec<ScalarExpr>)
    requires
        call_ensures(split_conjunctions, (scalar,), r),
        !is_call(scalar, "and"@),
    ensures
        r@ == seq![scalar],
{
}

/// A call of `and` without arguments has no parts.
pub proof fn law_empty_conjunction_has_no_parts(scalar: ScalarExpr, r: Vec<ScalarExpr>)
    requires
        call_ensures(split_conjunctions, (scalar,), r),
        is_call(scalar, "and"@),
        scalar.arguments@.len() == 0,
    ensures
        r@.len() == 0,
{
}

proof fn lemma_longer_list(scalars: Seq<ScalarExpr>, last: ScalarExpr, k: int)
    requires
        0 <= k <= scalars.len(),
    ensures
        all_conjuncts(scalars.push(last), k) == all_conjuncts(scalars, k),
    decreases k,
{
    if k > 0 {
        lemma_longer_list(scalars, last, k - 1);
        assert(scalars.push(last)[k - 1] == scalars[k - 1]);
    }
}

/// The parts of a call of `and` are those of its arguments, one argument after the other: one
/// argument more adds its parts at the end.
pub proof fn law_arguments_are_split_in_turn(
    scalar: ScalarExpr,
    front: ScalarExpr,
    last: ScalarExpr,
    r: Vec<ScalarExpr>,
    r_front: Vec<ScalarExpr>,
    r_last: Vec<ScalarExpr>,
)
    requires
        is_call(scalar, "and"@),
        is_call(front, "and"@),
        scalar.arguments@ == front.arguments@.push(last),
        call_ensures(split_conjunctions, (scalar,), r),
        call_ensures(split_conjunctions, (front,), r_front),
        call_ensures(split_conjunctions, (last,), r_last),
    ensures
        r@ == r_front@ + r_last@,
{
    let n = front.arguments@.len() as int;
    lemma_longer_list(front.arguments@, last, n);
    assert(scalar.arguments@[n] == last);
    assert(conjuncts(scalar) == all_conjuncts(scalar.arguments@, n + 1));
    assert(conjuncts(front) == all_conjuncts(front.arguments@, n));
}

/// The expression that one comes to by going, from argument to argument, where the path says.
pub open spec fn at_path(scalar: ScalarExpr, path: Seq<int>) -> Option<ScalarExpr>
    decreases path.len(),
{
    if path.len() == 0 {
        Some(scalar)
    } else if 0 <= path[0] < scalar.arguments@.len() {
        at_path(scalar.arguments@[path[0]], path.drop_first())
    } else {
        None
    }
}

/// A window function is called at the end of the path.
pub open spec fn is_window_at(scalar: ScalarExpr, path: Seq<int>) -> bool {
    at_path(scalar, path) matches Some(found) && found.kind is WindowFunction
}

proof fn lemma_any_window(scalars: Seq<ScalarExpr>, k: int)
    ensures
        any_calls_window(scalars, k) && k <= scalars.len() ==> exists|j: int|
            0 <= j < k && calls_window(#[trigger] scalars[j]),
        k <= scalars.len() ==> forall|j: int|
            0 <= j < k && calls_window(#[trigger] scalars[j]) ==> any_calls_window(scalars, k),
    decreases k,
{
    if 0 < k <= scalars.len() {
        lemma_any_window(scalars, k - 1);
    }
}

proof fn lemma_window_has_a_path(scalar: ScalarExpr) -> (path: Seq<int>)
    requires
        calls_window(scalar),
    ensures
        is_window_at(scalar, path),
    decreases scalar,
{
    if scalar.kind is WindowFunction {
        Seq::empty()
    } else {
        let scalars = scalar.arguments@;
        lemma_any_window(scalars, scalars.len() as int);
        let j = choose|j: int| 0 <= j < scalars.len() && calls_window(#[trigger] scalars[j]);
        let rest = lemma_window_has_a_path(scalars[j]);
        let path = seq![j] + rest;
        assert(path.drop_first() =~= rest);
        path
    }
}

proof fn lemma_path_leads_to_a_window(scalar: ScalarExpr, path: Seq<int>)
    requires
        is_window_at(scalar, path),
    ensures
        calls_window(scalar),
    decreases path.len(),
{
    if path.len() > 0 {
        let scalars = scalar.arguments@;
        lemma_path_leads_to_a_window(scalars[path[0]], path.drop_first());
        lemma_any_window(scalars, scalars.len() as int);
    }
}

/// A window function is found exactly where there is a call of one, however deep.
pub proof fn law_window_functions_are_found(scalar: ScalarExpr, r: bool)
    requires
        call_ensures(find_window_function, (&scalar,), r),
    ensures
        r <==> exists|path: Seq<int>| is_window_at(scalar, path),
{
    if calls_window(scalar) {
        let path = lemma_window_has_a_path(scalar);
    }
    if exists|path: Seq<int>| is_window_at(scalar, path) {
        let path = choose|path: Seq<int>| is_window_at(scalar, path);
        lemma_path_leads_to_a_window(scalar, path);
    }
}

/// The expression filters the rows of `child`, and of nothing else, by those predicates.
pub open spec fn is_filter_over(
    bound: SExpr,
    child: SExpr,
    predicates: Seq<ScalarExpr>,
) -> bool {
    &&& bound.children@.len() == 1
    &&& *bound.children@[0] == child
    &&& *bound.plan matches RelOperator::Filter(filter) && filter.predicates@ == predicates
}

/// A having clause with a window function in it, however deep, is refused, with an error that says
/// so and points at the clause.
pub proof fn law_window_functions_are_refused(
    bind_context: &mut BindContext,
    having: ScalarExpr,
    span: Span,
    child: SExpr,
    r: Result<HavingStep, ErrorCode>,
    path: Seq<int>,
)
    requires
        call_ensures(Binder::bind_having, (bind_context, having, span, child), r),
        is_window_at(having, path),
    ensures
        r matches Err(e) && e.kind == ErrorKind::SemanticError && e.message@
            == "Having clause can't contain window functions"@ && e.span == having.span,
{
    lemma_path_leads_to_a_window(having, path);
}

/// A having clause without a window function is not refused. Where rows are grouped it is handed on
/// to be checked, as it is, and where not it is a filter over `child`.
pub proof fn law_other_clauses_are_bound(
    bind_context: &mut BindContext,
    having: ScalarExpr,
    span: Span,
    child: SExpr,
    r: Result<HavingStep, ErrorCode>,
    parts: Vec<ScalarExpr>,
)
    requires
        call_ensures(Binder::bind_having, (bind_context, having, span, child), r),
        call_ensures(split_conjunctions, (having,), parts),
        forall|path: Seq<int>| !is_window_at(having, path),
    ensures
        old(bind_context).in_grouping ==> r == Ok::<HavingStep, ErrorCode>(
            HavingStep::CheckGrouping { having, span, child },
        ),
        !old(bind_context).in_grouping ==> (r matches Ok(HavingStep::Bound(bound))
            && is_filter_over(bound, child, parts@)),
{
    if calls_window(having) {
        let path = lemma_window_has_a_path(having);
    }
}

/// Where rows are not grouped, the filter lets through the rows for which the clause holds, and no
/// others.
pub proof fn law_filter_lets_through_what_the_clause_does(
    bind_context: &mut BindContext,
    having: ScalarExpr,
    span: Span,
    child: SExpr,
    r: Result<HavingStep, ErrorCode>,
    told: spec_fn(ScalarExpr) -> bool,
)
    requires
        call_ensures(Binder::bind_having, (bind_context, having, span, child), r),
        !old(bind_context).in_grouping,
        forall|path: Seq<int>| !is_window_at(having, path),
    ensures
        r matches Ok(HavingStep::Bound(bound)) && bound.children@.len() == 1
            && *bound.children@[0] == child && (*bound.plan matches RelOperator::Filter(filter) && (
        is_true(having, told) <==> each_true(filter.predicates@, told))),
{
    if calls_window(having) {
        let path = lemma_window_has_a_path(having);
    }
    lemma_parts_are_true(having, told);
}

/// Binding a having clause goes to the having clause, whatever comes of it, and leaves all else
/// that is known as it was.
pub proof fn law_binding_goes_to_the_having_clause(
    bind_context: &mut BindContext,
    having: ScalarExpr,
    span: Span,
    child: SExpr,
    r: Result<HavingStep, ErrorCode>,
)
    requires
        call_ensures(Binder::bind_having, (bind_context, having, span, child), r),
    ensures
        final(bind_context).expr_context == ExprContext::HavingClause,
        final(bind_context).in_grouping == old(bind_context).in_grouping,
{
}

/// What the check against the groups gives is a filter over `child`, and its error is handed on.
pub proof fn law_checked_clause_is_a_filter(
    resolved: Result<ScalarExpr, ErrorCode>,
    child: SExpr,
    r: Result<SExpr, ErrorCode>,
    parts: Vec<ScalarExpr>,
    told: spec_fn(ScalarExpr) -> bool,
)
    requires
        call_ensures(Binder::bind_checked_having, (resolved, child), r),
        resolved matches Ok(scalar) ==> call_ensures(split_conjunctions, (scalar,), parts),
    ensures
        match resolved {
            Ok(scalar) => r matches Ok(bound) && is_filter_over(bound, child, parts@) && (is_true(
                scalar,
                told,
            ) <==> each_true(parts@, told)),
            Err(e) => r == Err::<SExpr, ErrorCode>(e),
        },
{
    if let Ok(scalar) = resolved {
        lemma_parts_are_true(scalar, told);
    }
}

/// The analysis of aggregates binds the clause that it is given with the names that it is given, in
/// the having clause.
pub proof fn law_clause_is_bound_with_its_names<E>(
    bind_context: &mut BindContext,
    aliases: &[(String, ScalarExpr)],
    having: Expr<E>,
    r: AnalyzeStep<E>,
)
    requires
        call_ensures(Binder::analyze_aggregate_having::<E>, (bind_context, aliases, &having), r),
    ensures
        r matches AnalyzeStep::Bind { having: h, aliases: a } && *h == having && a@ == aliases@,
        final(bind_context).expr_context == ExprContext::HavingClause,
        final(bind_context).in_grouping == old(bind_context).in_grouping,
{
}

/// What was bound is rewritten, what was rewritten is the result with the place of the clause, and
/// the first error ends the analysis.
pub proof fn law_bound_clause_is_rewritten<E>(
    step: AnalyzeStep<E>,
    having: Expr<E>,
    reply: Result<ScalarExpr, ErrorCode>,
    r: Result<AnalyzeStep<E>, ErrorCode>,
)
    requires
        call_ensures(Binder::resume_analyze_having::<E>, (step, &having, reply), r),
        step is Bind || step is Rewrite,
    ensures
        reply matches Err(e) ==> r == Err::<AnalyzeStep<E>, ErrorCode>(e),
        reply matches Ok(scalar) ==> {
            &&& step is Bind ==> (r matches Ok(AnalyzeStep::Rewrite(s)) && s == scalar)
            &&& step is Rewrite ==> (r matches Ok(AnalyzeStep::Done(s, span)) && s == scalar && span
                == having.span)
        },
{
}

/// A call of `and` is a conjunction, however many arguments it has, and nothing else is.
pub proof fn law_only_and_is_a_conjunction(scalar: ScalarExpr, r: bool)
    requires
        call_ensures(ScalarExpr::is_conjunction, (&scalar,), r),
    ensures
        r <==> is_call(scalar, "and"@),
{
}

/// A new operator works on one table, the one that it is given.
pub proof fn law_operator_works_on_its_table(plan: Arc<RelOperator>, child: Arc<SExpr>, r: SExpr)
    requires
        call_ensures(SExpr::create_unary, (plan, child), r),
    ensures
        r.plan == plan,
        r.children@.len() == 1,
        r.children@[0] == child,
{
}

} // verus!
