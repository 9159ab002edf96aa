//! Binding of the having clause.

use std::sync::Arc;

use vstd::prelude::*;

use crate::binder::context::{BindContext, ExprContext};
use crate::binder::scalar::{
    all_conjuncts, any_calls_window, calls_window, conjuncts, find_window_function,
    split_conjunctions, ScalarExpr,
};
use crate::exception::{ErrorCode, ErrorKind, Span};

verus! {

/// Binds the clauses of a query.
pub struct Binder {}

/// Lets through the rows for which all predicates hold.
#[derive(Debug)]
pub struct Filter {
    pub predicates: Vec<ScalarExpr>,
}

/// An operator on tables.
#[derive(Debug)]
pub enum RelOperator {
    Filter(Filter),
    /// Another operator, by its name.
    Other(String),
}

/// An operator with what it works on.
#[derive(Debug)]
pub struct SExpr {
    pub plan: Arc<RelOperator>,
    pub children: Vec<Arc<SExpr>>,
}

impl SExpr {
    /// An operator that works on one table.
    pub fn create_unary(plan: Arc<RelOperator>, child: Arc<SExpr>) -> (r: SExpr)
        ensures
            r.plan == plan,
            r.children@ == seq![child],
    {
        let mut children: Vec<Arc<SExpr>> = Vec::new();
        children.push(child);
        assert(children@ =~= seq![child]);
        SExpr { plan, children }
    }

    /// The expression filters the rows of `child` by those predicates.
    pub open spec fn filters(self, child: SExpr, predicates: Seq<ScalarExpr>) -> bool {
        &&& self.children@.len() == 1
        &&& *self.children@[0] == child
        &&& *self.plan matches RelOperator::Filter(filter) && filter.predicates@ == predicates
    }
}

/// An expression as it was parsed, with its place in the statement.
#[derive(Debug)]
pub struct Expr<E> {
    pub span: Span,
    pub node: E,
}

/// What comes next in the analysis of the aggregates of a having clause.
#[derive(Debug)]
pub enum AnalyzeStep<'a, E> {
    /// Bind the clause, in which expressions can be called by those names.
    Bind { having: &'a Expr<E>, aliases: &'a [(String, ScalarExpr)] },
    /// Rewrite the aggregates of the bound clause.
    Rewrite(ScalarExpr),
    /// The clause is analyzed: the rewritten clause, and its place in the statement.
    Done(ScalarExpr, Span),
}

/// What comes after a having clause was looked at.
#[derive(Debug)]
pub enum HavingStep {
    /// Check the clause against the groups, and go on with what that gives.
    CheckGrouping { having: ScalarExpr, span: Span, child: SExpr },
    /// The clause is bound.
    Bound(SExpr),
}

/// The text of the error that a having clause calls a window function.
pub const WINDOW_IN_HAVING: &'static str = "Having clause can't contain window functions";

impl Binder {
    /// Begins the analysis of the aggregates of a having clause.
    pub fn analyze_aggregate_having<'a, E>(
        bind_context: &mut BindContext,
        aliases: &'a [(String, ScalarExpr)],
        having: &'a Expr<E>,
    ) -> (r: AnalyzeStep<'a, E>)
        ensures
            *final(bind_context) == (BindContext {
                expr_context: ExprContext::HavingClause,
                ..*old(bind_context)
            }),
            r == (AnalyzeStep::Bind { having, aliases }),
    {
        bind_context.set_expr_context(ExprContext::HavingClause);
        AnalyzeStep::Bind { having, aliases }
    }

    /// Goes on with the analysis of the aggregates of a having clause with what the step has given.
    pub fn resume_analyze_having<'a, E>(
        step: AnalyzeStep<'a, E>,
        having: &'a Expr<E>,
        reply: Result<ScalarExpr, ErrorCode>,
    ) -> (r: Result<AnalyzeStep<'a, E>, ErrorCode>)
        requires
            !(step is Done),
        ensures
            match reply {
                Err(e) => r == Err::<AnalyzeStep<'a, E>, ErrorCode>(e),
                Ok(scalar) => r == Ok::<AnalyzeStep<'a, E>, ErrorCode>(
                    if step is Bind {
                        AnalyzeStep::Rewrite(scalar)
                    } else {
                        AnalyzeStep::Done(scalar, having.span)
                    },
                ),
            },
    {
        match reply {
            Err(e) => Err(e),
            Ok(scalar) => match step {
                AnalyzeStep::Bind { .. } => Ok(AnalyzeStep::Rewrite(scalar)),
                _ => Ok(AnalyzeStep::Done(scalar, having.span)),
            },
        }
    }

    /// Binds a having clause over `child`. Where rows are not grouped, it is a selection like the
    /// where clause.
    pub fn bind_having(
        bind_context: &mut BindContext,
        having: ScalarExpr,
        span: Span,
        child: SExpr,
    ) -> (r: Result<HavingStep, ErrorCode>)
        ensures
            *final(bind_context) == (BindContext {
                expr_context: ExprContext::HavingClause,
                ..*old(bind_context)
            }),
            if calls_window(having) {
                r matches Err(e) && e.kind == ErrorKind::SemanticError && e.message@
                    == WINDOW_IN_HAVING@ && e.span == having.span
            } else if old(bind_context).in_grouping {
                r == Ok::<HavingStep, ErrorCode>(
                    HavingStep::CheckGrouping { having, span, child },
                )
            } else {
                r matches Ok(HavingStep::Bound(bound)) && bound.filters(child, conjuncts(having))
            },
    {
        bind_context.set_expr_context(ExprContext::HavingClause);
        if find_window_function(&having) {
            return Err(
                ErrorCode::create(ErrorKind::SemanticError, WINDOW_IN_HAVING).set_span(
                    having.span(),
                ),
            );
        }
        if bind_context.in_grouping {
            return Ok(HavingStep::CheckGrouping { having, span, child });
        }
        Ok(HavingStep::Bound(Self::filter_by(having, child)))
    }

    /// Goes on with what the check against the groups has given.
    pub fn bind_checked_having(resolved: Result<ScalarExpr, ErrorCode>, child: SExpr) -> (r: Result<
        SExpr,
        ErrorCode,
    >)
        ensures
            match resolved {
                Err(e) => r == Err::<SExpr, ErrorCode>(e),
                Ok(scalar) => r matches Ok(bound) && bound.filters(child, conjuncts(scalar)),
            },
    {
        match resolved {
            Err(e) => Err(e),
            Ok(scalar) => Ok(Self::filter_by(scalar, child)),
        }
    }

    fn filter_by(scalar: ScalarExpr, child: SExpr) -> (r: SExpr)
        ensures
            r.filters(child, conjuncts(scalar)),
    {
        let predicates = split_conjunctions(scalar);
        SExpr::create_unary(
            Arc::new(RelOperator::Filter(Filter { predicates })),
            Arc::new(child),
        )
    }
}

/// An expression holds, where it is known which expressions that are no conjunctions hold.
pub open spec fn holds(scalar: ScalarExpr, atom: spec_fn(ScalarExpr) -> bool) -> bool
    decreases scalar, 0int,
{
    if scalar.is_and() {
        all_hold(scalar.arguments@, scalar.arguments@.len() as int, atom)
    } else {
        atom(scalar)
    }
}

/// The first `k` expressions hold.
pub open spec fn all_hold(
    scalars: Seq<ScalarExpr>,
    k: int,
    atom: spec_fn(ScalarExpr) -> bool,
) -> bool
    decreases scalars, k,
{
    if k <= 0 || k > scalars.len() {
        true
    } else {
        all_hold(scalars, k - 1, atom) && holds(scalars[k - 1], atom)
    }
}

proof fn lemma_all_predicates(
    scalars: Seq<ScalarExpr>,
    k: int,
    atom: spec_fn(ScalarExpr) -> bool,
)
    ensures
        all_hold(scalars, k, atom) <==> forall|j: int|
            0 <= j < all_conjuncts(scalars, k).len() ==> atom(
                #[trigger] all_conjuncts(scalars, k)[j],
            ),
        forall|j: int|
            0 <= j < all_conjuncts(scalars, k).len() ==> !(#[trigger] all_conjuncts(
                scalars,
                k,
            )[j]).is_and(),
    decreases scalars, k,
{
    if 0 < k <= scalars.len() {
        let front = all_conjuncts(scalars, k - 1);
        let back = conjuncts(scalars[k - 1]);
        let all = all_conjuncts(scalars, k);
        lemma_all_predicates(scalars, k - 1, atom);
        law_predicates_are_the_clause(scalars[k - 1], atom);
        assert forall|j: int| 0 <= j < front.len() implies #[trigger] all[j] == front[j] by {}
        assert forall|j: int| 0 <= j < back.len() implies #[trigger] back[j] == all[front.len()
            + j] by {}
        if forall|j: int| 0 <= j < all.len() ==> atom(#[trigger] all[j]) {
            assert forall|j: int| 0 <= j < front.len() implies atom(#[trigger] front[j]) by {
                assert(atom(all[j]));
            }
            assert forall|j: int| 0 <= j < back.len() implies atom(#[trigger] back[j]) by {
                assert(atom(all[front.len() + j]));
            }
        }
        assert forall|j: int| 0 <= j < all.len() implies !(#[trigger] all[j]).is_and() by {
            if j >= front.len() {
                assert(all[j] == back[j - front.len()]);
            }
        }
        if all_hold(scalars, k, atom) {
            assert forall|j: int| 0 <= j < all.len() implies atom(#[trigger] all[j]) by {
                if j >= front.len() {
                    assert(all[j] == back[j - front.len()]);
                } else {
                    assert(all[j] == front[j]);
                }
            }
        }
    }
}

/// A row is let through by all predicates that a having clause is split into exactly where the
/// clause holds, and none of the predicates can be split further.
pub proof fn law_predicates_are_the_clause(
    having: ScalarExpr,
    atom: spec_fn(ScalarExpr) -> bool,
)
    ensures
        holds(having, atom) <==> forall|j: int|
            0 <= j < conjuncts(having).len() ==> atom(#[trigger] conjuncts(having)[j]),
        forall|j: int|
            0 <= j < conjuncts(having).len() ==> !(#[trigger] conjuncts(having)[j]).is_and(),
    decreases having, 0int,
{
    if having.is_and() {
        let scalars = having.arguments@;
        let k = scalars.len() as int;
        lemma_all_predicates(scalars, k, atom);
        assert(conjuncts(having) == all_conjuncts(scalars, k));
        assert(holds(having, atom) == all_hold(scalars, k, atom));
    } else {
        assert(conjuncts(having) == seq![having]);
        if holds(having, atom) {
            assert(atom(having));
        } else {
            assert(!atom(conjuncts(having)[0]));
        }
    }
}

proof fn lemma_no_window_in_all(scalars: Seq<ScalarExpr>, k: int)
    requires
        !any_calls_window(scalars, k),
    ensures
        forall|j: int|
            0 <= j < all_conjuncts(scalars, k).len() ==> !calls_window(
                #[trigger] all_conjuncts(scalars, k)[j],
            ),
    decreases scalars, k,
{
    if 0 < k <= scalars.len() {
        let front = all_conjuncts(scalars, k - 1);
        let back = conjuncts(scalars[k - 1]);
        let all = all_conjuncts(scalars, k);
        lemma_no_window_in_all(scalars, k - 1);
        law_predicates_call_no_window(scalars[k - 1]);
        assert forall|j: int| 0 <= j < all.len() implies !calls_window(#[trigger] all[j]) by {
            if j < front.len() {
                assert(all[j] == front[j]);
            } else {
                assert(all[j] == back[j - front.len()]);
            }
        }
    }
}

/// Where a having clause calls no window function, none of the predicates that it is split into
/// does.
pub proof fn law_predicates_call_no_window(having: ScalarExpr)
    requires
        !calls_window(having),
    ensures
        forall|j: int|
            0 <= j < conjuncts(having).len() ==> !calls_window(#[trigger] conjuncts(having)[j]),
    decreases having, 0int,
{
    if having.is_and() {
        let scalars = having.arguments@;
        let k = scalars.len() as int;
        lemma_no_window_in_all(scalars, k);
        assert(conjuncts(having) == all_conjuncts(scalars, k));
    } else {
        assert(conjuncts(having) == seq![having]);
    }
}

} // verus!
