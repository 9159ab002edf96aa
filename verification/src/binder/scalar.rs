//! Scalar expressions.

use vstd::prelude::*;

use crate::exception::Span;
use crate::expression::value::Cell;

verus! {

/// What an expression does with its arguments.
#[derive(Debug)]
pub enum ScalarKind {
    /// The column of that name.
    BoundColumnRef(String),
    ConstantExpr(Cell),
    /// Calls the function of that name.
    FunctionCall(String),
    /// Calls the aggregate function of that name.
    AggregateFunction(String),
    /// Calls the window function of that name.
    WindowFunction(String),
    /// Casts to the type of that name.
    CastExpr(String),
    /// The result of the subquery of that number.
    SubqueryExpr(usize),
}

/// A scalar expression, with its place in the statement.
#[derive(Debug)]
pub struct ScalarExpr {
    pub span: Span,
    pub kind: ScalarKind,
    pub arguments: Vec<ScalarExpr>,
}

impl ScalarExpr {
    /// The place of the expression in the statement.
    pub fn span(&self) -> (r: Span)
        ensures
            r == self.span,
    {
        self.span
    }

    /// The expression holds if all its arguments do.
    pub open spec fn is_and(self) -> bool {
        self.kind matches ScalarKind::FunctionCall(name) && name@ == "and"@
    }

    /// The expression is a conjunction.
    pub fn is_conjunction(&self) -> (r: bool)
        ensures
            r == self.is_and(),
    {
        match &self.kind {
            ScalarKind::FunctionCall(name) => *name == "and".to_owned(),
            _ => false,
        }
    }
}

/// A window function is called, by the expression or in its arguments.
pub open spec fn calls_window(scalar: ScalarExpr) -> bool
    decreases scalar, 0int,
{
    scalar.kind is WindowFunction || any_calls_window(
        scalar.arguments@,
        scalar.arguments@.len() as int,
    )
}

/// A window function is called in one of the first `k` expressions.
pub open spec fn any_calls_window(scalars: Seq<ScalarExpr>, k: int) -> bool
    decreases scalars, k,
{
    if k <= 0 || k > scalars.len() {
        false
    } else {
        any_calls_window(scalars, k - 1) || calls_window(scalars[k - 1])
    }
}

/// Finds out if a window function is called, by the expression or in its arguments.
pub fn find_window_function(scalar: &ScalarExpr) -> (r: bool)
    ensures
        r == calls_window(*scalar),
    decreases scalar,
{
    match &scalar.kind {
        ScalarKind::WindowFunction(_) => {
            return true;
        },
        _ => {},
    }
    let mut found = false;
    let mut i: usize = 0;
    while i < scalar.arguments.len()
        invariant
            i <= scalar.arguments@.len(),
            found == any_calls_window(scalar.arguments@, i as int),
        decreases scalar.arguments.len() - i,
    {
        if find_window_function(&scalar.arguments[i]) {
            found = true;
        }
        i = i + 1;
    }
    found
}

/// The expressions that all hold exactly where the expression does.
pub open spec fn conjuncts(scalar: ScalarExpr) -> Seq<ScalarExpr>
    decreases scalar, 0int,
{
    if scalar.is_and() {
        all_conjuncts(scalar.arguments@, scalar.arguments@.len() as int)
    } else {
        seq![scalar]
    }
}

/// The conjuncts of the first `k` expressions, one after the other.
pub open spec fn all_conjuncts(scalars: Seq<ScalarExpr>, k: int) -> Seq<ScalarExpr>
    decreases scalars, k,
{
    if k <= 0 || k > scalars.len() {
        Seq::empty()
    } else {
        all_conjuncts(scalars, k - 1) + conjuncts(scalars[k - 1])
    }
}

/// Splits an expression at the conjunctions that it is made of.
pub fn split_conjunctions(scalar: ScalarExpr) -> (r: Vec<ScalarExpr>)
    ensures
        r@ == conjuncts(scalar),
    decreases scalar,
{
    let mut out: Vec<ScalarExpr> = Vec::new();
    if scalar.is_conjunction() {
        let ghost whole = scalar;
        for argument in it: scalar.arguments
            invariant
                it.seq() == whole.arguments@,
                whole == scalar,
                out@ == all_conjuncts(whole.arguments@, it.index() as int),
        {
            let ghost k = it.index() as int;
            assert(argument == whole.arguments@[k]);
            assert(decreases_to!(whole => whole.arguments@[k]));
            let mut parts = split_conjunctions(argument);
            out.append(&mut parts);
            assert(out@ =~= all_conjuncts(whole.arguments@, k + 1));
        }
    } else {
        out.push(scalar);
        assert(out@ =~= seq![scalar]);
    }
    out
}

} // verus!
