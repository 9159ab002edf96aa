//! What is known while a query is bound.

use vstd::prelude::*;

verus! {

/// The clause that an expression stands in.
#[derive(Clone, Copy, PartialEq, Eq, Debug, Structural)]
pub enum ExprContext {
    SelectClause,
    WhereClause,
    HavingClause,
    OrderByClause,
    Unknown,
}

/// What is known while a query is bound.
#[derive(Clone, Copy, PartialEq, Eq, Debug, Structural)]
pub struct BindContext {
    pub expr_context: ExprContext,
    /// Rows are grouped, so that columns outside of the groups cannot be used.
    pub in_grouping: bool,
}

impl BindContext {
    /// A context in which nothing is known.
    pub fn new() -> (r: BindContext)
        ensures
            r == (BindContext { expr_context: ExprContext::Unknown, in_grouping: false }),
    {
        BindContext { expr_context: ExprContext::Unknown, in_grouping: false }
    }

    /// Goes to another clause.
    pub fn set_expr_context(&mut self, expr_context: ExprContext)
        ensures
            *final(self) == (BindContext { expr_context, ..*old(self) }),
    {
        self.expr_context = expr_context;
    }
}

/// How the case of names is treated.
#[derive(Clone, Copy, PartialEq, Eq, Debug, Structural)]
pub struct NameResolutionContext {
    pub unquoted_ident_case_sensitive: bool,
    pub quoted_ident_case_sensitive: bool,
}

} // verus!
