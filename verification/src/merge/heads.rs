//! The rows that wait at the front of the inputs, and how they leave in order.

use vstd::prelude::*;

use crate::expression::block::ColumnRef;
use crate::merge::cursor::Cursor;
use crate::merge::order::{
    key_in, lemma_row_order_antisymmetric, lemma_row_order_transitive, row_order, Key,
    SortColumnDescription,
};

verus! {

/// The row that a cursor is at, with what of its block is still to come.
#[verifier::ext_equal]
pub struct Head {
    pub input: int,
    pub row: int,
    pub rows: int,
    pub columns: Seq<ColumnRef>,
}

impl View for Cursor {
    type V = Head;

    open spec fn view(&self) -> Head {
        Head {
            input: self.input_index as int,
            row: self.row_index as int,
            rows: self.num_rows as int,
            columns: self.sort_columns@,
        }
    }
}

impl Head {
    /// The key of the row.
    pub open spec fn key(self) -> Key {
        key_in(self.columns, self.row)
    }

    /// The next row of the block.
    pub open spec fn next(self) -> Head {
        Head { row: self.row + 1, ..self }
    }
}

/// The rows that some cursors are at.
pub open spec fn heads_of(cursors: Seq<Cursor>) -> Seq<Head> {
    cursors.map_values(|c: Cursor| c@)
}

/// The order of two rows.
pub open spec fn head_order(a: Head, b: Head, by: Seq<SortColumnDescription>) -> int {
    row_order(a.key(), a.input, b.key(), b.input, by)
}

/// Every row comes before those that stand in front of it, so that the first to leave is last.
pub open spec fn is_descending(heads: Seq<Head>, by: Seq<SortColumnDescription>) -> bool {
    forall|a: int, b: int|
        0 <= a < b < heads.len() ==> head_order(#[trigger] heads[b], #[trigger] heads[a], by) < 0
}

/// No input has two rows that wait.
pub open spec fn has_distinct_inputs(heads: Seq<Head>) -> bool {
    forall|a: int, b: int|
        0 <= a < heads.len() && 0 <= b < heads.len() && a != b ==> (#[trigger] heads[a]).input != (
        #[trigger] heads[b]).input
}

/// The rows with one more at its place.
pub open spec fn place(heads: Seq<Head>, head: Head, by: Seq<SortColumnDescription>) -> Seq<Head>
    decreases heads.len(),
{
    if heads.len() == 0 || head_order(head, heads.last(), by) < 0 {
        heads.push(head)
    } else {
        place(heads.drop_last(), head, by).push(heads.last())
    }
}

/// The rows once the first has left and the next one of its block has come, if there is one.
pub open spec fn step(heads: Seq<Head>, by: Seq<SortColumnDescription>) -> Seq<Head> {
    let first = heads.last();
    if first.row + 1 == first.rows {
        heads.drop_last()
    } else {
        place(heads.drop_last(), first.next(), by)
    }
}

/// The rows once `k` of them have left.
pub open spec fn steps(heads: Seq<Head>, by: Seq<SortColumnDescription>, k: nat) -> Seq<Head>
    decreases k,
{
    if k == 0 {
        heads
    } else {
        step(steps(heads, by, (k - 1) as nat), by)
    }
}

/// The row that leaves when `k` have left already.
pub open spec fn leaving(heads: Seq<Head>, by: Seq<SortColumnDescription>, k: nat) -> Head {
    steps(heads, by, k).last()
}

/// Which inputs have no row that waits, once `k` rows have left.
pub open spec fn finished_after(
    finished: Seq<bool>,
    heads: Seq<Head>,
    by: Seq<SortColumnDescription>,
    k: nat,
) -> Seq<bool>
    decreases k,
{
    if k == 0 {
        finished
    } else {
        let before = finished_after(finished, heads, by, (k - 1) as nat);
        let head = leaving(heads, by, (k - 1) as nat);
        if head.row + 1 == head.rows {
            before.update(head.input, true)
        } else {
            before
        }
    }
}

/// The place of a row that comes before all in front of it and after all behind it.
pub proof fn lemma_place(heads: Seq<Head>, head: Head, by: Seq<SortColumnDescription>, p: int)
    requires
        0 <= p <= heads.len(),
        forall|q: int| 0 <= q < p ==> head_order(head, #[trigger] heads[q], by) < 0,
        forall|q: int| p <= q < heads.len() ==> head_order(#[trigger] heads[q], head, by) < 0,
    ensures
        place(heads, head, by) == heads.insert(p, head),
    decreases heads.len(),
{
    if p == heads.len() {
        assert(heads.insert(p, head) =~= heads.push(head));
    } else {
        let last = heads.last();
        assert(last == heads[heads.len() - 1]);
        lemma_row_order_antisymmetric(head.key(), head.input, last.key(), last.input, by);
        lemma_place(heads.drop_last(), head, by, p);
        assert(heads.drop_last().insert(p, head).push(last) =~= heads.insert(p, head));
    }
}

/// A row put between those that it comes before and those that it comes after keeps them in order.
pub proof fn lemma_insert_descending(
    heads: Seq<Head>,
    head: Head,
    by: Seq<SortColumnDescription>,
    p: int,
)
    requires
        0 <= p <= heads.len(),
        is_descending(heads, by),
        forall|q: int| 0 <= q < p ==> head_order(head, #[trigger] heads[q], by) < 0,
        forall|q: int| p <= q < heads.len() ==> head_order(#[trigger] heads[q], head, by) < 0,
    ensures
        is_descending(heads.insert(p, head), by),
{
    let r = heads.insert(p, head);
    assert forall|a: int, b: int| 0 <= a < b < r.len() implies head_order(
        #[trigger] r[b],
        #[trigger] r[a],
        by,
    ) < 0 by {
        if a < p && b > p {
            assert(r[a] == heads[a] && r[b] == heads[b - 1]);
        } else if a < p && b < p {
            assert(r[a] == heads[a] && r[b] == heads[b]);
        } else if a > p {
            assert(r[a] == heads[a - 1] && r[b] == heads[b - 1]);
        } else if a == p {
            assert(r[b] == heads[b - 1]);
        } else {
            assert(r[a] == heads[a]);
        }
    }
}

/// A row of an input that has none waiting, added to distinct inputs, leaves them distinct.
pub proof fn lemma_insert_distinct(heads: Seq<Head>, head: Head, p: int)
    requires
        0 <= p <= heads.len(),
        has_distinct_inputs(heads),
        forall|q: int| 0 <= q < heads.len() ==> (#[trigger] heads[q]).input != head.input,
    ensures
        has_distinct_inputs(heads.insert(p, head)),
{
    let r = heads.insert(p, head);
    assert forall|a: int, b: int|
        0 <= a < r.len() && 0 <= b < r.len() && a != b implies (#[trigger] r[a]).input != (
    #[trigger] r[b]).input by {
        let a0 = if a < p { a } else { a - 1 };
        let b0 = if b < p { b } else { b - 1 };
        if a != p {
            assert(r[a] == heads[a0]);
        }
        if b != p {
            assert(r[b] == heads[b0]);
        }
    }
}

/// What comes before a row comes before what that row comes before.
pub proof fn lemma_head_order_transitive(
    a: Head,
    b: Head,
    c: Head,
    by: Seq<SortColumnDescription>,
)
    requires
        head_order(a, b, by) < 0,
        head_order(b, c, by) < 0,
    ensures
        head_order(a, c, by) < 0,
{
    lemma_row_order_transitive(a.key(), a.input, b.key(), b.input, c.key(), c.input, by);
}

} // verus!
