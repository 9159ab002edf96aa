//! The cursors that wait to be merged, in order.

use vstd::prelude::*;

use crate::merge::cursor::{CompareMap, Cursor};
use crate::merge::heads::{
    has_distinct_inputs, head_order, heads_of, is_descending, lemma_head_order_transitive,
    lemma_insert_descending, lemma_insert_distinct, lemma_place, place,
};
use crate::merge::order::{lemma_row_order_antisymmetric, SortColumnDescription};

verus! {

/// Cursors in order, that of the least row last. It yields them in increasing order.
#[derive(Debug)]
pub struct CursorHeap {
    pub cursors: Vec<Cursor>,
}

impl CursorHeap {
    /// The cursors are in order, no two are in one input, and each is at a row of its block.
    pub open spec fn wf(self, by: Seq<SortColumnDescription>) -> bool {
        &&& is_descending(heads_of(self.cursors@), by)
        &&& has_distinct_inputs(heads_of(self.cursors@))
        &&& forall|p: int|
            #![trigger self.cursors@[p]]
            0 <= p < self.cursors@.len() ==> is_waiting(self.cursors@[p], by)
    }

    /// An empty heap.
    pub fn new() -> (r: CursorHeap)
        ensures
            r.cursors@ == Seq::<Cursor>::empty(),
    {
        CursorHeap { cursors: Vec::new() }
    }

    /// How many cursors wait.
    pub fn len(&self) -> (r: usize)
        ensures
            r == self.cursors@.len(),
    {
        self.cursors.len()
    }

    /// No cursor waits.
    pub fn is_empty(&self) -> (r: bool)
        ensures
            r == (self.cursors@.len() == 0),
    {
        self.cursors.len() == 0
    }

    /// Takes out the cursor at the least row.
    pub fn pop(&mut self) -> (r: Option<Cursor>)
        ensures
            match r {
                Some(cursor) => old(self).cursors@.len() > 0 && cursor == old(self).cursors@.last()
                    && final(self).cursors@ == old(self).cursors@.drop_last(),
                None => old(self).cursors@.len() == 0 && final(self).cursors@
                    == old(self).cursors@,
            },
    {
        self.cursors.pop()
    }

    /// Adds a cursor of an input of which no cursor waits.
    pub fn push(&mut self, cursor: Cursor, compare_map: &CompareMap)
        requires
            old(self).wf(cursor.sort_columns_descriptions@),
            is_waiting(cursor, cursor.sort_columns_descriptions@),
            forall|p: int|
                0 <= p < old(self).cursors@.len() ==> {
                    &&& (#[trigger] old(self).cursors@[p]).input_index != cursor.input_index
                    &&& cursor.compared_by(old(self).cursors@[p], *compare_map)
                },
        ensures
            final(self).wf(cursor.sort_columns_descriptions@),
            heads_of(final(self).cursors@) == place(
                heads_of(old(self).cursors@),
                cursor@,
                cursor.sort_columns_descriptions@,
            ),
            exists|p: int|
                0 <= p <= old(self).cursors@.len() && final(self).cursors@ == #[trigger] old(
                    self,
                ).cursors@.insert(p, cursor),
    {
        let ghost by = cursor.sort_columns_descriptions@;
        let ghost heads = heads_of(self.cursors@);
        let mut low: usize = 0;
        let mut high: usize = self.cursors.len();
        while low < high
            invariant
                low <= high <= self.cursors@.len(),
                self.wf(by),
                heads == heads_of(self.cursors@),
                by == cursor.sort_columns_descriptions@,
                is_waiting(cursor, by),
                forall|p: int|
                    0 <= p < self.cursors@.len() ==> {
                        &&& (#[trigger] self.cursors@[p]).input_index != cursor.input_index
                        &&& cursor.compared_by(self.cursors@[p], *compare_map)
                    },
                forall|q: int| 0 <= q < low ==> head_order(cursor@, #[trigger] heads[q], by) < 0,
                forall|q: int|
                    high <= q < heads.len() ==> head_order(#[trigger] heads[q], cursor@, by) < 0,
            decreases high - low,
        {
            let middle: usize = low + (high - low) / 2;
            let ghost at = heads[middle as int];
            assert(at == self.cursors@[middle as int]@);
            if cursor.is_before(&self.cursors[middle], compare_map) {
                proof {
                    assert forall|q: int| 0 <= q < middle + 1 implies head_order(
                        cursor@,
                        #[trigger] heads[q],
                        by,
                    ) < 0 by {
                        if q < middle {
                            lemma_head_order_transitive(cursor@, at, heads[q], by);
                        }
                    }
                }
                low = middle + 1;
            } else {
                proof {
                    lemma_row_order_antisymmetric(
                        cursor@.key(),
                        cursor@.input,
                        at.key(),
                        at.input,
                        by,
                    );
                    assert forall|q: int| middle <= q < heads.len() implies head_order(
                        #[trigger] heads[q],
                        cursor@,
                        by,
                    ) < 0 by {
                        if q > middle {
                            lemma_head_order_transitive(heads[q], at, cursor@, by);
                        }
                    }
                }
                high = middle;
            }
        }
        proof {
            lemma_place(heads, cursor@, by, low as int);
            lemma_insert_descending(heads, cursor@, by, low as int);
            assert forall|q: int| 0 <= q < heads.len() implies (#[trigger] heads[q]).input
                != cursor@.input by {
                assert(heads[q] == self.cursors@[q]@);
            }
            lemma_insert_distinct(heads, cursor@, low as int);
        }
        let ghost cursors = self.cursors@;
        self.cursors.insert(low, cursor);
        assert(heads_of(self.cursors@) =~= heads.insert(low as int, cursor@));
        assert(self.cursors@ == cursors.insert(low as int, cursor));
        assert forall|p: int|
            #![trigger self.cursors@[p]]
            0 <= p < self.cursors@.len() implies is_waiting(self.cursors@[p], by) by {
            if p < low {
                assert(self.cursors@[p] == cursors[p]);
            } else if p > low {
                assert(self.cursors@[p] == cursors[p - 1]);
            }
        }
    }
}

/// The cursor is at a row of its block and sorts by those columns.
pub open spec fn is_waiting(cursor: Cursor, by: Seq<SortColumnDescription>) -> bool {
    &&& cursor.wf()
    &&& cursor.row_index < cursor.num_rows
    &&& cursor.sort_columns_descriptions@ == by
}

} // verus!
