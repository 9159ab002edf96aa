//! Values of a column and how they are ordered.

use std::cmp::Ordering;

use vstd::prelude::*;

verus! {

/// A value that is not null. Integers, booleans, dates and timestamps are an `Int`; so is a
/// floating point number, by its rank in the total order of floating point numbers. Text and
/// binary data are `Bytes`.
#[derive(Debug)]
pub enum Value {
    Int(i128),
    Bytes(Vec<u8>),
}

/// What a cell of a column holds: a value, or null.
pub type Cell = Option<Value>;

/// A value as a sequence of integers. Two values are ordered as these sequences are, and two
/// values with the same sequence are the same value.
impl View for Value {
    type V = Seq<int>;

    open spec fn view(&self) -> Seq<int> {
        match self {
            Value::Int(i) => seq![0int, *i as int],
            Value::Bytes(b) => seq![1int] + b@.map_values(|x: u8| x as int),
        }
    }
}

/// What a cell holds, as a sequence of integers if it is not null.
pub open spec fn cell_view(cell: Cell) -> Option<Seq<int>> {
    match cell {
        Some(value) => Some(value@),
        None => None,
    }
}

/// The lexicographic order of two sequences: negative, zero or positive as `a` comes before `b`,
/// is `b`, or comes after `b`.
pub open spec fn lex_order(a: Seq<int>, b: Seq<int>) -> int
    decreases a.len(),
{
    if a.len() == 0 {
        if b.len() == 0 {
            0
        } else {
            -1
        }
    } else if b.len() == 0 {
        1
    } else if a[0] < b[0] {
        -1
    } else if a[0] > b[0] {
        1
    } else {
        lex_order(a.drop_first(), b.drop_first())
    }
}

/// An `Ordering` is the sign of `order`.
pub open spec fn is_sign(o: Ordering, order: int) -> bool {
    match o {
        Ordering::Less => order < 0,
        Ordering::Equal => order == 0,
        Ordering::Greater => order > 0,
    }
}

/// Turning two sequences round turns their order round, and only equal sequences are neither
/// before nor after each other.
pub proof fn lemma_lex_order_antisymmetric(a: Seq<int>, b: Seq<int>)
    ensures
        lex_order(a, b) == -lex_order(b, a),
        lex_order(a, b) == 0 <==> a == b,
        -1 <= lex_order(a, b) <= 1,
    decreases a.len(),
{
    if a.len() > 0 && b.len() > 0 && a[0] == b[0] {
        lemma_lex_order_antisymmetric(a.drop_first(), b.drop_first());
        if a.drop_first() == b.drop_first() {
            assert(a =~= seq![a[0]] + a.drop_first());
            assert(b =~= seq![b[0]] + b.drop_first());
        }
    } else if a.len() == 0 && b.len() == 0 {
        assert(a =~= b);
    }
}

/// A sequence that is not after another is not after what that one is not after.
pub proof fn lemma_lex_order_transitive(a: Seq<int>, b: Seq<int>, c: Seq<int>)
    requires
        lex_order(a, b) <= 0,
        lex_order(b, c) <= 0,
    ensures
        lex_order(a, c) <= 0,
    decreases a.len(),
{
    if a.len() > 0 && b.len() > 0 && c.len() > 0 && a[0] == b[0] && b[0] == c[0] {
        lemma_lex_order_transitive(a.drop_first(), b.drop_first(), c.drop_first());
    }
}

/// Putting the same number before two sequences does not change their order.
proof fn lemma_lex_order_same_first(x: int, a: Seq<int>, b: Seq<int>)
    ensures
        lex_order(seq![x] + a, seq![x] + b) == lex_order(a, b),
{
    assert((seq![x] + a).drop_first() =~= a);
    assert((seq![x] + b).drop_first() =~= b);
}

/// The order of two numbers.
fn compare_ints(a: i128, b: i128) -> (r: Ordering)
    ensures
        is_sign(r, a - b),
{
    if a < b {
        Ordering::Less
    } else if a == b {
        Ordering::Equal
    } else {
        Ordering::Greater
    }
}

/// The bytes as integers.
pub open spec fn byte_ints(b: Seq<u8>) -> Seq<int> {
    b.map_values(|x: u8| x as int)
}

/// The lexicographic order of two byte strings.
fn compare_bytes(a: &Vec<u8>, b: &Vec<u8>) -> (r: Ordering)
    ensures
        is_sign(r, lex_order(byte_ints(a@), byte_ints(b@))),
{
    let mut i: usize = 0;
    assert(byte_ints(a@).skip(0) =~= byte_ints(a@));
    assert(byte_ints(b@).skip(0) =~= byte_ints(b@));
    while i < a.len() && i < b.len()
        invariant
            i <= a.len(),
            i <= b.len(),
            lex_order(byte_ints(a@), byte_ints(b@)) == lex_order(
                byte_ints(a@).skip(int_of(i)),
                byte_ints(b@).skip(int_of(i)),
            ),
        decreases a.len() - i,
    {
        let x: u8 = a[i];
        let y: u8 = b[i];
        if x < y {
            return Ordering::Less;
        }
        if x > y {
            return Ordering::Greater;
        }
        assert(byte_ints(a@).skip(int_of(i)).drop_first() =~= byte_ints(a@).skip(i + 1));
        assert(byte_ints(b@).skip(int_of(i)).drop_first() =~= byte_ints(b@).skip(i + 1));
        i = i + 1;
    }
    if i < b.len() {
        Ordering::Less
    } else if i < a.len() {
        Ordering::Greater
    } else {
        Ordering::Equal
    }
}

/// A machine index as an integer.
pub open spec fn int_of(i: usize) -> int {
    i as int
}

impl Value {
    /// The order of two values.
    pub fn compare(&self, other: &Value) -> (r: Ordering)
        ensures
            is_sign(r, lex_order(self@, other@)),
    {
        match self {
            Value::Int(a) => match other {
                Value::Int(b) => {
                    proof {
                        reveal_with_fuel(lex_order, 3);
                        assert(self@.drop_first().drop_first() =~= Seq::empty());
                        assert(other@.drop_first().drop_first() =~= Seq::empty());
                    }
                    compare_ints(*a, *b)
                },
                Value::Bytes(_) => Ordering::Less,
            },
            Value::Bytes(a) => match other {
                Value::Int(_) => Ordering::Greater,
                Value::Bytes(b) => {
                    proof {
                        lemma_lex_order_same_first(1, byte_ints(a@), byte_ints(b@));
                    }
                    compare_bytes(a, b)
                },
            },
        }
    }

    /// A copy of the value.
    pub fn copied(&self) -> (r: Value)
        ensures
            r@ == self@,
    {
        match self {
            Value::Int(i) => Value::Int(*i),
            Value::Bytes(b) => Value::Bytes(b.clone()),
        }
    }
}

/// A copy of what a cell holds.
pub fn copied_cell(cell: &Cell) -> (r: Cell)
    ensures
        cell_view(r) == cell_view(*cell),
{
    match cell {
        Some(value) => Some(value.copied()),
        None => None,
    }
}

} // verus!
