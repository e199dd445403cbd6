//! Counting the rows of a table.
use crate::table::{get, key_less, put, Key};
use vstd::prelude::*;

verus! {

/// Whether the first parts of a key are those that are given.
pub open spec fn begins(key: Key, a: int, b: Option<int>, c: Option<int>) -> bool {
    key.a == a && (b matches Some(b) ==> key.b == b) && (c matches Some(c) ==> key.c == c)
}

/// How many rows have a key with the given first parts.
pub open spec fn tally<V>(rows: Seq<(Key, V)>, a: int, b: Option<int>, c: Option<int>) -> nat
    decreases rows.len(),
{
    if rows.len() == 0 {
        0
    } else if begins(rows.last().0, a, b, c) {
        tally(rows.drop_last(), a, b, c) + 1
    } else {
        tally(rows.drop_last(), a, b, c)
    }
}

proof fn lemma_tally_adds<V>(
    x: Seq<(Key, V)>,
    y: Seq<(Key, V)>,
    a: int,
    b: Option<int>,
    c: Option<int>,
)
    ensures
        tally(x + y, a, b, c) == tally(x, a, b, c) + tally(y, a, b, c),
    decreases y.len(),
{
    if y.len() == 0 {
        assert(x + y =~= x);
    } else {
        assert((x + y).drop_last() =~= x + y.drop_last());
        lemma_tally_adds(x, y.drop_last(), a, b, c);
    }
}

proof fn lemma_tally_one<V>(k: Key, v: V, a: int, b: Option<int>, c: Option<int>)
    ensures
        tally(seq![(k, v)], a, b, c) == if begins(k, a, b, c) {
            1nat
        } else {
            0
        },
{
    assert(seq![(k, v)].drop_last() =~= Seq::<(Key, V)>::empty());
    reveal_with_fuel(tally, 2);
}

/// A row under a new key counts once more where it counts, and nowhere else.
pub proof fn law_tally_put<V>(
    rows: Seq<(Key, V)>,
    k: Key,
    v: V,
    a: int,
    b: Option<int>,
    c: Option<int>,
)
    requires
        get(rows, k) is None,
    ensures
        tally(put(rows, k, v), a, b, c) == tally(rows, a, b, c) + if begins(k, a, b, c) {
            1nat
        } else {
            0
        },
    decreases rows.len(),
{
    lemma_tally_one(k, v, a, b, c);
    if rows.len() == 0 || key_less(k, rows[0].0) {
        lemma_tally_adds(seq![(k, v)], rows, a, b, c);
    } else {
        let rest = rows.drop_first();
        law_tally_put(rest, k, v, a, b, c);
        lemma_tally_adds(seq![rows[0]], put(rest, k, v), a, b, c);
        lemma_tally_adds(seq![rows[0]], rest, a, b, c);
        assert(seq![rows[0]] + rest =~= rows);
    }
}

/// Where no key has the given parts, nothing is counted.
pub proof fn law_tally_nothing<V>(rows: Seq<(Key, V)>, a: int, b: Option<int>, c: Option<int>)
    requires
        forall|i: int| 0 <= i < rows.len() ==> !begins((#[trigger] rows[i]).0, a, b, c),
    ensures
        tally(rows, a, b, c) == 0,
    decreases rows.len(),
{
    if rows.len() > 0 {
        let front = rows.drop_last();
        assert(!begins(rows[rows.len() - 1].0, a, b, c));
        assert forall|i: int| 0 <= i < front.len() implies !begins(
            (#[trigger] front[i]).0,
            a,
            b,
            c,
        ) by {
            assert(front[i] == rows[i]);
        }
        law_tally_nothing(front, a, b, c);
    }
}

} // verus!
