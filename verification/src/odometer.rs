//! The mathematical model of odometer-order Cartesian products.
//!
//! [`pairs`] and [`triples`] give, for source sequences, the full list of
//! output tuples in lexicographic (odometer) order: position 1 is the most
//! significant digit, the last position varies fastest. The lemmas here state
//! the laws of that order: cardinality, mixed-radix indexing, the shape of
//! each step, and propagation of repeated source elements.

use vstd::prelude::*;

verus! {

/// One output row: `x` paired with each element of `s`, in order.
pub open spec fn row<Item>(x: Item, s: Seq<Item>) -> Seq<(Item, Item)> {
    Seq::new(s.len(), |k: int| (x, s[k]))
}

/// Every pair `(a, b)` with `a` from `s1` and `b` from `s2`, in lexicographic
/// odometer order: the second position varies fastest.
pub open spec fn pairs<Item>(s1: Seq<Item>, s2: Seq<Item>) -> Seq<(Item, Item)>
    decreases s1.len(),
{
    if s1.len() == 0 {
        Seq::empty()
    } else {
        row(s1[0], s2) + pairs(s1.skip(1), s2)
    }
}

/// `x` prepended to each pair of `ps`, in order.
pub open spec fn lift3<Item>(x: Item, ps: Seq<(Item, Item)>) -> Seq<(Item, Item, Item)> {
    Seq::new(ps.len(), |k: int| (x, ps[k].0, ps[k].1))
}

/// Every triple `(a, b, c)` with `a` from `s1`, `b` from `s2` and `c` from
/// `s3`, in lexicographic odometer order: the third position varies fastest.
pub open spec fn triples<Item>(s1: Seq<Item>, s2: Seq<Item>, s3: Seq<Item>) -> Seq<
    (Item, Item, Item),
>
    decreases s1.len(),
{
    if s1.len() == 0 {
        Seq::empty()
    } else {
        lift3(s1[0], pairs(s2, s3)) + triples(s1.skip(1), s2, s3)
    }
}

/// Dropping the first tuple of a row drops the first element of its second
/// position.
pub proof fn lemma_row_skip<Item>(x: Item, s: Seq<Item>)
    requires
        s.len() > 0,
    ensures
        row(x, s).skip(1) == row(x, s.skip(1)),
{
    assert(row(x, s).skip(1) =~= row(x, s.skip(1)));
}

/// Dropping the first tuple of a lifted pair list drops the first pair.
pub proof fn lemma_lift3_skip<Item>(x: Item, ps: Seq<(Item, Item)>)
    requires
        ps.len() > 0,
    ensures
        lift3(x, ps).skip(1) == lift3(x, ps.skip(1)),
{
    assert(lift3(x, ps).skip(1) =~= lift3(x, ps.skip(1)));
}

/// Dropping the first element of a concatenation whose left part is nonempty
/// drops it from the left part.
pub proof fn lemma_add_skip1<T>(a: Seq<T>, b: Seq<T>)
    requires
        a.len() > 0,
    ensures
        (a + b).skip(1) == a.skip(1) + b,
{
    assert((a + b).skip(1) =~= a.skip(1) + b);
}

/// Cardinality law for two sources: the product holds exactly
/// `s1.len() * s2.len()` tuples; if either source is empty, it holds none.
pub proof fn lemma_pairs_len<Item>(s1: Seq<Item>, s2: Seq<Item>)
    ensures
        pairs(s1, s2).len() == s1.len() * s2.len(),
        s1.len() == 0 || s2.len() == 0 ==> pairs(s1, s2).len() == 0,
    decreases s1.len(),
{
    if s1.len() == 0 {
    } else {
        lemma_pairs_len(s1.skip(1), s2);
        assert(s2.len() + (s1.len() - 1) * s2.len() == s1.len() * s2.len()) by (nonlinear_arith);
    }
}

/// Cardinality law for three sources: the product holds exactly
/// `s1.len() * s2.len() * s3.len()` tuples; if any source is empty, none.
pub proof fn lemma_triples_len<Item>(s1: Seq<Item>, s2: Seq<Item>, s3: Seq<Item>)
    ensures
        triples(s1, s2, s3).len() == s1.len() * s2.len() * s3.len(),
        s1.len() == 0 || s2.len() == 0 || s3.len() == 0 ==> triples(s1, s2, s3).len() == 0,
    decreases s1.len(),
{
    lemma_pairs_len(s2, s3);
    if s1.len() == 0 {
        assert(s1.len() * (s2.len() * s3.len()) == 0) by (nonlinear_arith)
            requires
                s1.len() == 0,
        ;
    } else {
        lemma_triples_len(s1.skip(1), s2, s3);
        assert(s2.len() * s3.len() + (s1.len() - 1) * s2.len() * s3.len() == s1.len() * s2.len()
            * s3.len()) by (nonlinear_arith);
    }
    if s2.len() == 0 || s3.len() == 0 {
        assert(s1.len() * s2.len() * s3.len() == 0) by (nonlinear_arith)
            requires
                s2.len() == 0 || s3.len() == 0,
        ;
    }
}

/// Mixed-radix indexing law for two sources: the tuple at index
/// `i1 * s2.len() + i2` picks element `i1` of the first source and element
/// `i2` of the second.
pub proof fn lemma_pairs_index<Item>(s1: Seq<Item>, s2: Seq<Item>, i1: int, i2: int)
    requires
        0 <= i1 < s1.len(),
        0 <= i2 < s2.len(),
    ensures
        0 <= i1 * s2.len() + i2 < pairs(s1, s2).len(),
        pairs(s1, s2)[i1 * s2.len() + i2] == (s1[i1], s2[i2]),
    decreases i1,
{
    lemma_pairs_len(s1, s2);
    assert(0 <= i1 * s2.len() + i2 < s1.len() * s2.len()) by (nonlinear_arith)
        requires
            0 <= i1 < s1.len(),
            0 <= i2 < s2.len(),
    ;
    if i1 == 0 {
        assert(i1 * s2.len() + i2 == i2) by (nonlinear_arith)
            requires
                i1 == 0,
        ;
        assert(pairs(s1, s2)[i2] == row(s1[0], s2)[i2]);
    } else {
        lemma_pairs_index(s1.skip(1), s2, i1 - 1, i2);
        let k = i1 * s2.len() + i2;
        assert(s2.len() <= k && k - s2.len() == (i1 - 1) * s2.len() + i2) by (nonlinear_arith)
            requires
                1 <= i1,
                0 <= i2,
                k == i1 * s2.len() + i2,
        ;
        assert(pairs(s1, s2)[k] == pairs(s1.skip(1), s2)[k - s2.len()]);
        assert(s1.skip(1)[i1 - 1] == s1[i1]);
    }
}

/// Mixed-radix indexing law for three sources: the tuple at index
/// `(i1 * s2.len() + i2) * s3.len() + i3` picks elements `i1`, `i2` and `i3`
/// of the three sources.
pub proof fn lemma_triples_index<Item>(
    s1: Seq<Item>,
    s2: Seq<Item>,
    s3: Seq<Item>,
    i1: int,
    i2: int,
    i3: int,
)
    requires
        0 <= i1 < s1.len(),
        0 <= i2 < s2.len(),
        0 <= i3 < s3.len(),
    ensures
        0 <= (i1 * s2.len() + i2) * s3.len() + i3 < triples(s1, s2, s3).len(),
        triples(s1, s2, s3)[(i1 * s2.len() + i2) * s3.len() + i3] == (s1[i1], s2[i2], s3[i3]),
    decreases i1,
{
    lemma_triples_len(s1, s2, s3);
    lemma_pairs_len(s2, s3);
    assert(0 <= (i1 * s2.len() + i2) * s3.len() + i3 < s1.len() * s2.len() * s3.len())
        by (nonlinear_arith)
        requires
            0 <= i1 < s1.len(),
            0 <= i2 < s2.len(),
            0 <= i3 < s3.len(),
    ;
    if i1 == 0 {
        lemma_pairs_index(s2, s3, i2, i3);
        assert((0int * s2.len() + i2) * s3.len() + i3 == i2 * s3.len() + i3) by (nonlinear_arith);
        assert(triples(s1, s2, s3)[i2 * s3.len() + i3] == lift3(s1[0], pairs(s2, s3))[i2 * s3.len()
            + i3]);
    } else {
        lemma_triples_index(s1.skip(1), s2, s3, i1 - 1, i2, i3);
        assert((i1 * s2.len() + i2) * s3.len() + i3 - s2.len() * s3.len() == ((i1 - 1) * s2.len()
            + i2) * s3.len() + i3) by (nonlinear_arith);
        assert(triples(s1, s2, s3)[(i1 * s2.len() + i2) * s3.len() + i3] == triples(
            s1.skip(1),
            s2,
            s3,
        )[((i1 - 1) * s2.len() + i2) * s3.len() + i3]);
    }
}

/// Lexicographic order law for two sources: from the tuple that picks
/// elements `(i1, i2)`, a step advances the last position alone while it has
/// a successor; when it wraps, the first position advances by one and the
/// last restarts from element 0. This is standard mixed-radix counting.
pub proof fn lemma_lex_order_pairs<Item>(s1: Seq<Item>, s2: Seq<Item>, i1: int, i2: int)
    requires
        0 <= i1 < s1.len(),
        0 <= i2 < s2.len(),
    ensures
        pairs(s1, s2)[i1 * s2.len() + i2] == (s1[i1], s2[i2]),
        i2 + 1 < s2.len() ==> pairs(s1, s2)[i1 * s2.len() + i2 + 1] == (s1[i1], s2[i2 + 1]),
        i2 + 1 == s2.len() && i1 + 1 < s1.len() ==> pairs(s1, s2)[i1 * s2.len() + i2 + 1] == (
        s1[i1 + 1],
        s2[0],
        ),
{
    lemma_pairs_index(s1, s2, i1, i2);
    if i2 + 1 < s2.len() {
        lemma_pairs_index(s1, s2, i1, i2 + 1);
    }
    if i2 + 1 == s2.len() && i1 + 1 < s1.len() {
        lemma_pairs_index(s1, s2, i1 + 1, 0);
        assert((i1 + 1) * s2.len() == i1 * s2.len() + s2.len()) by (nonlinear_arith);
    }
}

/// Lexicographic order law for three sources: a step advances the highest
/// position index that can advance and restarts every lower-significance
/// position behind it, the last position varying on every step until it
/// wraps. This is standard mixed-radix counting.
pub proof fn lemma_lex_order_triples<Item>(
    s1: Seq<Item>,
    s2: Seq<Item>,
    s3: Seq<Item>,
    i1: int,
    i2: int,
    i3: int,
)
    requires
        0 <= i1 < s1.len(),
        0 <= i2 < s2.len(),
        0 <= i3 < s3.len(),
    ensures
        triples(s1, s2, s3)[(i1 * s2.len() + i2) * s3.len() + i3] == (s1[i1], s2[i2], s3[i3]),
        i3 + 1 < s3.len() ==> triples(s1, s2, s3)[(i1 * s2.len() + i2) * s3.len() + i3 + 1] == (
        s1[i1],
        s2[i2],
        s3[i3 + 1],
        ),
        i3 + 1 == s3.len() && i2 + 1 < s2.len() ==> triples(s1, s2, s3)[(i1 * s2.len() + i2)
            * s3.len() + i3 + 1] == (s1[i1], s2[i2 + 1], s3[0]),
        i3 + 1 == s3.len() && i2 + 1 == s2.len() && i1 + 1 < s1.len() ==> triples(s1, s2, s3)[(i1
            * s2.len() + i2) * s3.len() + i3 + 1] == (s1[i1 + 1], s2[0], s3[0]),
{
    lemma_triples_index(s1, s2, s3, i1, i2, i3);
    if i3 + 1 < s3.len() {
        lemma_triples_index(s1, s2, s3, i1, i2, i3 + 1);
    }
    if i3 + 1 == s3.len() && i2 + 1 < s2.len() {
        lemma_triples_index(s1, s2, s3, i1, i2 + 1, 0);
        assert((i1 * s2.len() + i2 + 1) * s3.len() == (i1 * s2.len() + i2) * s3.len() + s3.len())
            by (nonlinear_arith);
    }
    if i3 + 1 == s3.len() && i2 + 1 == s2.len() && i1 + 1 < s1.len() {
        lemma_triples_index(s1, s2, s3, i1 + 1, 0, 0);
        assert(((i1 + 1) * s2.len()) * s3.len() == (i1 * s2.len() + i2) * s3.len() + s3.len())
            by (nonlinear_arith)
            requires
                i2 + 1 == s2.len(),
        ;
    }
}

/// Repetition propagation for two sources: tuples built from equal source
/// elements are equal, so a repeated element in either source repeats the
/// corresponding output tuples.
pub proof fn lemma_repetition_pairs<Item>(
    s1: Seq<Item>,
    s2: Seq<Item>,
    i1: int,
    j1: int,
    i2: int,
    j2: int,
)
    requires
        0 <= i1 < s1.len(),
        0 <= j1 < s1.len(),
        0 <= i2 < s2.len(),
        0 <= j2 < s2.len(),
        s1[i1] == s1[j1],
        s2[i2] == s2[j2],
    ensures
        pairs(s1, s2)[i1 * s2.len() + i2] == pairs(s1, s2)[j1 * s2.len() + j2],
{
    lemma_pairs_index(s1, s2, i1, i2);
    lemma_pairs_index(s1, s2, j1, j2);
}

/// Repetition propagation for three sources: tuples built from equal source
/// elements are equal, so a repeated element in any source repeats the
/// corresponding output tuples.
pub proof fn lemma_repetition_triples<Item>(
    s1: Seq<Item>,
    s2: Seq<Item>,
    s3: Seq<Item>,
    i1: int,
    j1: int,
    i2: int,
    j2: int,
    i3: int,
    j3: int,
)
    requires
        0 <= i1 < s1.len(),
        0 <= j1 < s1.len(),
        0 <= i2 < s2.len(),
        0 <= j2 < s2.len(),
        0 <= i3 < s3.len(),
        0 <= j3 < s3.len(),
        s1[i1] == s1[j1],
        s2[i2] == s2[j2],
        s3[i3] == s3[j3],
    ensures
        triples(s1, s2, s3)[(i1 * s2.len() + i2) * s3.len() + i3] == triples(s1, s2, s3)[(j1
            * s2.len() + j2) * s3.len() + j3],
{
    lemma_triples_index(s1, s2, s3, i1, i2, i3);
    lemma_triples_index(s1, s2, s3, j1, j2, j3);
}

} // verus!
