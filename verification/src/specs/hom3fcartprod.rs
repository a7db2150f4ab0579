//! Three-fold Cartesian product of homogeneous source sequences.

use vstd::prelude::*;
use crate::cursor::Cursor;
use crate::odometer::lemma_add_skip1;
use crate::odometer::lemma_lift3_skip;
use crate::odometer::lemma_pairs_len;
use crate::odometer::lemma_row_skip;
use crate::odometer::lemma_triples_len;
use crate::odometer::lift3;
use crate::odometer::pairs;
use crate::odometer::row;
use crate::odometer::triples;

verus! {

/// Three-fold Cartesian product of three source sequences that are
/// homogeneous in the sense that they hold the same type of items. Tuples
/// come out in lexicographic (odometer) order, the third position varying
/// fastest. If the elements in a source repeat, the produced tuples repeat
/// as well.
///
/// The first source is traversed exactly once and never reset, so no origin
/// copy of it is kept; the second and third sources are reset from their
/// origin copies each time they exhaust while a more significant position
/// still has elements.
pub struct Hom3FCartProd<Item> {
    /// Live cursor over the first source; the most significant digit.
    pub curr_it1: Cursor<Item>,
    /// Live cursor over the second source; the middle digit.
    pub curr_it2: Cursor<Item>,
    /// Live cursor over the third source; the least significant digit.
    pub curr_it3: Cursor<Item>,
    /// Untouched duplicate of the second source, kept for resets.
    pub orig_it2: Cursor<Item>,
    /// Untouched duplicate of the third source, kept for resets.
    pub orig_it3: Cursor<Item>,
}

impl<Item: Copy> Hom3FCartProd<Item> {
    /// Well-formedness: every cursor is valid, the live second and third
    /// cursors never hold more elements than their origin copies, and the
    /// live second cursor is exhausted while the first source still has a
    /// current element only when its origin is empty altogether.
    pub open spec fn wf(self) -> bool {
        &&& self.curr_it1.wf()
        &&& self.curr_it2.wf()
        &&& self.curr_it3.wf()
        &&& self.orig_it2.wf()
        &&& self.orig_it3.wf()
        &&& self.curr_it2@.len() <= self.orig_it2@.len()
        &&& self.curr_it3@.len() <= self.orig_it3@.len()
        &&& self.curr_it1@.len() > 0 && self.curr_it2@.len() == 0 ==> self.orig_it2@.len() == 0
    }

    /// The pairs from positions 2 and 3 still to be combined with the first
    /// source's current element: the rest of the third source paired with
    /// the second's current element, then the full product of the remainder
    /// of the second source with the original third source.
    pub open spec fn rem_tail(self) -> Seq<(Item, Item)> {
        if self.curr_it2@.len() == 0 {
            Seq::empty()
        } else {
            row(self.curr_it2@[0], self.curr_it3@) + pairs(self.curr_it2@.skip(1), self.orig_it3@)
        }
    }

    /// The tuples still to be produced, in order: while the first source has
    /// a current element, [`Self::rem_tail`] prefixed with it, then the full
    /// product of the remainder of the first source with the original second
    /// and third sources.
    pub open spec fn remaining(self) -> Seq<(Item, Item, Item)> {
        if self.curr_it1@.len() == 0 {
            Seq::empty()
        } else {
            lift3(self.curr_it1@[0], self.rem_tail()) + triples(
                self.curr_it1@.skip(1),
                self.orig_it2@,
                self.orig_it3@,
            )
        }
    }

    /// Exactly the well-formed states in which the checked product of the
    /// live cursors' lengths does not undercount the tuples remaining, so
    /// estimate soundness holds of the upper bound: every position that
    /// still has more than one whole pass ahead of it must have the
    /// less significant cursors full. A freshly constructed product is such
    /// a state; so is any state whose first source is exhausted.
    pub open spec fn upper_exact(self) -> bool {
        let l1 = self.curr_it1@.len();
        let l2c = self.curr_it2@.len();
        let l3c = self.curr_it3@.len();
        let l2o = self.orig_it2@.len();
        let l3o = self.orig_it3@.len();
        ||| l1 == 0
        ||| ((l1 <= 1 || l2c * l3c == l2o * l3o) && (l2c <= 1 || l3c == l3o))
    }

    /// Creates a new [`Hom3FCartProd`] from three source cursors. Performs
    /// no enumeration: the whole product of the three sources is still
    /// remaining.
    pub fn new(it1: Cursor<Item>, it2: Cursor<Item>, it3: Cursor<Item>) -> (r: Self)
        requires
            it1.wf(),
            it2.wf(),
            it3.wf(),
        ensures
            r.wf(),
            r.upper_exact(),
            r.remaining() == triples(it1@, it2@, it3@),
    {
        let r = Hom3FCartProd {
            curr_it1: it1,
            curr_it2: it2.duplicate(),
            orig_it2: it2,
            curr_it3: it3.duplicate(),
            orig_it3: it3,
        };
        proof {
            if r.curr_it1@.len() > 0 {
                assert(r.rem_tail() == pairs(it2@, it3@));
                assert(r.remaining() == triples(it1@, it2@, it3@));
            }
        }
        r
    }

    /// Produces the next tuple in lexicographic odometer order, or signals
    /// exhaustion with `None` once every combination has been produced.
    ///
    /// Exhaustion is permanent: `None` comes exactly when no tuple remains,
    /// and afterwards no tuple ever remains again, so every subsequent call
    /// also returns `None`.
    pub fn next(&mut self) -> (r: Option<[Item; 3]>)
        requires
            old(self).wf(),
        ensures
            final(self).wf(),
            match r {
                Some(t) => {
                    &&& old(self).remaining().len() > 0
                    &&& t[0] == old(self).remaining()[0].0
                    &&& t[1] == old(self).remaining()[0].1
                    &&& t[2] == old(self).remaining()[0].2
                    &&& final(self).remaining() == old(self).remaining().skip(1)
                },
                None => {
                    &&& old(self).remaining().len() == 0
                    &&& final(self).remaining().len() == 0
                },
            },
    {
        let el1 = match self.curr_it1.peek() {
            Some(x) => x,
            None => {
                return None;
            },
        };
        let el2 = match self.curr_it2.peek() {
            Some(x) => x,
            None => {
                // Well-formedness says the second origin is empty outright.
                proof {
                    lemma_triples_len(self.curr_it1@.skip(1), self.orig_it2@, self.orig_it3@);
                }
                return None;
            },
        };
        if let Some(el3) = self.curr_it3.pull_next() {
            proof {
                lemma_add_skip1(
                    lift3(el1, old(self).rem_tail()),
                    triples(old(self).curr_it1@.skip(1), old(self).orig_it2@, old(self).orig_it3@),
                );
                lemma_lift3_skip(el1, old(self).rem_tail());
                lemma_add_skip1(
                    row(el2, old(self).curr_it3@),
                    pairs(old(self).curr_it2@.skip(1), old(self).orig_it3@),
                );
                lemma_row_skip(el2, old(self).curr_it3@);
            }
            return Some([el1, el2, el3]);
        }
        // The third source overflowed: carry into the second.
        let _ = self.curr_it2.pull_next();
        match self.curr_it2.peek() {
            Some(el2b) => {
                self.curr_it3 = self.orig_it3.duplicate();
                match self.curr_it3.pull_next() {
                    Some(el3) => {
                        proof {
                            let tail2 = old(self).curr_it2@.skip(1);
                            assert(old(self).rem_tail() == pairs(tail2, old(self).orig_it3@));
                            lemma_add_skip1(
                                lift3(el1, old(self).rem_tail()),
                                triples(
                                    old(self).curr_it1@.skip(1),
                                    old(self).orig_it2@,
                                    old(self).orig_it3@,
                                ),
                            );
                            lemma_lift3_skip(el1, old(self).rem_tail());
                            lemma_add_skip1(
                                row(el2b, old(self).orig_it3@),
                                pairs(tail2.skip(1), old(self).orig_it3@),
                            );
                            lemma_row_skip(el2b, old(self).orig_it3@);
                        }
                        return Some([el1, el2b, el3]);
                    },
                    None => {
                        // The third origin is empty: the product is empty.
                        proof {
                            lemma_pairs_len(old(self).curr_it2@.skip(1), old(self).orig_it3@);
                            lemma_pairs_len(self.curr_it2@.skip(1), self.orig_it3@);
                            lemma_triples_len(
                                old(self).curr_it1@.skip(1),
                                old(self).orig_it2@,
                                old(self).orig_it3@,
                            );
                            lemma_triples_len(
                                self.curr_it1@.skip(1),
                                self.orig_it2@,
                                self.orig_it3@,
                            );
                        }
                        return None;
                    },
                }
            },
            None => {},
        }
        // The second source overflowed as well: carry into the first.
        let _ = self.curr_it1.pull_next();
        match self.curr_it1.peek() {
            Some(el1b) => {
                self.curr_it3 = self.orig_it3.duplicate();
                self.curr_it2 = self.orig_it2.duplicate();
                match self.curr_it2.peek() {
                    Some(el2b) => {
                        match self.curr_it3.pull_next() {
                            Some(el3) => {
                                proof {
                                    let tail1 = old(self).curr_it1@.skip(1);
                                    lemma_pairs_len(
                                        old(self).curr_it2@.skip(1),
                                        old(self).orig_it3@,
                                    );
                                    assert(old(self).remaining() == triples(
                                        tail1,
                                        old(self).orig_it2@,
                                        old(self).orig_it3@,
                                    ));
                                    assert(triples(
                                        tail1,
                                        old(self).orig_it2@,
                                        old(self).orig_it3@,
                                    ) == lift3(
                                        tail1[0],
                                        pairs(old(self).orig_it2@, old(self).orig_it3@),
                                    ) + triples(
                                        tail1.skip(1),
                                        old(self).orig_it2@,
                                        old(self).orig_it3@,
                                    ));
                                    lemma_add_skip1(
                                        lift3(
                                            tail1[0],
                                            pairs(old(self).orig_it2@, old(self).orig_it3@),
                                        ),
                                        triples(
                                            tail1.skip(1),
                                            old(self).orig_it2@,
                                            old(self).orig_it3@,
                                        ),
                                    );
                                    lemma_lift3_skip(
                                        tail1[0],
                                        pairs(old(self).orig_it2@, old(self).orig_it3@),
                                    );
                                    lemma_add_skip1(
                                        row(el2b, old(self).orig_it3@),
                                        pairs(old(self).orig_it2@.skip(1), old(self).orig_it3@),
                                    );
                                    lemma_row_skip(el2b, old(self).orig_it3@);
                                    assert(self.rem_tail() == pairs(
                                        old(self).orig_it2@,
                                        old(self).orig_it3@,
                                    ).skip(1));
                                }
                                Some([el1b, el2b, el3])
                            },
                            None => {
                                // The third origin is empty: the product is
                                // empty.
                                proof {
                                    lemma_triples_len(
                                        old(self).curr_it1@.skip(1),
                                        old(self).orig_it2@,
                                        old(self).orig_it3@,
                                    );
                                    lemma_pairs_len(self.curr_it2@.skip(1), self.orig_it3@);
                                    lemma_triples_len(
                                        self.curr_it1@.skip(1),
                                        self.orig_it2@,
                                        self.orig_it3@,
                                    );
                                }
                                None
                            },
                        }
                    },
                    None => {
                        // The second origin is empty: the product is empty.
                        proof {
                            lemma_triples_len(
                                old(self).curr_it1@.skip(1),
                                old(self).orig_it2@,
                                old(self).orig_it3@,
                            );
                            lemma_triples_len(self.curr_it1@.skip(1), self.orig_it2@, self.orig_it3@);
                        }
                        None
                    },
                }
            },
            None => {
                // The first source is exhausted: terminal state.
                proof {
                    lemma_triples_len(
                        old(self).curr_it1@.skip(1),
                        old(self).orig_it2@,
                        old(self).orig_it3@,
                    );
                }
                None
            },
        }
    }

    /// Reports a cardinality estimate `(lower, upper)` for the count of
    /// tuples remaining, recomputed from the live cursors' own remaining
    /// estimates: the lower bound is their pairwise saturating product, the
    /// upper bound their pairwise checked product, degraded to `None`
    /// (unknown) on overflow, never a fault.
    ///
    /// The lower bound never exceeds the true remaining count. The upper
    /// bound is exact in the states described by [`Self::upper_exact`], in
    /// particular in a freshly constructed product.
    pub fn size_hint(&self) -> (r: (usize, Option<usize>))
        requires
            self.wf(),
        ensures
            r.0 == ({
                let p12 = if self.curr_it1@.len() * self.curr_it2@.len() <= usize::MAX {
                    self.curr_it1@.len() * self.curr_it2@.len() as int
                } else {
                    usize::MAX as int
                };
                if p12 * self.curr_it3@.len() <= usize::MAX {
                    p12 * self.curr_it3@.len()
                } else {
                    usize::MAX as int
                }
            }),
            r.1 == if self.curr_it1@.len() * self.curr_it2@.len() <= usize::MAX && self.curr_it1@.len()
                * self.curr_it2@.len() * self.curr_it3@.len() <= usize::MAX {
                Some((self.curr_it1@.len() * self.curr_it2@.len() * self.curr_it3@.len()) as usize)
            } else {
                None::<usize>
            },
            r.0 <= self.remaining().len(),
            match r.1 {
                Some(u) => self.upper_exact() ==> self.remaining().len() <= u,
                None => true,
            },
    {
        let (min1, _max1) = self.curr_it1.remaining_estimate();
        let (min2, _max2) = self.curr_it2.remaining_estimate();
        let (min3, _max3) = self.curr_it3.remaining_estimate();
        let max12 = min1.checked_mul(min2);
        let min12 = match max12 {
            Some(p) => p,
            None => usize::MAX,
        };
        let max = match max12 {
            Some(p) => p.checked_mul(min3),
            None => None,
        };
        let min = match min12.checked_mul(min3) {
            Some(p) => p,
            None => usize::MAX,
        };
        proof {
            let l1 = self.curr_it1@.len() as int;
            let l2c = self.curr_it2@.len() as int;
            let l3c = self.curr_it3@.len() as int;
            let l2o = self.orig_it2@.len() as int;
            let l3o = self.orig_it3@.len() as int;
            lemma_pairs_len(self.curr_it2@.skip(1), self.orig_it3@);
            lemma_triples_len(self.curr_it1@.skip(1), self.orig_it2@, self.orig_it3@);
            if l1 > 0 {
                if l2c > 0 {
                    assert(self.remaining().len() == l3c + (l2c - 1) * l3o + (l1 - 1) * l2o * l3o);
                    assert(l1 * l2c * l3c <= l3c + (l2c - 1) * l3o + (l1 - 1) * l2o * l3o)
                        by (nonlinear_arith)
                        requires
                            1 <= l1,
                            1 <= l2c <= l2o,
                            0 <= l3c <= l3o,
                    ;
                    assert(l1 * l2c * l3c <= self.remaining().len());
                    if self.upper_exact() {
                        assert((l2c - 1) * (l3o - l3c) == 0) by (nonlinear_arith)
                            requires
                                1 <= l2c,
                                l2c <= 1 || l3c == l3o,
                        ;
                        assert((l1 - 1) * (l2o * l3o - l2c * l3c) == 0) by (nonlinear_arith)
                            requires
                                1 <= l1,
                                l1 <= 1 || l2c * l3c == l2o * l3o,
                        ;
                        assert(l3c + (l2c - 1) * l3o + (l1 - 1) * l2o * l3o <= l1 * l2c * l3c)
                            by (nonlinear_arith)
                            requires
                                1 <= l1,
                                1 <= l2c,
                                0 <= l3c,
                                (l2c - 1) * (l3o - l3c) == 0,
                                (l1 - 1) * (l2o * l3o - l2c * l3c) == 0,
                        ;
                    }
                } else {
                    // Well-formedness: the second origin is empty, so nothing
                    // remains and every product of the lengths is zero.
                    assert(self.remaining().len() == (l1 - 1) * l2o * l3o);
                    assert((l1 - 1) * l2o * l3o == 0 && l1 * l2c * l3c == 0 && l1 * l2c == 0)
                        by (nonlinear_arith)
                        requires
                            l2c == 0,
                            l2o == 0,
                    ;
                    assert(l1 * l2c * l3c <= self.remaining().len());
                }
            } else {
                assert(l1 * l2c == 0 && l1 * l2c * l3c == 0) by (nonlinear_arith)
                    requires
                        l1 == 0,
                ;
                assert(l1 * l2c * l3c <= self.remaining().len());
            }
            // Saturation only lowers the bound further, except that a later
            // zero factor brings it back to zero, which is still sound.
            assert(l1 * l2c * l3c <= self.remaining().len());
            if l1 * l2c <= usize::MAX {
                if l1 * l2c * l3c <= usize::MAX {
                    assert(min == l1 * l2c * l3c);
                } else {
                    assert(min == usize::MAX);
                }
            } else {
                if l3c == 0 {
                    assert(min12 * min3 == 0) by (nonlinear_arith)
                        requires
                            min3 == 0,
                    ;
                    assert(min == 0);
                } else {
                    assert(min12 * min3 >= usize::MAX) by (nonlinear_arith)
                        requires
                            min12 == usize::MAX,
                            1 <= min3,
                    ;
                    assert(min == usize::MAX);
                    assert(l1 * l2c <= l1 * l2c * l3c) by (nonlinear_arith)
                        requires
                            0 <= l1,
                            0 <= l2c,
                            1 <= l3c,
                    ;
                }
            }
        }
        (min, max)
    }
}

} // verus!
