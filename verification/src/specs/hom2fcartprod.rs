//! Two-fold Cartesian product of homogeneous source sequences.

use vstd::prelude::*;
use crate::cursor::Cursor;
use crate::odometer::lemma_add_skip1;
use crate::odometer::lemma_pairs_len;
use crate::odometer::lemma_row_skip;
use crate::odometer::pairs;
use crate::odometer::row;

verus! {

/// Two-fold Cartesian product of two source sequences that are homogeneous
/// in the sense that they hold the same type of items. Tuples come out in
/// lexicographic (odometer) order, the second position varying fastest. If
/// the elements in a source repeat, the produced tuples repeat as well.
///
/// The first source is traversed exactly once and never reset, so no origin
/// copy of it is kept; the second source is reset from its origin copy each
/// time it exhausts while the first still has elements.
pub struct Hom2FCartProd<Item> {
    /// Live cursor over the first source; the most significant digit.
    pub curr_it1: Cursor<Item>,
    /// Live cursor over the second source; the least significant digit.
    pub curr_it2: Cursor<Item>,
    /// Untouched duplicate of the second source, kept for resets.
    pub orig_it2: Cursor<Item>,
}

impl<Item: Copy> Hom2FCartProd<Item> {
    /// Well-formedness: every cursor is valid, and the live second cursor
    /// never holds more elements than its origin copy.
    pub open spec fn wf(self) -> bool {
        &&& self.curr_it1.wf()
        &&& self.curr_it2.wf()
        &&& self.orig_it2.wf()
        &&& self.curr_it2@.len() <= self.orig_it2@.len()
    }

    /// The tuples still to be produced, in order: while the first source has
    /// a current element, the rest of the second source paired with it, then
    /// the full product of the remainder of the first source with the
    /// original second source.
    pub open spec fn remaining(self) -> Seq<(Item, Item)> {
        if self.curr_it1@.len() == 0 {
            Seq::empty()
        } else {
            row(self.curr_it1@[0], self.curr_it2@) + pairs(self.curr_it1@.skip(1), self.orig_it2@)
        }
    }

    /// Exactly the well-formed states in which the checked product of the
    /// live cursors' lengths does not undercount the tuples remaining, so
    /// estimate soundness holds of the upper bound: the live second cursor
    /// still full, or at most one element of the first source left. A
    /// freshly constructed product is such a state.
    pub open spec fn upper_exact(self) -> bool {
        self.curr_it1@.len() <= 1 || self.curr_it2@.len() == self.orig_it2@.len()
    }

    /// Creates a new [`Hom2FCartProd`] from two source cursors. Performs no
    /// enumeration: the whole product of the two sources is still remaining.
    pub fn new(it1: Cursor<Item>, it2: Cursor<Item>) -> (r: Self)
        requires
            it1.wf(),
            it2.wf(),
        ensures
            r.wf(),
            r.upper_exact(),
            r.remaining() == pairs(it1@, it2@),
    {
        let r = Hom2FCartProd { curr_it1: it1, curr_it2: it2.duplicate(), orig_it2: it2 };
        proof {
            assert(r.remaining() == pairs(it1@, it2@));
        }
        r
    }

    /// Produces the next tuple in lexicographic odometer order, or signals
    /// exhaustion with `None` once every combination has been produced.
    ///
    /// Exhaustion is permanent: `None` comes exactly when no tuple remains,
    /// and afterwards no tuple ever remains again, so every subsequent call
    /// also returns `None`.
    pub fn next(&mut self) -> (r: Option<[Item; 2]>)
        requires
            old(self).wf(),
        ensures
            final(self).wf(),
            match r {
                Some(t) => {
                    &&& old(self).remaining().len() > 0
                    &&& t[0] == old(self).remaining()[0].0
                    &&& t[1] == old(self).remaining()[0].1
                    &&& final(self).remaining() == old(self).remaining().skip(1)
                },
                None => {
                    &&& old(self).remaining().len() == 0
                    &&& final(self).remaining().len() == 0
                },
            },
    {
        let el1 = match self.curr_it1.peek() {
            Some(x) => x,
            None => {
                return None;
            },
        };
        match self.curr_it2.pull_next() {
            Some(el2) => {
                proof {
                    lemma_add_skip1(
                        row(el1, old(self).curr_it2@),
                        pairs(old(self).curr_it1@.skip(1), old(self).orig_it2@),
                    );
                    lemma_row_skip(el1, old(self).curr_it2@);
                }
                Some([el1, el2])
            },
            None => {
                // The second source overflowed: carry into the first.
                let _ = self.curr_it1.pull_next();
                match self.curr_it1.peek() {
                    Some(el1b) => {
                        self.curr_it2 = self.orig_it2.duplicate();
                        match self.curr_it2.pull_next() {
                            Some(el2) => {
                                proof {
                                    let tail = old(self).curr_it1@.skip(1);
                                    assert(old(self).remaining() == pairs(
                                        tail,
                                        old(self).orig_it2@,
                                    ));
                                    lemma_add_skip1(
                                        row(el1b, old(self).orig_it2@),
                                        pairs(tail.skip(1), old(self).orig_it2@),
                                    );
                                    lemma_row_skip(el1b, old(self).orig_it2@);
                                }
                                Some([el1b, el2])
                            },
                            None => {
                                proof {
                                    lemma_pairs_len(
                                        old(self).curr_it1@.skip(1),
                                        old(self).orig_it2@,
                                    );
                                    lemma_pairs_len(self.curr_it1@.skip(1), self.orig_it2@);
                                }
                                None
                            },
                        }
                    },
                    None => {
                        proof {
                            lemma_pairs_len(old(self).curr_it1@.skip(1), old(self).orig_it2@);
                        }
                        None
                    },
                }
            },
        }
    }

    /// Reports a cardinality estimate `(lower, upper)` for the count of
    /// tuples remaining, recomputed from the live cursors' own remaining
    /// estimates: the lower bound is their saturating product, the upper
    /// bound their checked product, degraded to `None` (unknown) on
    /// overflow, never a fault.
    ///
    /// The lower bound never exceeds the true remaining count. The upper
    /// bound is exact in the states described by [`Self::upper_exact`], in
    /// particular in a freshly constructed product.
    pub fn size_hint(&self) -> (r: (usize, Option<usize>))
        requires
            self.wf(),
        ensures
            r.0 == if self.curr_it1@.len() * self.curr_it2@.len() <= usize::MAX {
                self.curr_it1@.len() * self.curr_it2@.len() as int
            } else {
                usize::MAX as int
            },
            r.1 == if self.curr_it1@.len() * self.curr_it2@.len() <= usize::MAX {
                Some((self.curr_it1@.len() * self.curr_it2@.len()) as usize)
            } else {
                None::<usize>
            },
            r.0 <= self.remaining().len(),
            match r.1 {
                Some(u) => self.upper_exact() ==> self.remaining().len() <= u,
                None => true,
            },
    {
        let (min1, _max1) = self.curr_it1.remaining_estimate();
        let (min2, _max2) = self.curr_it2.remaining_estimate();
        let max = min1.checked_mul(min2);
        let min = match max {
            Some(p) => p,
            None => usize::MAX,
        };
        proof {
            let l1 = self.curr_it1@.len() as int;
            let l2c = self.curr_it2@.len() as int;
            let l2o = self.orig_it2@.len() as int;
            lemma_pairs_len(self.curr_it1@.skip(1), self.orig_it2@);
            if l1 > 0 {
                assert(self.remaining().len() == l2c + (l1 - 1) * l2o);
                assert(l1 * l2c <= l2c + (l1 - 1) * l2o) by (nonlinear_arith)
                    requires
                        1 <= l1,
                        0 <= l2c <= l2o,
                ;
                if l1 <= 1 || l2c == l2o {
                    assert(l2c + (l1 - 1) * l2o <= l1 * l2c) by (nonlinear_arith)
                        requires
                            1 <= l1,
                            0 <= l2c <= l2o,
                            l1 <= 1 || l2c == l2o,
                    ;
                }
            } else {
                assert(l1 * l2c == 0) by (nonlinear_arith)
                    requires
                        l1 == 0,
                ;
            }
        }
        (min, max)
    }
}

} // verus!
