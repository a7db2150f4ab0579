//! The source-sequence abstraction that the product iterators consume.
//!
//! A [`Cursor`] is a finite homogeneous sequence together with a position: it
//! supports pulling the next item, peeking the next item without consuming
//! it, duplicating itself into an independent cursor positioned at the same
//! point, and reporting an element-count estimate of what remains.

use vstd::prelude::*;

verus! {

/// A finite source sequence of items, consumed front to back.
///
/// The view `self@` is the sequence of items still to be pulled, in order.
pub struct Cursor<Item> {
    items: Vec<Item>,
    pos: usize,
}

impl<Item> View for Cursor<Item> {
    type V = Seq<Item>;

    /// The items still to be pulled, in order.
    closed spec fn view(&self) -> Seq<Item> {
        self.items@.skip(self.pos as int)
    }
}

impl<Item: Copy> Cursor<Item> {
    /// The position never runs past the end of the backing storage.
    pub closed spec fn wf(self) -> bool {
        self.pos <= self.items.len()
    }

    /// A fresh cursor positioned at the start of `items`.
    pub fn new(items: Vec<Item>) -> (r: Self)
        ensures
            r.wf(),
            r@ == items@,
    {
        let r = Cursor { items, pos: 0 };
        proof {
            assert(r@ =~= r.items@);
        }
        r
    }

    /// Returns the next item without consuming it, or `None` once exhausted.
    pub fn peek(&self) -> (r: Option<Item>)
        requires
            self.wf(),
        ensures
            match r {
                Some(x) => self@.len() > 0 && x == self@[0],
                None => self@.len() == 0,
            },
    {
        if self.pos < self.items.len() {
            Some(self.items[self.pos])
        } else {
            None
        }
    }

    /// Consumes and returns the next item, or `None` once exhausted.
    pub fn pull_next(&mut self) -> (r: Option<Item>)
        requires
            old(self).wf(),
        ensures
            final(self).wf(),
            match r {
                Some(x) => {
                    &&& old(self)@.len() > 0
                    &&& x == old(self)@[0]
                    &&& final(self)@ == old(self)@.skip(1)
                },
                None => {
                    &&& old(self)@.len() == 0
                    &&& final(self)@ == old(self)@
                },
            },
    {
        if self.pos < self.items.len() {
            let x = self.items[self.pos];
            self.pos = self.pos + 1;
            proof {
                assert(self@ =~= old(self)@.skip(1));
            }
            Some(x)
        } else {
            None
        }
    }

    /// Returns an independent cursor positioned exactly where `self` is.
    pub fn duplicate(&self) -> (r: Self)
        requires
            self.wf(),
        ensures
            r.wf(),
            r@ == self@,
    {
        let mut items: Vec<Item> = Vec::new();
        let mut i: usize = self.pos;
        while i < self.items.len()
            invariant
                self.wf(),
                self.pos <= i <= self.items.len(),
                items@ == self.items@.subrange(self.pos as int, i as int),
            decreases self.items.len() - i,
        {
            items.push(self.items[i]);
            proof {
                assert(items@ =~= self.items@.subrange(self.pos as int, i + 1 as int));
            }
            i = i + 1;
        }
        let r = Cursor { items, pos: 0 };
        proof {
            assert(r@ =~= self@);
        }
        r
    }

    /// A best-effort element-count estimate of what remains. For this finite,
    /// fully materialized sequence the estimate is exact: the lower bound and
    /// the upper bound both equal the number of items left.
    pub fn remaining_estimate(&self) -> (r: (usize, Option<usize>))
        requires
            self.wf(),
        ensures
            r.0 == self@.len(),
            r.1 == Some(r.0),
    {
        let n: usize = self.items.len() - self.pos;
        (n, Some(n))
    }
}

} // verus!
