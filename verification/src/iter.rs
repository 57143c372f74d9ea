//! Forward iteration over the rows.
//!
//! Both iterators walk the offset metadata and the backing buffer in
//! lockstep.  Each step computes the front row's length from the next
//! offset (or from the buffer end for the final row), splits the
//! remaining buffer there, hands out the front part and keeps the rest.
//! The read iterator keeps shared views; the mutable iterator keeps an
//! owned exclusive view, so the splits it hands out are disjoint and may
//! be mutated freely.

use vstd::prelude::*;
use crate::model::{tail_wf, tail_rows, lemma_tail_advance};

verus! {

/// A read-only iterator over the rows: the not-yet-yielded suffix of the
/// backing buffer, and the offsets of the rows that remain.
pub struct Iter<'a, Element> {
    pub(crate) elements: &'a [Element],
    pub(crate) indices: &'a [usize],
}

impl<'a, Element> Iter<'a, Element> {
    /// The rows this iterator has yet to yield, in order.
    pub open(crate) spec fn remaining(self) -> Seq<Seq<Element>> {
        tail_rows(self.elements@, self.indices@)
    }

    /// The iterator's invariant: the remaining offsets delimit rows that
    /// fit in the remaining buffer, and an exhausted iterator holds no
    /// stray elements.
    pub open(crate) spec fn wf(self) -> bool {
        &&& tail_wf(self.elements@, self.indices@)
        &&& self.indices@.len() == 0 ==> self.elements@.len() == 0
    }

    /// Yields the next row, or `None` when every row has been yielded.
    pub fn next(&mut self) -> (r: Option<&'a [Element]>)
        requires
            old(self).wf(),
        ensures
            final(self).wf(),
            r is Some <==> old(self).remaining().len() > 0,
            r is None ==> *final(self) == *old(self),
            r is Some ==> {
                &&& r.unwrap()@ == old(self).remaining()[0]
                &&& final(self).remaining() == old(self).remaining().skip(1)
            },
    {
        if self.indices.len() == 0 {
            return None;
        }

        let (now_is, rest_is) = self.indices.split_at(1);

        let now_len = if rest_is.len() == 0 {
            self.elements.len()
        } else {
            proof {
                assert(self.indices@[0] <= self.indices@[1]);
                assert(self.indices@[1] <= self.indices@[self.indices@.len() - 1]);
            }
            rest_is[0] - now_is[0]
        };

        let (now_el, rest_el) = self.elements.split_at(now_len);

        proof {
            if rest_is@.len() > 0 {
                lemma_tail_advance(self.elements@, self.indices@);
                assert(rest_el@ =~= self.elements@.skip(self.indices@[1] - self.indices@[0]));
            } else {
                assert(old(self).remaining().len() == 1);
                assert(now_el@ =~= old(self).remaining()[0]);
                assert(tail_rows(rest_el@, rest_is@) =~= old(self).remaining().skip(1));
            }
        }

        self.indices = rest_is;
        self.elements = rest_el;

        Some(now_el)
    }
}

/// A mutable iterator over the rows: an owned exclusive view of the
/// not-yet-yielded suffix of the backing buffer, and the offsets of the
/// rows that remain.  Each yielded row view is disjoint from the
/// retained tail, so rows may be mutated in place, one after another.
pub struct IterMut<'a, Element> {
    pub(crate) elements: Option<&'a mut [Element]>,
    pub(crate) indices: &'a [usize],
}

impl<'a, Element> IterMut<'a, Element> {
    /// The exclusive view of the remaining suffix of the backing
    /// buffer, as a handle whose final contents contracts can speak of.
    pub open(crate) spec fn buf(self) -> Option<&'a mut [Element]> {
        self.elements
    }

    /// The remaining suffix of the backing buffer, as it stands now.
    pub open(crate) spec fn cur_elems(self) -> Seq<Element> {
        self.elements.unwrap()@
    }

    /// The rows this iterator has yet to yield, with their current
    /// contents.
    pub open(crate) spec fn remaining(self) -> Seq<Seq<Element>> {
        tail_rows(self.cur_elems(), self.indices@)
    }

    /// The iterator's invariant: the exclusive buffer view is present,
    /// the remaining offsets delimit rows that fit in it, and an
    /// exhausted iterator holds no stray elements.
    pub open(crate) spec fn wf(self) -> bool {
        &&& self.elements is Some
        &&& tail_wf(self.cur_elems(), self.indices@)
        &&& self.indices@.len() == 0 ==> self.cur_elems().len() == 0
    }

    /// Yields an exclusive view of the next row, or `None` when every
    /// row has been yielded.
    ///
    /// The yielded view and the retained tail are two halves of one
    /// split, so whatever the caller writes through the view lands in
    /// this row alone: the last clause says that the buffer suffix held
    /// before the call ends up as the yielded row's final contents
    /// followed by the tail's final contents.
    pub fn next(&mut self) -> (r: Option<&'a mut [Element]>)
        requires
            old(self).wf(),
        ensures
            final(self).wf(),
            r is Some <==> old(self).remaining().len() > 0,
            r is None ==> *final(self) == *old(self),
            r is Some ==> {
                &&& r.unwrap()@ == old(self).remaining()[0]
                &&& final(self).remaining() == old(self).remaining().skip(1)
                &&& final(old(self).buf().unwrap())@
                    == final(r.unwrap())@ + final(final(self).buf().unwrap())@
            },
    {
        if self.indices.len() == 0 {
            return None;
        }

        let elems = self.elements.take().unwrap();

        let (now_is, rest_is) = self.indices.split_at(1);

        let now_len = if rest_is.len() == 0 {
            elems.len()
        } else {
            proof {
                assert(self.indices@[0] <= self.indices@[1]);
                assert(self.indices@[1] <= self.indices@[self.indices@.len() - 1]);
            }
            rest_is[0] - now_is[0]
        };

        let (now_el, rest_el) = elems.split_at_mut(now_len);

        proof {
            if rest_is@.len() > 0 {
                lemma_tail_advance(old(self).cur_elems(), old(self).indices@);
                assert(rest_el@ =~= old(self).cur_elems().skip(
                    old(self).indices@[1] - old(self).indices@[0]));
            } else {
                assert(old(self).remaining().len() == 1);
                assert(now_el@ =~= old(self).remaining()[0]);
                assert(tail_rows(rest_el@, rest_is@) =~= old(self).remaining().skip(1));
            }
        }

        self.indices = rest_is;
        self.elements = Some(rest_el);

        Some(now_el)
    }
}

} // verus!
