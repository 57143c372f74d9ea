//! The storage core: the backing buffer, the offset metadata, and the
//! operations on them.

use vstd::prelude::*;
use vstd::slice::slice_subrange;
use crate::model::{tail_wf, tail_rows, tail_row_end, seq_cloned, lemma_tail_push, lemma_tail_update, lemma_tail_rows_flatten};
use crate::iter::{Iter, IterMut};
use crate::offsets::{OffsetStore, stored_offsets};

verus! {

/// A sequence of variable-length rows of `Element`, all stored in one
/// contiguous buffer.  `indices[k]` is the position in `elements` where
/// row `k` starts; row `k` ends where row `k + 1` starts, and the last
/// row ends at the end of the buffer.
pub struct JaggedArray<Element> {
    pub(crate) elements: Vec<Element>,
    pub(crate) indices: OffsetStore,
}

impl<Element> JaggedArray<Element> {
    /// The offsets, as a sequence.
    pub open(crate) spec fn inds(self) -> Seq<usize> {
        stored_offsets(self.indices)
    }

    /// The backing buffer, as a sequence.
    pub open(crate) spec fn elems(self) -> Seq<Element> {
        self.elements@
    }

    /// The internal invariant: offsets are non-decreasing, start at zero,
    /// delimit rows that fit in the buffer, and every element belongs to
    /// some row.
    pub open(crate) spec fn wf(self) -> bool {
        &&& tail_wf(self.elems(), self.inds())
        &&& self.inds().len() > 0 ==> self.inds()[0] == 0
        &&& self.inds().len() == 0 ==> self.elems().len() == 0
    }

    /// The abstract value of the container: its rows, in order.
    pub open(crate) spec fn rows(self) -> Seq<Seq<Element>> {
        tail_rows(self.elems(), self.inds())
    }

    /// Returns an empty container.
    pub fn new() -> (r: Self)
        ensures
            r.wf(),
            r.rows() == Seq::<Seq<Element>>::empty(),
    {
        let r = JaggedArray { elements: Vec::new(), indices: OffsetStore::new() };
        proof {
            assert(r.rows() =~= Seq::<Seq<Element>>::empty());
        }
        r
    }

    /// The number of rows.
    pub fn len(&self) -> (r: usize)
        requires
            self.wf(),
        ensures
            r == self.rows().len(),
    {
        self.indices.as_slice().len()
    }

    /// Where row `n` starts in the backing buffer, and how long it is:
    /// the row runs to the next offset if one exists, else to the end of
    /// the buffer.  `None` when `n` is out of range.
    fn get_index_len(&self, n: usize) -> (r: Option<(usize, usize)>)
        requires
            self.wf(),
        ensures
            r is Some <==> n < self.rows().len(),
            r is Some ==> {
                &&& r.unwrap().0 == self.inds()[n as int]
                &&& r.unwrap().0 + r.unwrap().1 == tail_row_end(self.elems(), self.inds(), n as int)
                &&& r.unwrap().0 + r.unwrap().1 <= usize::MAX
                &&& r.unwrap().1 == self.rows()[n as int].len()
            },
    {
        let inds = self.indices.as_slice();
        if n >= inds.len() {
            return None;
        }
        let start = inds[n];
        let end = if n + 1 < inds.len() {
            inds[n + 1]
        } else {
            self.elements.len()
        };
        proof {
            assert(self.inds()[n as int] <= self.inds()[self.inds().len() - 1]);
        }
        Some((start, end - start))
    }

    /// An immutable view of row `n`, or `None` when `n` is out of range.
    pub fn get(&self, n: usize) -> (r: Option<&[Element]>)
        requires
            self.wf(),
        ensures
            r is Some <==> n < self.rows().len(),
            r is Some ==> r.unwrap()@ == self.rows()[n as int],
    {
        match self.get_index_len(n) {
            Some((index, len)) => Some(slice_subrange(self.elements.as_slice(), index, index + len)),
            None => None,
        }
    }

    /// An exclusive view of row `n`, or `None` when `n` is out of range.
    ///
    /// The view covers row `n` alone, so whatever the caller writes
    /// through it lands in that row and in no other: the container's
    /// final buffer is the part before the row, then the view's final
    /// contents, then the part after the row.  [`JaggedArray::lemma_row_update`]
    /// turns that buffer-level fact into the row-level one: row `n`
    /// replaced, every other row untouched.
    pub fn get_mut(&mut self, n: usize) -> (r: Option<&mut [Element]>)
        requires
            old(self).wf(),
        ensures
            r is Some <==> n < old(self).rows().len(),
            r is None ==> *final(self) == *old(self),
            r is Some ==> {
                &&& r.unwrap()@ == old(self).rows()[n as int]
                &&& final(self).inds() == old(self).inds()
                &&& final(self).elems() =~= old(self).elems().subrange(
                    0,
                    old(self).inds()[n as int] as int,
                ) + final(r.unwrap())@ + old(self).elems().skip(
                    tail_row_end(old(self).elems(), old(self).inds(), n as int),
                )
            },
    {
        // An explicit if-let rather than `.map`, so the borrow of
        // `self.elements` is not still pinned by the closure.
        if let Some((index, len)) = self.get_index_len(n) {
            let (front, rest) = self.elements.as_mut_slice().split_at_mut(index);
            let (row, back) = rest.split_at_mut(len);
            proof {
                let ghost oldself = *old(self);
                assert(front@ =~= oldself.elems().subrange(0, index as int));
                assert(back@ =~= oldself.elems().skip(
                    tail_row_end(oldself.elems(), oldself.inds(), n as int)));
                assert(row@ =~= oldself.rows()[n as int]);
            }
            Some(row)
        } else {
            None
        }
    }

    /// Replacing the contents of one row, at unchanged length, touches
    /// no other row.  If container `b` holds `a`'s buffer with row `n`'s
    /// contents swapped for `newrow` of the same length, and `a`'s
    /// offsets, then `b`'s rows are `a`'s with row `n` alone replaced.
    ///
    /// Combined with what [`JaggedArray::get_mut`] and
    /// [`IterMut::next`] say about the final buffer, this is the
    /// disjointness of row mutation: writes through one row's view
    /// never alter another row.
    pub proof fn lemma_row_update(a: Self, b: Self, n: int, newrow: Seq<Element>)
        requires
            a.wf(),
            0 <= n < a.rows().len(),
            newrow.len() == a.rows()[n].len(),
            b.inds() == a.inds(),
            b.elems() == a.elems().subrange(0, a.inds()[n] as int) + newrow + a.elems().skip(
                tail_row_end(a.elems(), a.inds(), n),
            ),
        ensures
            b.wf(),
            b.rows() == a.rows().update(n, newrow),
    {
        lemma_tail_update(a.elems(), a.inds(), n, newrow);
    }

    /// The backing buffer is exactly the concatenation of the rows in
    /// row order: storing rows and reading them back, by index or by
    /// iteration, loses nothing and invents nothing.
    pub proof fn lemma_rows_flatten(self)
        requires
            self.wf(),
        ensures
            self.rows().flatten() == self.elems(),
    {
        lemma_tail_rows_flatten(self.elems(), self.inds());
    }

    /// Returns a fresh read-only iterator over the rows.
    pub fn iter(&self) -> (it: Iter<Element>)
        requires
            self.wf(),
        ensures
            it.wf(),
            it.remaining() == self.rows(),
    {
        Iter { elements: self.elements.as_slice(), indices: self.indices.as_slice() }
    }

    /// Returns a mutable iterator over the rows.
    ///
    /// The iterator takes the whole backing buffer with it; the last
    /// clause says that whatever its row views are finally left holding
    /// is what the container ends up holding.
    pub fn iter_mut(&mut self) -> (it: IterMut<Element>)
        requires
            old(self).wf(),
        ensures
            it.wf(),
            it.remaining() == old(self).rows(),
            final(self).inds() == old(self).inds(),
            final(self).elems() == final(it.buf().unwrap())@,
    {
        IterMut {
            elements: Some(self.elements.as_mut_slice()),
            indices: self.indices.as_slice(),
        }
    }

    /// Returns a container holding `vec` as its single row, reusing the
    /// vector as the backing buffer.
    pub fn singleton(vec: Vec<Element>) -> (r: Self)
        ensures
            r.wf(),
            r.rows() == seq![vec@],
    {
        let mut indices = OffsetStore::new();
        indices.push(0);
        let r = JaggedArray { elements: vec, indices };
        proof {
            assert(r.rows() =~~= seq![vec@]);
        }
        r
    }
}

impl<Element: Clone> JaggedArray<Element> {
    /// Appends one row: its starting offset is the current buffer length,
    /// and the row's contents are cloned onto the end of the buffer.
    pub fn push(&mut self, slice: &[Element])
        requires
            old(self).wf(),
        ensures
            final(self).wf(),
            final(self).rows().len() == old(self).rows().len() + 1,
            forall|k: int|
                0 <= k < old(self).rows().len()
                    ==> final(self).rows()[k] == old(self).rows()[k],
            seq_cloned(slice@, final(self).rows().last()),
    {
        let new_index = self.elements.len();
        self.indices.push(new_index);
        self.elements.extend_from_slice(slice);
        proof {
            let added = self.elems().skip(old(self).elems().len() as int);
            assert(self.elems() =~= old(self).elems() + added);
            lemma_tail_push(old(self).elems(), old(self).inds(), added, new_index);
        }
    }

    /// Appends many rows in order.  Each row's starting offset is the
    /// running total of elements stored so far, carried across the
    /// loop rather than re-derived from the offsets for every row.
    pub fn extend(&mut self, rows: &[Vec<Element>])
        requires
            old(self).wf(),
        ensures
            final(self).wf(),
            final(self).rows().len() == old(self).rows().len() + rows@.len(),
            forall|k: int|
                0 <= k < old(self).rows().len()
                    ==> final(self).rows()[k] == old(self).rows()[k],
            forall|j: int|
                0 <= j < rows@.len() ==> seq_cloned(
                    rows@[j]@,
                    #[trigger] final(self).rows()[old(self).rows().len() + j],
                ),
    {
        let mut total_length: usize = self.elements.len();
        let mut i: usize = 0;
        while i < rows.len()
            invariant
                self.wf(),
                i <= rows@.len(),
                total_length == self.elems().len(),
                self.rows().len() == old(self).rows().len() + i,
                forall|k: int|
                    0 <= k < old(self).rows().len()
                        ==> self.rows()[k] == old(self).rows()[k],
                forall|j: int|
                    0 <= j < i ==> seq_cloned(
                        rows@[j]@,
                        #[trigger] self.rows()[old(self).rows().len() + j],
                    ),
            decreases rows@.len() - i,
        {
            let ghost prev = *self;
            let slice = rows[i].as_slice();
            self.indices.push(total_length);
            self.elements.extend_from_slice(slice);
            proof {
                let added = self.elems().skip(prev.elems().len() as int);
                assert(self.elems() =~= prev.elems() + added);
                lemma_tail_push(prev.elems(), prev.inds(), added, total_length);
            }
            total_length = self.elements.len();
            i += 1;
        }
    }

    /// Builds a container from the given rows: an empty container
    /// extended with all of them.
    pub fn from_rows(rows: &[Vec<Element>]) -> (r: Self)
        ensures
            r.wf(),
            r.rows().len() == rows@.len(),
            forall|j: int| 0 <= j < rows@.len() ==> seq_cloned(rows@[j]@, #[trigger] r.rows()[j]),
    {
        let mut out = Self::new();
        out.extend(rows);
        proof {
            assert forall|j: int| 0 <= j < rows@.len() implies seq_cloned(
                rows@[j]@,
                #[trigger] out.rows()[j],
            ) by {
                assert(seq_cloned(rows@[j]@, out.rows()[0 + j]));
            }
        }
        out
    }
}

impl<Element> Default for JaggedArray<Element> {
    /// Returns an empty container, as [`JaggedArray::new`] does.
    fn default() -> (r: Self)
        ensures
            r.wf(),
            r.rows() == Seq::<Seq<Element>>::empty(),
    {
        Self::new()
    }
}

} // verus!
