//! The mathematical model of the container: a flat element sequence is
//! sliced into rows by a non-decreasing sequence of starting offsets.
//!
//! The model is phrased over a *tail* of the structure — a suffix of the
//! element buffer together with the offsets of the rows that remain — so
//! that the same definitions describe both a whole container and the state
//! of a partly consumed iterator.  In a tail, offsets keep their absolute
//! values; row boundaries are found by subtracting the first offset.

use vstd::prelude::*;

verus! {

/// The offsets are non-decreasing and the rows they delimit fit inside
/// the remaining `elems` buffer.
pub open spec fn tail_wf<E>(elems: Seq<E>, inds: Seq<usize>) -> bool {
    &&& forall|j: int, k: int|
        0 <= j <= k < inds.len() ==> #[trigger] inds[j] <= #[trigger] inds[k]
    &&& inds.len() > 0 ==> inds[inds.len() - 1] - inds[0] <= elems.len()
}

/// Where row `k` of the tail ends, relative to the start of `elems`:
/// at the next offset if there is one, else at the end of the buffer.
pub open spec fn tail_row_end<E>(elems: Seq<E>, inds: Seq<usize>, k: int) -> int {
    if k + 1 < inds.len() {
        inds[k + 1] - inds[0]
    } else {
        elems.len() as int
    }
}

/// The contents of row `k` of the tail.
pub open spec fn tail_row<E>(elems: Seq<E>, inds: Seq<usize>, k: int) -> Seq<E> {
    elems.subrange(inds[k] - inds[0], tail_row_end(elems, inds, k))
}

/// The rows of the tail, in order.
pub open spec fn tail_rows<E>(elems: Seq<E>, inds: Seq<usize>) -> Seq<Seq<E>> {
    Seq::new(inds.len(), |k: int| tail_row(elems, inds, k))
}

/// `b` could be obtained by cloning each element of `a` in order.
pub open spec fn seq_cloned<E: Clone>(a: Seq<E>, b: Seq<E>) -> bool {
    &&& a.len() == b.len()
    &&& forall|i: int| 0 <= i < a.len() ==> cloned::<E>(a[i], #[trigger] b[i])
}

/// Appending a row at the end: the new offset is the old buffer length,
/// the new elements follow the old ones.  Every old row keeps its
/// contents and the appended elements form the one new row.
pub proof fn lemma_tail_push<E>(elems: Seq<E>, inds: Seq<usize>, added: Seq<E>, new_ind: usize)
    requires
        tail_wf(elems, inds),
        inds.len() > 0 ==> inds[0] == 0,
        inds.len() == 0 ==> elems.len() == 0,
        new_ind == elems.len(),
    ensures
        tail_wf(elems + added, inds.push(new_ind)),
        inds.push(new_ind)[0] == 0,
        tail_rows(elems + added, inds.push(new_ind)) == tail_rows(elems, inds).push(added),
{
    let elems2 = elems + added;
    let inds2 = inds.push(new_ind);
    assert forall|j: int, k: int| 0 <= j <= k < inds2.len() implies inds2[j] <= inds2[k] by {
        if k < inds.len() {
            assert(inds[j] <= inds[k]);
        } else if j < inds.len() {
            assert(inds[j] <= inds[inds.len() - 1]);
        }
    }
    assert forall|k: int| 0 <= k < inds2.len() implies
        tail_row(elems2, inds2, k) == tail_rows(elems, inds).push(added)[k] by {
        if k < inds.len() {
            assert(tail_row(elems2, inds2, k) =~= tail_row(elems, inds, k));
        } else {
            assert(tail_row(elems2, inds2, k) =~= added);
        }
    }
    assert(tail_rows(elems2, inds2) =~= tail_rows(elems, inds).push(added));
}

/// Replacing the contents of one row with new contents of the same
/// length touches no other row: the buffer keeps its length and every
/// other row keeps its contents.  Offsets here are absolute, as in a
/// whole container, whose first offset is zero.
pub proof fn lemma_tail_update<E>(elems: Seq<E>, inds: Seq<usize>, n: int, newrow: Seq<E>)
    requires
        tail_wf(elems, inds),
        inds.len() > 0 ==> inds[0] == 0,
        0 <= n < inds.len(),
        newrow.len() == tail_row(elems, inds, n).len(),
    ensures
        ({
            let elems2 = elems.subrange(0, inds[n] as int) + newrow
                + elems.skip(tail_row_end(elems, inds, n));
            &&& elems2.len() == elems.len()
            &&& tail_wf(elems2, inds)
            &&& tail_rows(elems2, inds) == tail_rows(elems, inds).update(n, newrow)
        }),
{
    let start = inds[n] as int;
    let end = tail_row_end(elems, inds, n);
    if n + 1 < inds.len() {
        assert(inds[n] <= inds[n + 1]);
        assert(inds[n + 1] <= inds[inds.len() - 1]);
    } else {
        assert(inds[n] <= inds[inds.len() - 1]);
    }
    let elems2 = elems.subrange(0, start) + newrow + elems.skip(end);
    assert(newrow.len() == end - start);
    assert(elems2.len() == elems.len());
    assert forall|k: int| 0 <= k < inds.len() implies
        tail_row(elems2, inds, k) == tail_rows(elems, inds).update(n, newrow)[k] by {
        if k == n {
            assert(tail_row(elems2, inds, k) =~= newrow);
        } else if k < n {
            assert(inds[k] <= inds[k + 1]);
            assert(inds[k + 1] <= inds[n]);
            assert(tail_row(elems2, inds, k) =~= tail_row(elems, inds, k));
        } else {
            assert(inds[n + 1] <= inds[k]);
            if k + 1 < inds.len() {
                assert(inds[k] <= inds[k + 1]);
                assert(inds[k + 1] <= inds[inds.len() - 1]);
            } else {
                assert(inds[k] <= inds[inds.len() - 1]);
            }
            assert(tail_row(elems2, inds, k) =~= tail_row(elems, inds, k));
        }
    }
    assert(tail_rows(elems2, inds) =~= tail_rows(elems, inds).update(n, newrow));
}

/// The rows of a tail, concatenated in order, are exactly the tail's
/// buffer: slicing loses nothing and invents nothing.
pub proof fn lemma_tail_rows_flatten<E>(elems: Seq<E>, inds: Seq<usize>)
    requires
        tail_wf(elems, inds),
        inds.len() == 0 ==> elems.len() == 0,
    ensures
        tail_rows(elems, inds).flatten() == elems,
    decreases inds.len(),
{
    let rows = tail_rows(elems, inds);
    if inds.len() == 0 {
        assert(rows =~= Seq::<Seq<E>>::empty());
        assert(rows.flatten() =~= elems);
    } else {
        let cut = if inds.len() > 1 {
            inds[1] - inds[0]
        } else {
            elems.len() as int
        };
        let elems2 = elems.skip(cut);
        let inds2 = inds.skip(1);
        if inds.len() > 1 {
            lemma_tail_advance(elems, inds);
        } else {
            assert(elems2.len() == 0);
            assert(tail_rows(elems2, inds2) =~= rows.skip(1));
        }
        lemma_tail_rows_flatten(elems2, inds2);
        assert(rows.drop_first() == rows.skip(1));
        assert(rows.first() == elems.subrange(0, cut));
        assert(rows.flatten() == elems.subrange(0, cut) + elems2);
        assert(elems.subrange(0, cut) + elems2 =~= elems);
    }
}

/// A well-formed tail stays well-formed when its first row is dropped:
/// the buffer loses exactly that row's elements and the offsets lose
/// their head.
pub proof fn lemma_tail_advance<E>(elems: Seq<E>, inds: Seq<usize>)
    requires
        tail_wf(elems, inds),
        inds.len() > 1,
    ensures
        tail_wf(elems.skip(inds[1] - inds[0]), inds.skip(1)),
        tail_rows(elems.skip(inds[1] - inds[0]), inds.skip(1))
            == tail_rows(elems, inds).skip(1),
{
    let cut = inds[1] - inds[0];
    let elems2 = elems.skip(cut);
    let inds2 = inds.skip(1);
    assert(tail_wf(elems2, inds2));
    assert forall|k: int| 0 <= k < inds2.len() implies
        tail_row(elems2, inds2, k) == tail_rows(elems, inds).skip(1)[k] by {
        assert(tail_rows(elems, inds).skip(1)[k] == tail_row(elems, inds, k + 1));
        assert(tail_row(elems2, inds2, k) =~= tail_row(elems, inds, k + 1));
    }
    assert(tail_rows(elems2, inds2) =~= tail_rows(elems, inds).skip(1));
}

} // verus!
