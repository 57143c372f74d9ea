//! Properties that relate several operations to one another.

use vstd::prelude::*;

verus! {

/// The rows of a container after appending each row of `rs`, one at a
/// time and in order, to a container whose rows are `init`.  This is
/// the fold of what [`crate::JaggedArray::push`] does to the rows view.
pub open spec fn rows_after_pushes<E>(init: Seq<Seq<E>>, rs: Seq<Seq<E>>) -> Seq<Seq<E>>
    decreases rs.len(),
{
    if rs.len() == 0 {
        init
    } else {
        rows_after_pushes(init.push(rs[0]), rs.skip(1))
    }
}

/// Building by repeated `push` is observably the same as one bulk
/// `extend` with the same rows in the same order: appending the rows of
/// `rs` one at a time leaves exactly the rows `init + rs`, which is
/// what [`crate::JaggedArray::extend`] produces in one call.
pub proof fn lemma_pushes_equal_extend<E>(init: Seq<Seq<E>>, rs: Seq<Seq<E>>)
    ensures
        rows_after_pushes(init, rs) == init + rs,
    decreases rs.len(),
{
    if rs.len() == 0 {
        assert(init + rs =~= init);
    } else {
        lemma_pushes_equal_extend(init.push(rs[0]), rs.skip(1));
        assert(init.push(rs[0]) + rs.skip(1) =~= init + rs);
    }
}

/// One step of iteration, seen on the remaining-rows view.
///
/// A fresh iterator's remaining rows are the container's rows, and each
/// yield hands out the front of what remains and keeps the rest:
/// after `k` yields the remainder is `rows.skip(k)`.  This lemma says
/// the `k`-th yield is then row `k` itself — the same content random
/// access returns for index `k` — and that the remainder advances to
/// `rows.skip(k + 1)`.  Unrolled from the first row to the last, the
/// yields are exactly the container's rows, in order: iteration reads
/// back precisely what construction stored.
pub proof fn lemma_iteration_step<E>(rows: Seq<Seq<E>>, k: int)
    requires
        0 <= k < rows.len(),
    ensures
        rows.skip(k)[0] == rows[k],
        rows.skip(k).skip(1) == rows.skip(k + 1),
{
    assert(rows.skip(k).skip(1) =~= rows.skip(k + 1));
}

} // verus!
