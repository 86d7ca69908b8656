//! The sparse rating store, backed by a compressed sparse row matrix of the
//! `sprs` crate with fixed-point `i64` ratings.
//!
//! The backing matrix and its row vectors are opaque here; their contents
//! are named by the spec functions `store_rows`, `store_cols`, `row_entries`
//! and `row_dim`, and every method the library relies on goes through a
//! wrapper below whose contract states, over those names, what the `sprs`
//! source shows.

use vstd::prelude::*;

use sprs::CsMat;
use sprs::CsVec;

use crate::CAP_LIMIT;
use crate::rows::dot_spec;
use crate::rows::lemma_dot_sym;
use crate::rows::row_bounded;
use crate::rows::row_sorted;
use crate::rows::row_upsert;

verus! {

/// A users-by-items sparse matrix of fixed-point ratings. The shape is
/// fixed at construction; only non-zero ratings are ever handed to it.
#[verifier::external_body]
pub struct SparseStore {
    inner: CsMat<i64>,
}

/// One user's sparse rating row, detached from the store.
#[verifier::external_body]
pub struct SparseRow {
    inner: CsVec<i64>,
}

/// The contents of the store, row by row: for each dense user index, the
/// `(item_index, rating)` pairs of that row in ascending index order.
pub uninterp spec fn store_rows(s: SparseStore) -> Seq<Seq<(usize, i64)>>;

/// The item capacity (column count) the store was constructed with.
pub uninterp spec fn store_cols(s: SparseStore) -> int;

/// The `(item_index, rating)` pairs of a detached row, in ascending index
/// order.
pub uninterp spec fn row_entries(r: SparseRow) -> Seq<(usize, i64)>;

/// The dimension (column count) a detached row carries with it.
pub uninterp spec fn row_dim(r: SparseRow) -> int;

/// Relies on `sprs::CsMat::zero`: a matrix of the given shape with no
/// non-zero element, in row-major order.
#[verifier::external_body]
pub(crate) fn store_new(num_rows: usize, num_cols: usize) -> (r: SparseStore)
    ensures
        store_rows(r) == Seq::new(num_rows as nat, |i: int| Seq::<(usize, i64)>::empty()),
        store_cols(r) == num_cols,
{
    SparseStore { inner: CsMat::zero((num_rows, num_cols)) }
}

/// Relies on `sprs::CsMat::rows`: the row count of the shape.
#[verifier::external_body]
pub(crate) fn store_row_count(s: &SparseStore) -> (r: usize)
    ensures
        r == store_rows(*s).len(),
{
    s.inner.rows()
}

/// Relies on `sprs::CsMat::cols`: the column count of the shape.
#[verifier::external_body]
pub(crate) fn store_col_count(s: &SparseStore) -> (r: usize)
    ensures
        r == store_cols(*s),
{
    s.inner.cols()
}

/// Relies on `sprs::CsMat::insert`: within the shape it overwrites an
/// existing entry or splices a new one into the row's sorted index order,
/// and touches no other coordinate. (Out of the shape it would grow the
/// matrix, which the preconditions rule out.)
#[verifier::external_body]
pub(crate) fn store_insert(s: &mut SparseStore, i: usize, j: usize, v: i64)
    requires
        i < store_rows(*old(s)).len(),
        j < store_cols(*old(s)),
    ensures
        store_rows(*final(s)) == store_rows(*old(s)).update(
            i as int,
            row_upsert(store_rows(*old(s))[i as int], j, v),
        ),
        store_cols(*final(s)) == store_cols(*old(s)),
{
    s.inner.insert(i, j, v);
}

/// Relies on `sprs::CsMat::outer_view` and `sprs::CsVec::to_owned`: for a
/// row index within the shape, the view exists and holds exactly that row's
/// entries in ascending index order, with the store's column count as its
/// dimension.
#[verifier::external_body]
pub(crate) fn store_row(s: &SparseStore, i: usize) -> (r: SparseRow)
    requires
        i < store_rows(*s).len(),
    ensures
        row_entries(r) == store_rows(*s)[i as int],
        row_dim(r) == store_cols(*s),
{
    SparseRow { inner: s.inner.outer_view(i).unwrap().to_owned() }
}

/// Relies on `sprs::CsVec::iter`: it yields the stored `(index, value)`
/// pairs in ascending index order.
#[verifier::external_body]
pub(crate) fn row_to_vec(r: &SparseRow) -> (v: Vec<(usize, i64)>)
    ensures
        v@ == row_entries(*r),
{
    r.inner.iter().map(|(idx, val)| (idx, *val)).collect()
}

/// Relies on `sprs::CsVec::dot`: for two vectors of equal dimension it
/// walks both sorted index lists and accumulates the products of the values
/// at shared indices, which is exactly `dot_spec` on the entry sequences.
/// The preconditions keep every partial sum within `i64` range and rule out
/// the dimension-mismatch panic.
#[verifier::external_body]
pub(crate) fn row_dot(a: &SparseRow, b: &SparseRow) -> (r: i64)
    requires
        row_dim(*a) == row_dim(*b),
        row_sorted(row_entries(*a)),
        row_sorted(row_entries(*b)),
        row_bounded(row_entries(*a)),
        row_bounded(row_entries(*b)),
        row_entries(*a).len() <= CAP_LIMIT,
        row_entries(*b).len() <= CAP_LIMIT,
    ensures
        r == dot_spec(row_entries(*a), row_entries(*b)),
{
    a.inner.dot(&b.inner)
}

/// The similarity of two rating rows: their raw dot product over the item
/// dimension, a symmetric score. It is deliberately unnormalized, so rows
/// with more or larger ratings score higher.
pub fn similarity(a: &SparseRow, b: &SparseRow) -> (r: i64)
    requires
        row_dim(*a) == row_dim(*b),
        row_sorted(row_entries(*a)),
        row_sorted(row_entries(*b)),
        row_bounded(row_entries(*a)),
        row_bounded(row_entries(*b)),
        row_entries(*a).len() <= CAP_LIMIT,
        row_entries(*b).len() <= CAP_LIMIT,
    ensures
        r == dot_spec(row_entries(*a), row_entries(*b)),
        r == dot_spec(row_entries(*b), row_entries(*a)),
{
    proof {
        lemma_dot_sym(row_entries(*a), row_entries(*b));
    }
    row_dot(a, b)
}

} // verus!
