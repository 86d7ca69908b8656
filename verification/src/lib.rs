//! A single-neighbor collaborative-filtering recommender.
//!
//! The library holds an explicit user-item rating dataset in a sparse
//! matrix, computes user-to-user similarity as the raw (unnormalized) dot
//! product of rating rows, and recommends the positively rated items of the
//! single most similar other user, ranked by rating value.
//!
//! Ratings are fixed-point integers: the caller picks a scale (for instance
//! hundredths) and passes `i64` values. The dot product is therefore exact,
//! and deliberately unnormalized: users with more or larger ratings are
//! favored. This magnitude sensitivity is part of the behavioral contract,
//! not an oversight.

use vstd::prelude::*;

pub mod matrix;
pub mod registry;
pub mod rows;
pub mod store;

verus! {

/// Upper bound on both matrix dimensions fixed at construction time.
///
/// Together with `RATING_LIMIT` it keeps every partial sum of a dot product
/// within `i64` range: a product of two ratings is at most `2^40` in
/// magnitude, and a dot product adds at most `CAP_LIMIT` such terms, so
/// every partial sum stays below `2^60`.
pub const CAP_LIMIT: usize = 1048576;

/// Upper bound on the magnitude of a stored fixed-point rating.
pub const RATING_LIMIT: i64 = 1048576;

} // verus!
