//! The rating matrix and the nearest-neighbor recommender.
//!
//! A `Matrix` couples two index registries (users, items) with the sparse
//! rating store. It is populated incrementally during construction and is
//! read-only afterwards: `get_recommendations` resolves the queried user,
//! finds the most similar other user by unnormalized dot product, and
//! returns that neighbor's positively rated items ranked by rating value.

use vstd::prelude::*;

use crate::CAP_LIMIT;
use crate::RATING_LIMIT;
use crate::registry::Registry;
use crate::registry::find_index;
use crate::registry::lemma_find_index;
use crate::registry::register_spec;
use crate::registry::lemma_find_index_prefix;
use crate::rows::dot_spec;
use crate::rows::insert_desc;
use crate::rows::lemma_insert_desc_at;
use crate::rows::lemma_positive_below;
use crate::rows::lemma_sort_desc_below;
use crate::rows::lemma_sorted_len_bound;
use crate::rows::lemma_upsert;
use crate::rows::positive_entries;
use crate::rows::row_bounded;
use crate::rows::row_below;
use crate::rows::row_lookup;
use crate::rows::row_nonzero;
use crate::rows::row_sorted;
use crate::rows::row_upsert;
use crate::rows::lemma_sort_desc_sorted;
use crate::rows::sort_desc;
use crate::rows::sorted_by_rating_desc;
use crate::store::SparseRow;
use crate::store::SparseStore;
use crate::store::row_dim;
use crate::store::row_dot;
use crate::store::row_entries;
use crate::store::row_to_vec;
use crate::store::store_cols;
use crate::store::store_insert;
use crate::store::store_new;
use crate::store::store_row;
use crate::store::store_row_count;
use crate::store::store_rows;

verus! {

/// The construction-time failure: a fresh id arrived although the registry
/// already fills the fixed capacity, so no dense index within the matrix
/// shape is left for it. Registering it anyway would overwrite an unrelated
/// coordinate, so the store is left untouched instead.
#[derive(Clone, Copy, Debug, PartialEq, Eq)]
pub enum BuildError {
    CapacityViolation,
}

/// The per-request outcomes of a recommendation query that carry no item
/// list. They are deliberately distinct: an unknown user is a lookup
/// failure, while a known user may simply have nothing to be recommended.
#[derive(Clone, Copy, Debug, PartialEq, Eq)]
pub enum RecommendError {
    /// The queried raw user id was never registered.
    UnknownUser,
    /// The user is known, but either no other user exists or the nearest
    /// neighbor has no positively rated item.
    NoRecommendation,
}

/// A users-by-items sparse rating matrix with its two id registries.
pub struct Matrix {
    users: Registry,
    items: Registry,
    values: SparseStore,
}

impl Matrix {
    /// The registered raw user ids, in registration order; the position of
    /// an id is its dense row index.
    pub closed spec fn spec_users(&self) -> Seq<u32> {
        self.users@
    }

    /// The registered raw item ids, in registration order; the position of
    /// an id is its dense column index.
    pub closed spec fn spec_items(&self) -> Seq<u32> {
        self.items@
    }

    /// The stored rows: for each dense user index, the `(item_index,
    /// rating)` pairs of that user in ascending index order.
    pub closed spec fn spec_rows(&self) -> Seq<Seq<(usize, i64)>> {
        store_rows(self.values)
    }

    /// The fixed number of user rows.
    pub closed spec fn spec_user_capacity(&self) -> int {
        store_rows(self.values).len() as int
    }

    /// The fixed number of item columns.
    pub closed spec fn spec_item_capacity(&self) -> int {
        store_cols(self.values)
    }

    /// A stored row is well-formed: strictly ascending item indices that
    /// stay below the registered item count, non-zero ratings within the
    /// fixed-point bound.
    pub closed spec fn row_wf(&self, r: Seq<(usize, i64)>) -> bool {
        &&& row_sorted(r)
        &&& row_bounded(r)
        &&& row_nonzero(r)
        &&& row_below(r, self.spec_items().len() as int)
    }

    /// The matrix invariant: distinct registries that fit the fixed shape,
    /// a shape within the global capacity bound, and well-formed rows.
    pub closed spec fn wf(&self) -> bool {
        &&& self.users.wf()
        &&& self.items.wf()
        &&& self.spec_users().len() <= self.spec_user_capacity()
        &&& self.spec_items().len() <= self.spec_item_capacity()
        &&& 1 <= self.spec_user_capacity() <= CAP_LIMIT
        &&& 1 <= self.spec_item_capacity() <= CAP_LIMIT
        &&& forall|i: int|
            0 <= i < self.spec_rows().len() ==> self.row_wf(#[trigger] self.spec_rows()[i])
    }

    /// Allocates an empty matrix of the given fixed shape: no registered
    /// user or item, no stored rating, dimensions exactly as requested.
    pub fn new(num_users: usize, num_items: usize) -> (m: Matrix)
        requires
            1 <= num_users <= CAP_LIMIT,
            1 <= num_items <= CAP_LIMIT,
        ensures
            m.wf(),
            m.spec_users() == Seq::<u32>::empty(),
            m.spec_items() == Seq::<u32>::empty(),
            m.spec_user_capacity() == num_users,
            m.spec_item_capacity() == num_items,
            forall|i: int|
                0 <= i < num_users ==> #[trigger] m.spec_rows()[i] == Seq::<(usize, i64)>::empty(),
    {
        let m = Matrix {
            users: Registry::new(),
            items: Registry::new(),
            values: store_new(num_users, num_items),
        };
        m
    }

    /// The number of registered users.
    pub fn user_count(&self) -> (r: usize)
        ensures
            r == self.spec_users().len(),
    {
        self.users.len()
    }

    /// The number of registered items.
    pub fn item_count(&self) -> (r: usize)
        ensures
            r == self.spec_items().len(),
    {
        self.items.len()
    }

    /// The fixed number of user rows of the matrix shape.
    pub fn user_capacity(&self) -> (r: usize)
        ensures
            r == self.spec_user_capacity(),
    {
        store_row_count(&self.values)
    }

    /// The fixed number of item columns of the matrix shape.
    pub fn item_capacity(&self) -> (r: usize)
        ensures
            r == self.spec_item_capacity(),
    {
        crate::store::store_col_count(&self.values)
    }

    /// The raw user id registered at a dense row index.
    pub fn user_id_at(&self, i: usize) -> (r: u32)
        requires
            i < self.spec_users().len(),
        ensures
            r == self.spec_users()[i as int],
    {
        self.users.raw_id_of(i)
    }

    /// The raw item id registered at a dense column index.
    pub fn item_id_at(&self, i: usize) -> (r: u32)
        requires
            i < self.spec_items().len(),
        ensures
            r == self.spec_items()[i as int],
    {
        self.items.raw_id_of(i)
    }

    /// Registers a raw user id and returns its dense index. Idempotent: an
    /// id seen before keeps its index and nothing changes. A fresh id when
    /// the registry already fills the row capacity is a capacity violation
    /// and leaves the matrix untouched.
    pub fn set_user(&mut self, user_id: u32) -> (r: Result<usize, BuildError>)
        requires
            old(self).wf(),
        ensures
            final(self).wf(),
            final(self).spec_items() == old(self).spec_items(),
            final(self).spec_rows() == old(self).spec_rows(),
            final(self).spec_user_capacity() == old(self).spec_user_capacity(),
            final(self).spec_item_capacity() == old(self).spec_item_capacity(),
            match r {
                Ok(idx) => {
                    &&& final(self).spec_users() == register_spec(old(self).spec_users(), user_id)
                    &&& idx == find_index(final(self).spec_users(), user_id)
                    &&& old(self).spec_users().contains(user_id)
                        ==> final(self).spec_users() == old(self).spec_users()
                    &&& !old(self).spec_users().contains(user_id)
                        ==> old(self).spec_users().len() < old(self).spec_user_capacity()
                            && idx == old(self).spec_users().len()
                },
                Err(e) => {
                    &&& e == BuildError::CapacityViolation
                    &&& !old(self).spec_users().contains(user_id)
                    &&& old(self).spec_users().len() == old(self).spec_user_capacity()
                    &&& *final(self) == *old(self)
                },
            },
    {
        match self.users.index_of(user_id) {
            Some(i) => {
                proof {
                    lemma_find_index(self.users@, user_id);
                }
                Ok(i)
            },
            None => {
                if self.users.len() < store_row_count(&self.values) {
                    let idx: usize = self.users.register(user_id);
                    proof {
                        assert forall|i: int| 0 <= i < self.spec_rows().len()
                            implies self.row_wf(#[trigger] self.spec_rows()[i]) by {
                            assert(old(self).row_wf(old(self).spec_rows()[i]));
                        }
                    }
                    Ok(idx)
                } else {
                    Err(BuildError::CapacityViolation)
                }
            },
        }
    }

    /// Registers a raw item id and returns its dense index. Idempotent in
    /// the same way as `set_user`, with the column capacity as the limit.
    pub fn set_item(&mut self, item_id: u32) -> (r: Result<usize, BuildError>)
        requires
            old(self).wf(),
        ensures
            final(self).wf(),
            final(self).spec_users() == old(self).spec_users(),
            final(self).spec_rows() == old(self).spec_rows(),
            final(self).spec_user_capacity() == old(self).spec_user_capacity(),
            final(self).spec_item_capacity() == old(self).spec_item_capacity(),
            match r {
                Ok(idx) => {
                    &&& final(self).spec_items() == register_spec(old(self).spec_items(), item_id)
                    &&& idx == find_index(final(self).spec_items(), item_id)
                    &&& old(self).spec_items().contains(item_id)
                        ==> final(self).spec_items() == old(self).spec_items()
                    &&& !old(self).spec_items().contains(item_id)
                        ==> old(self).spec_items().len() < old(self).spec_item_capacity()
                            && idx == old(self).spec_items().len()
                },
                Err(e) => {
                    &&& e == BuildError::CapacityViolation
                    &&& !old(self).spec_items().contains(item_id)
                    &&& old(self).spec_items().len() == old(self).spec_item_capacity()
                    &&& *final(self) == *old(self)
                },
            },
    {
        match self.items.index_of(item_id) {
            Some(i) => {
                proof {
                    lemma_find_index(self.items@, item_id);
                }
                Ok(i)
            },
            None => {
                if self.items.len() < crate::store::store_col_count(&self.values) {
                    let idx: usize = self.items.register(item_id);
                    proof {
                        assert forall|i: int| 0 <= i < self.spec_rows().len()
                            implies self.row_wf(#[trigger] self.spec_rows()[i]) by {
                            assert(old(self).row_wf(old(self).spec_rows()[i]));
                            assert(row_below(
                                self.spec_rows()[i],
                                old(self).spec_items().len() as int,
                            ));
                        }
                    }
                    Ok(idx)
                } else {
                    Err(BuildError::CapacityViolation)
                }
            },
        }
    }

    /// The dense row index of a registered raw user id.
    pub closed spec fn spec_user_index(&self, user_id: u32) -> int {
        find_index(self.spec_users(), user_id)
    }

    /// The dense column index of a registered raw item id.
    pub closed spec fn spec_item_index(&self, item_id: u32) -> int {
        find_index(self.spec_items(), item_id)
    }

    /// Stores a fixed-point rating at the coordinates of two already
    /// registered ids. A value of exactly zero means "no rating" and is a
    /// no-op that stores nothing; any other value overwrites whatever the
    /// coordinate held before (last write wins). All other coordinates,
    /// both registries and the shape are untouched.
    pub fn set_rating(&mut self, user_id: u32, item_id: u32, rating: i64)
        requires
            old(self).wf(),
            old(self).spec_users().contains(user_id),
            old(self).spec_items().contains(item_id),
            -RATING_LIMIT <= rating <= RATING_LIMIT,
        ensures
            final(self).wf(),
            final(self).spec_users() == old(self).spec_users(),
            final(self).spec_items() == old(self).spec_items(),
            final(self).spec_user_capacity() == old(self).spec_user_capacity(),
            final(self).spec_item_capacity() == old(self).spec_item_capacity(),
            rating == 0 ==> *final(self) == *old(self),
            rating != 0 ==> final(self).spec_rows() == old(self).spec_rows().update(
                old(self).spec_user_index(user_id),
                row_upsert(
                    old(self).spec_rows()[old(self).spec_user_index(user_id)],
                    old(self).spec_item_index(item_id) as usize,
                    rating,
                ),
            ),
    {
        if rating == 0 {
            return ;
        }
        let uo = self.users.index_of(user_id);
        let io = self.items.index_of(item_id);
        proof {
            lemma_find_index(self.users@, user_id);
            lemma_find_index(self.items@, item_id);
        }
        match (uo, io) {
            (Some(u), Some(i)) => {
                proof {
                    lemma_upsert(
                        self.spec_rows()[u as int],
                        i,
                        rating,
                        self.spec_items().len() as int,
                    );
                }
                store_insert(&mut self.values, u, i, rating);
                proof {
                    assert forall|k: int| 0 <= k < self.spec_rows().len()
                        implies self.row_wf(#[trigger] self.spec_rows()[k]) by {
                        assert(old(self).row_wf(old(self).spec_rows()[k]));
                        if k != u as int {
                            assert(self.spec_rows()[k] == old(self).spec_rows()[k]);
                        }
                    }
                }
            },
            _ => {
                proof {
                    assert(false);
                }
            },
        }
    }

    /// The rating stored at a pair of dense coordinates, or `None` when the
    /// coordinate is unrated.
    pub fn get_rating(&self, user_idx: usize, item_idx: usize) -> (r: Option<i64>)
        requires
            self.wf(),
            user_idx < self.spec_user_capacity(),
        ensures
            r == row_lookup(self.spec_rows()[user_idx as int], item_idx),
    {
        let row = store_row(&self.values, user_idx);
        let v = row_to_vec(&row);
        let n: usize = v.len();
        let mut k: usize = 0;
        proof {
            assert(v@.skip(0) =~= v@);
        }
        while k < n
            invariant
                n == v@.len(),
                k <= n,
                user_idx < self.spec_rows().len(),
                v@ == self.spec_rows()[user_idx as int],
                row_lookup(v@, item_idx) == row_lookup(v@.skip(k as int), item_idx),
            decreases n - k,
        {
            proof {
                assert(v@.skip(k as int)[0] == v@[k as int]);
                assert(v@.skip(k as int).drop_first() =~= v@.skip(k as int + 1));
            }
            if v[k].0 == item_idx {
                return Some(v[k].1);
            }
            k += 1;
        }
        proof {
            assert(v@.skip(n as int) =~= Seq::<(usize, i64)>::empty());
        }
        None
    }

    /// The sparse rating row of a raw user id: the `(dense_item_index,
    /// rating)` pairs of every item the user rated, in ascending index
    /// order, or `None` when the id was never registered. A user with no
    /// ratings yields an empty vector.
    pub fn get_user_vector(&self, user_id: u32) -> (r: Option<Vec<(usize, i64)>>)
        requires
            self.wf(),
        ensures
            match r {
                Some(v) => self.spec_users().contains(user_id) && v@ == self.spec_rows()[
                    self.spec_user_index(user_id)],
                None => !self.spec_users().contains(user_id),
            },
    {
        match self.users.index_of(user_id) {
            Some(u) => {
                proof {
                    lemma_find_index(self.users@, user_id);
                }
                let row = store_row(&self.values, u);
                Some(row_to_vec(&row))
            },
            None => None,
        }
    }

    /// The similarity of two registered users by dense index: the raw dot
    /// product of their rating rows.
    pub closed spec fn spec_similarity(&self, a: int, b: int) -> int {
        dot_spec(self.spec_rows()[a], self.spec_rows()[b])
    }

    /// `k` is the nearest neighbor of target `t`: another user whose
    /// similarity to `t` no other user exceeds, and the first such user in
    /// registration order — a later user with an equal score never wins.
    pub closed spec fn is_first_best(&self, t: int, k: int) -> bool {
        &&& 0 <= k < self.spec_users().len()
        &&& k != t
        &&& forall|j: int|
            0 <= j < self.spec_users().len() && j != t ==> #[trigger] self.spec_similarity(t, j)
                <= self.spec_similarity(t, k)
        &&& forall|j: int|
            0 <= j < k && j != t ==> #[trigger] self.spec_similarity(t, j)
                < self.spec_similarity(t, k)
    }

    /// The recommendation list drawn from the row of neighbor `k`: its
    /// positively rated entries, sorted by rating descending with ties in
    /// ascending item-index order, mapped back to raw item ids.
    pub closed spec fn spec_rec_list(&self, k: int) -> Seq<u32> {
        raw_items(self.spec_items(), sort_desc(positive_entries(self.spec_rows()[k])))
    }

    /// The detached sparse rating row of a raw user id, suitable for
    /// `crate::store::similarity`, or `None` when the id was never
    /// registered.
    pub fn get_row(&self, user_id: u32) -> (r: Option<SparseRow>)
        requires
            self.wf(),
        ensures
            match r {
                Some(v) => {
                    &&& self.spec_users().contains(user_id)
                    &&& row_entries(v) == self.spec_rows()[self.spec_user_index(user_id)]
                    &&& row_dim(v) == self.spec_item_capacity()
                    &&& row_sorted(row_entries(v))
                    &&& row_bounded(row_entries(v))
                    &&& row_entries(v).len() <= CAP_LIMIT
                },
                None => !self.spec_users().contains(user_id),
            },
    {
        match self.users.index_of(user_id) {
            Some(u) => {
                proof {
                    lemma_find_index(self.users@, user_id);
                }
                let row = store_row(&self.values, u);
                proof {
                    assert(self.row_wf(self.spec_rows()[u as int]));
                    lemma_sorted_len_bound(row_entries(row), 0, self.spec_items().len() as int);
                }
                Some(row)
            },
            None => None,
        }
    }

    /// The most similar other user to a raw user id, by raw dot product of
    /// rating rows. `None` when the id is unknown or no other user is
    /// registered; otherwise always some user — even one with a completely
    /// disjoint rated-item set, whose similarity is zero, is accepted when
    /// nothing scores higher. On equal scores the user registered first
    /// wins.
    pub fn get_closest_user(&self, user_id: u32) -> (r: Option<u32>)
        requires
            self.wf(),
        ensures
            match r {
                Some(u) => self.spec_users().contains(user_id) && exists|k: int|
                    self.is_first_best(self.spec_user_index(user_id), k) && u
                        == self.spec_users()[k],
                None => !self.spec_users().contains(user_id) || self.spec_users().len() <= 1,
            },
            self.spec_users().contains(user_id) && self.spec_users().len() >= 2 ==> r is Some,
    {
        let t = match self.users.index_of(user_id) {
            Some(t) => t,
            None => {
                return None;
            },
        };
        proof {
            lemma_find_index(self.users@, user_id);
        }
        let trow = store_row(&self.values, t);
        proof {
            assert(self.row_wf(self.spec_rows()[t as int]));
            lemma_sorted_len_bound(row_entries(trow), 0, self.spec_items().len() as int);
        }
        let n: usize = self.users.len();
        let mut best: Option<u32> = None;
        let mut best_sim: i64 = 0;
        let ghost mut best_k: int = 0;
        let mut k: usize = 0;
        while k < n
            invariant
                self.wf(),
                n == self.spec_users().len(),
                t == self.spec_user_index(user_id),
                0 <= t < n,
                self.spec_users().contains(user_id),
                row_entries(trow) == self.spec_rows()[t as int],
                row_dim(trow) == self.spec_item_capacity(),
                row_entries(trow).len() <= CAP_LIMIT,
                k <= n,
                match best {
                    Some(u) => {
                        &&& 0 <= best_k < k
                        &&& best_k != t
                        &&& u == self.spec_users()[best_k]
                        &&& best_sim == self.spec_similarity(t as int, best_k)
                        &&& forall|j: int|
                            0 <= j < k && j != t ==> #[trigger] self.spec_similarity(t as int, j)
                                <= best_sim
                        &&& forall|j: int|
                            0 <= j < best_k && j != t ==> #[trigger] self.spec_similarity(
                                t as int,
                                j,
                            ) < best_sim
                    },
                    None => k == 0 || (k == 1 && t == 0),
                },
            decreases n - k,
        {
            if k != t {
                let krow = store_row(&self.values, k);
                proof {
                    assert(self.row_wf(self.spec_rows()[k as int]));
                    lemma_sorted_len_bound(row_entries(krow), 0, self.spec_items().len() as int);
                }
                let d = row_dot(&trow, &krow);
                let take = match best {
                    None => true,
                    Some(_) => d > best_sim,
                };
                if take {
                    best = Some(self.users.raw_id_of(k));
                    best_sim = d;
                    proof {
                        best_k = k as int;
                    }
                }
            }
            k += 1;
        }
        best
    }

    /// Recommends items for a raw user id: the positively rated items of
    /// the most similar other user, ranked by that neighbor's rating,
    /// descending, ties in ascending dense-index order, reported as raw
    /// item ids. An unknown id is `UnknownUser`; a known id without another
    /// user, or whose neighbor rated nothing positively, is
    /// `NoRecommendation` — never a crash, and never conflated with
    /// `UnknownUser`.
    pub fn get_recommendations(&self, user_id: u32) -> (r: Result<Vec<u32>, RecommendError>)
        requires
            self.wf(),
        ensures
            r == Err::<Vec<u32>, RecommendError>(RecommendError::UnknownUser) <==> !self
                .spec_users().contains(user_id),
            match r {
                Ok(v) => v@.len() > 0 && exists|k: int|
                    self.is_first_best(self.spec_user_index(user_id), k) && v@
                        == self.spec_rec_list(k),
                Err(e) => e == RecommendError::UnknownUser || (self.spec_users().contains(user_id)
                    && (self.spec_users().len() <= 1 || exists|k: int|
                    self.is_first_best(self.spec_user_index(user_id), k) && self.spec_rec_list(
                        k,
                    ).len() == 0)),
            },
    {
        if self.users.index_of(user_id).is_none() {
            return Err(RecommendError::UnknownUser);
        }
        let closest = match self.get_closest_user(user_id) {
            Some(u) => u,
            None => {
                return Err(RecommendError::NoRecommendation);
            },
        };
        let ghost kk = choose|k: int|
            self.is_first_best(self.spec_user_index(user_id), k) && closest
                == self.spec_users()[k];
        proof {
            lemma_find_index_prefix(self.users@, closest, kk);
        }
        let kidx = match self.users.index_of(closest) {
            Some(i) => i,
            None => {
                proof {
                    assert(false);
                }
                return Err(RecommendError::NoRecommendation);
            },
        };
        let krow = store_row(&self.values, kidx);
        let kvec = row_to_vec(&krow);
        let pos = positive_only(&kvec);
        let sorted = sort_by_rating_desc(&pos);
        proof {
            assert(self.row_wf(self.spec_rows()[kidx as int]));
            lemma_positive_below(kvec@, self.spec_items().len() as int);
            lemma_sort_desc_below(pos@, self.spec_items().len() as int);
        }
        let m: usize = sorted.len();
        let mut recs: Vec<u32> = Vec::new();
        let mut i: usize = 0;
        proof {
            assert(sorted@.take(0) =~= Seq::<(usize, i64)>::empty());
        }
        while i < m
            invariant
                m == sorted@.len(),
                i <= m,
                row_below(sorted@, self.spec_items().len() as int),
                self.items@ == self.spec_items(),
                recs@ == raw_items(self.spec_items(), sorted@.take(i as int)),
            decreases m - i,
        {
            let e = sorted[i];
            recs.push(self.items.raw_id_of(e.0));
            proof {
                assert(sorted@.take(i as int + 1).drop_last() =~= sorted@.take(i as int));
                assert(sorted@.take(i as int + 1).last() == sorted@[i as int]);
            }
            i += 1;
        }
        proof {
            assert(sorted@.take(m as int) =~= sorted@);
        }
        proof {
            assert(kidx as int == kk);
            assert(recs@ == self.spec_rec_list(kk));
        }
        if recs.len() == 0 {
            Err(RecommendError::NoRecommendation)
        } else {
            Ok(recs)
        }
    }
}

/// The raw item ids of a sequence of row entries, in entry order.
pub open spec fn raw_items(items: Seq<u32>, s: Seq<(usize, i64)>) -> Seq<u32>
    decreases s.len(),
{
    if s.len() == 0 {
        Seq::empty()
    } else {
        raw_items(items, s.drop_last()).push(items[s.last().0 as int])
    }
}

/// The entries of a row that carry a strictly positive rating, in row
/// order.
fn positive_only(v: &Vec<(usize, i64)>) -> (r: Vec<(usize, i64)>)
    ensures
        r@ == positive_entries(v@),
{
    let n: usize = v.len();
    let mut out: Vec<(usize, i64)> = Vec::new();
    let mut k: usize = 0;
    proof {
        assert(v@.take(0) =~= Seq::<(usize, i64)>::empty());
    }
    while k < n
        invariant
            n == v@.len(),
            k <= n,
            out@ == positive_entries(v@.take(k as int)),
        decreases n - k,
    {
        let e = v[k];
        proof {
            assert(v@.take(k as int + 1).drop_last() =~= v@.take(k as int));
            assert(v@.take(k as int + 1).last() == v@[k as int]);
        }
        if e.1 > 0 {
            out.push(e);
        }
        k += 1;
    }
    proof {
        assert(v@.take(n as int) =~= v@);
    }
    out
}

/// Splices one entry into a vector already sorted by descending rating, at
/// the first position whose rating is strictly lower: an entry inserted
/// earlier keeps its place on a tie.
fn insert_rated(out: &mut Vec<(usize, i64)>, x: (usize, i64))
    ensures
        final(out)@ == insert_desc(x, old(out)@),
{
    let n: usize = out.len();
    let mut p: usize = 0;
    while p < n && out[p].1 >= x.1
        invariant
            n == out@.len(),
            out@ == old(out)@,
            p <= n,
            forall|w: int| 0 <= w < p ==> #[trigger] out@[w].1 >= x.1,
        decreases n - p,
    {
        p += 1;
    }
    proof {
        lemma_insert_desc_at(x, out@, p as int);
    }
    out.insert(p, x);
}

/// Sorts a row's entries by rating, descending; entries with equal ratings
/// keep their original relative order, so ties stand in ascending
/// item-index order when the input is a sparse row.
pub fn sort_by_rating_desc(v: &Vec<(usize, i64)>) -> (r: Vec<(usize, i64)>)
    ensures
        r@ == sort_desc(v@),
        sorted_by_rating_desc(r@),
        r@.len() == v@.len(),
{
    proof {
        lemma_sort_desc_sorted(v@);
    }
    let n: usize = v.len();
    let mut out: Vec<(usize, i64)> = Vec::new();
    let mut k: usize = 0;
    proof {
        assert(v@.take(0) =~= Seq::<(usize, i64)>::empty());
    }
    while k < n
        invariant
            n == v@.len(),
            k <= n,
            out@ == sort_desc(v@.take(k as int)),
        decreases n - k,
    {
        let x = v[k];
        insert_rated(&mut out, x);
        proof {
            assert(v@.take(k as int + 1).drop_last() =~= v@.take(k as int));
            assert(v@.take(k as int + 1).last() == v@[k as int]);
        }
        k += 1;
    }
    proof {
        assert(v@.take(n as int) =~= v@);
    }
    out
}

/// Among three registered users, when the target's rating row has a
/// strictly higher dot product with user `b`'s row than with user `c`'s,
/// the nearest neighbor of the target is `b`, never `c`.
pub proof fn lemma_closer_user_wins(m: Matrix, t: int, k: int, b: int, c: int)
    requires
        m.is_first_best(t, k),
        m.spec_users().len() == 3,
        0 <= t < 3,
        0 <= b < 3,
        0 <= c < 3,
        t != b,
        t != c,
        b != c,
        m.spec_similarity(t, b) > m.spec_similarity(t, c),
    ensures
        k == b,
{
    if k == c {
        assert(m.spec_similarity(t, b) <= m.spec_similarity(t, c));
    }
}

} // verus!
