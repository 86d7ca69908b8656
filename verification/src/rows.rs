//! The mathematical model of a sparse rating row.
//!
//! A row is a sequence of `(item_index, rating)` pairs, held in strictly
//! ascending index order. Absent indices stand for "unrated", never for a
//! rating of zero: a stored value is always non-zero.

use vstd::prelude::*;

use crate::CAP_LIMIT;
use crate::RATING_LIMIT;

verus! {

/// The entries are in strictly ascending index order, so every index
/// appears at most once.
pub open spec fn row_sorted(s: Seq<(usize, i64)>) -> bool {
    forall|i: int, j: int| 0 <= i < j < s.len() ==> #[trigger] s[i].0 < #[trigger] s[j].0
}

/// Every stored rating is within the fixed-point magnitude bound.
pub open spec fn row_bounded(s: Seq<(usize, i64)>) -> bool {
    forall|k: int| 0 <= k < s.len() ==> -RATING_LIMIT <= #[trigger] s[k].1 <= RATING_LIMIT
}

/// Every item index lies below `c`.
pub open spec fn row_below(s: Seq<(usize, i64)>, c: int) -> bool {
    forall|k: int| 0 <= k < s.len() ==> #[trigger] s[k].0 < c
}

/// No entry stores an exact zero: zero means "unrated" and is never kept.
pub open spec fn row_nonzero(s: Seq<(usize, i64)>) -> bool {
    forall|k: int| 0 <= k < s.len() ==> #[trigger] s[k].1 != 0i64
}

/// The rating stored at index `j`, if any.
pub open spec fn row_lookup(s: Seq<(usize, i64)>, j: usize) -> Option<i64>
    decreases s.len(),
{
    if s.len() == 0 {
        None
    } else if s[0].0 == j {
        Some(s[0].1)
    } else {
        row_lookup(s.drop_first(), j)
    }
}

/// The row after writing rating `v` at index `j`: an existing entry is
/// overwritten (last write wins), a fresh one is spliced in at its sorted
/// position.
pub open spec fn row_upsert(s: Seq<(usize, i64)>, j: usize, v: i64) -> Seq<(usize, i64)>
    decreases s.len(),
{
    if s.len() == 0 {
        seq![(j, v)]
    } else if j < s[0].0 {
        seq![(j, v)] + s
    } else if j == s[0].0 {
        seq![(j, v)] + s.drop_first()
    } else {
        seq![s[0]] + row_upsert(s.drop_first(), j, v)
    }
}

/// Writing a rating keeps a row well-formed, and reads back as written:
/// after `row_upsert(s, j, v)` the row is still sorted, index `j` holds `v`
/// (last write wins), and every other index is untouched. The bounds on
/// values, indices and zeros carry over when the new entry satisfies them.
pub proof fn lemma_upsert(s: Seq<(usize, i64)>, j: usize, v: i64, c: int)
    requires
        row_sorted(s),
    ensures
        row_sorted(row_upsert(s, j, v)),
        row_upsert(s, j, v).len() >= 1,
        row_upsert(s, j, v)[0].0 == if s.len() == 0 || j <= s[0].0 {
            j as int
        } else {
            s[0].0 as int
        },
        row_bounded(s) && -RATING_LIMIT <= v <= RATING_LIMIT ==> row_bounded(row_upsert(s, j, v)),
        row_below(s, c) && j < c ==> row_below(row_upsert(s, j, v), c),
        row_nonzero(s) && v != 0 ==> row_nonzero(row_upsert(s, j, v)),
        row_lookup(row_upsert(s, j, v), j) == Some(v),
        forall|j2: usize|
            j2 != j ==> #[trigger] row_lookup(row_upsert(s, j, v), j2) == row_lookup(s, j2),
    decreases s.len(),
{
    let up = row_upsert(s, j, v);
    if s.len() == 0 {
        assert(up =~= seq![(j, v)]);
        assert(up.drop_first() =~= s);
    } else if j < s[0].0 {
        assert(up =~= seq![(j, v)] + s);
        assert(forall|k: int| 1 <= k < up.len() ==> #[trigger] up[k] == s[k - 1]);
        assert(up.drop_first() =~= s);
    } else if j == s[0].0 {
        assert(up =~= seq![(j, v)] + s.drop_first());
        assert(forall|k: int| 1 <= k < up.len() ==> #[trigger] up[k] == s[k]);
        assert(up.drop_first() =~= s.drop_first());
        assert forall|j2: usize| j2 != j implies #[trigger] row_lookup(up, j2) == row_lookup(
            s,
            j2,
        ) by {
            assert(row_lookup(up, j2) == row_lookup(s.drop_first(), j2));
        }
    } else {
        let t = s.drop_first();
        let upt = row_upsert(t, j, v);
        lemma_upsert(t, j, v, c);
        assert(up =~= seq![s[0]] + upt);
        assert(forall|k: int| 1 <= k < up.len() ==> #[trigger] up[k] == upt[k - 1]);
        assert(up.drop_first() =~= upt);
        assert forall|a: int, b: int| 0 <= a < b < up.len() implies up[a].0 < up[b].0 by {
            if a == 0 {
                if b > 1 {
                    assert(upt[0].0 < upt[b - 1].0);
                }
            }
        }
        assert forall|j2: usize| j2 != j implies #[trigger] row_lookup(up, j2) == row_lookup(
            s,
            j2,
        ) by {
            if j2 == s[0].0 {
                assert(row_lookup(up, j2) == Some(up[0].1));
            } else {
                assert(row_lookup(up, j2) == row_lookup(upt, j2));
                assert(row_lookup(s, j2) == row_lookup(t, j2));
            }
        }
    }
}

/// A sorted row whose indices all lie in `[lo, c)` holds at most `c - lo`
/// entries, since its indices are strictly increasing.
pub proof fn lemma_sorted_len_bound(s: Seq<(usize, i64)>, lo: int, c: int)
    requires
        row_sorted(s),
        row_below(s, c),
        forall|k: int| 0 <= k < s.len() ==> lo <= #[trigger] s[k].0,
        0 <= lo <= c,
    ensures
        s.len() <= c - lo,
    decreases s.len(),
{
    if s.len() > 0 {
        let t = s.drop_first();
        assert(forall|k: int| 0 <= k < t.len() ==> s[0].0 + 1 <= #[trigger] t[k].0);
        lemma_sorted_len_bound(t, s[0].0 + 1, c);
    }
}

/// The unnormalized dot product of two rows over the item dimension: the
/// sum of `a[i] * b[i]` over indices present in both rows. An index present
/// in only one row contributes nothing. Defined as the merge walk that both
/// rows being sorted allows.
pub open spec fn dot_spec(a: Seq<(usize, i64)>, b: Seq<(usize, i64)>) -> int
    decreases a.len() + b.len(),
{
    if a.len() == 0 || b.len() == 0 {
        0
    } else if a[0].0 == b[0].0 {
        a[0].1 * b[0].1 + dot_spec(a.drop_first(), b.drop_first())
    } else if a[0].0 < b[0].0 {
        dot_spec(a.drop_first(), b)
    } else {
        dot_spec(a, b.drop_first())
    }
}

/// The entries of a row that carry a strictly positive rating, in row
/// order. A non-positive rating is no positive signal and contributes no
/// recommendation.
pub open spec fn positive_entries(s: Seq<(usize, i64)>) -> Seq<(usize, i64)>
    decreases s.len(),
{
    if s.len() == 0 {
        Seq::empty()
    } else if s.last().1 > 0 {
        positive_entries(s.drop_last()).push(s.last())
    } else {
        positive_entries(s.drop_last())
    }
}

/// Where entry `x` lands in a row already sorted by descending rating:
/// after every entry whose rating is at least `x`'s — so an entry inserted
/// earlier keeps its place on a tie — and before the rest.
pub open spec fn insert_desc(x: (usize, i64), t: Seq<(usize, i64)>) -> Seq<(usize, i64)>
    decreases t.len(),
{
    if t.len() == 0 {
        seq![x]
    } else if x.1 > t[0].1 {
        seq![x] + t
    } else {
        seq![t[0]] + insert_desc(x, t.drop_first())
    }
}

/// The row sorted by descending rating, by stable insertion of each entry
/// in turn: entries with equal ratings keep the order they had in `s`.
pub open spec fn sort_desc(s: Seq<(usize, i64)>) -> Seq<(usize, i64)>
    decreases s.len(),
{
    if s.len() == 0 {
        Seq::empty()
    } else {
        insert_desc(s.last(), sort_desc(s.drop_last()))
    }
}

/// `insert_desc` splices `x` in at the first position whose rating is
/// strictly below `x`'s.
pub proof fn lemma_insert_desc_at(x: (usize, i64), t: Seq<(usize, i64)>, p: int)
    requires
        0 <= p <= t.len(),
        forall|w: int| 0 <= w < p ==> #[trigger] t[w].1 >= x.1,
        p < t.len() ==> t[p].1 < x.1,
    ensures
        insert_desc(x, t) == t.insert(p, x),
    decreases t.len(),
{
    if t.len() == 0 {
        assert(insert_desc(x, t) =~= t.insert(p, x));
    } else if x.1 > t[0].1 {
        assert(p == 0);
        assert(insert_desc(x, t) =~= t.insert(0, x));
    } else {
        lemma_insert_desc_at(x, t.drop_first(), p - 1);
        assert(insert_desc(x, t) =~= t.insert(p, x));
    }
}

/// Filtering to positive entries never introduces an item index: the
/// survivors stay below any bound the whole row respects.
pub proof fn lemma_positive_below(s: Seq<(usize, i64)>, c: int)
    requires
        row_below(s, c),
    ensures
        row_below(positive_entries(s), c),
    decreases s.len(),
{
    if s.len() > 0 {
        assert(row_below(s.drop_last(), c));
        lemma_positive_below(s.drop_last(), c);
    }
}

/// Sorting by rating never introduces an item index either.
pub proof fn lemma_sort_desc_below(s: Seq<(usize, i64)>, c: int)
    requires
        row_below(s, c),
    ensures
        row_below(sort_desc(s), c),
    decreases s.len(),
{
    if s.len() > 0 {
        assert(row_below(s.drop_last(), c));
        lemma_sort_desc_below(s.drop_last(), c);
        lemma_insert_desc_below(s.last(), sort_desc(s.drop_last()), c);
    }
}

/// Helper for `lemma_sort_desc_below`: one stable insertion keeps the
/// index bound.
pub proof fn lemma_insert_desc_below(x: (usize, i64), t: Seq<(usize, i64)>, c: int)
    requires
        row_below(t, c),
        x.0 < c,
    ensures
        row_below(insert_desc(x, t), c),
    decreases t.len(),
{
    if t.len() > 0 && !(x.1 > t[0].1) {
        assert(row_below(t.drop_first(), c));
        lemma_insert_desc_below(x, t.drop_first(), c);
        assert forall|k: int| 0 <= k < insert_desc(x, t).len()
            implies #[trigger] insert_desc(x, t)[k].0 < c by {
            if k > 0 {
                assert(insert_desc(x, t)[k] == insert_desc(x, t.drop_first())[k - 1]);
            }
        }
    }
}

/// The ratings of a row stand in descending order.
pub open spec fn sorted_by_rating_desc(s: Seq<(usize, i64)>) -> bool {
    forall|i: int, j: int| 0 <= i < j < s.len() ==> #[trigger] s[i].1 >= #[trigger] s[j].1
}

/// One stable insertion into a row already in descending rating order
/// keeps it so, leaves it one entry longer, and puts at its head whichever
/// of the new entry and the old head rates higher.
pub proof fn lemma_insert_desc_sorted(x: (usize, i64), t: Seq<(usize, i64)>)
    requires
        sorted_by_rating_desc(t),
    ensures
        sorted_by_rating_desc(insert_desc(x, t)),
        insert_desc(x, t).len() == t.len() + 1,
        insert_desc(x, t)[0].1 == if t.len() == 0 || x.1 > t[0].1 {
            x.1
        } else {
            t[0].1
        },
    decreases t.len(),
{
    let up = insert_desc(x, t);
    if t.len() == 0 {
    } else if x.1 > t[0].1 {
        assert(forall|k: int| 1 <= k < up.len() ==> #[trigger] up[k] == t[k - 1]);
    } else {
        let t2 = t.drop_first();
        let ins = insert_desc(x, t2);
        assert(sorted_by_rating_desc(t2));
        lemma_insert_desc_sorted(x, t2);
        assert(forall|k: int| 1 <= k < up.len() ==> #[trigger] up[k] == ins[k - 1]);
        assert forall|a: int, b: int| 0 <= a < b < up.len() implies up[a].1 >= up[b].1 by {
            if a == 0 {
                assert(up[b] == ins[b - 1]);
                if b > 1 {
                    assert(ins[0].1 >= ins[b - 1].1);
                }
            }
        }
    }
}

/// Sorting a row by rating yields descending rating order.
pub proof fn lemma_sort_desc_sorted(s: Seq<(usize, i64)>)
    ensures
        sorted_by_rating_desc(sort_desc(s)),
        sort_desc(s).len() == s.len(),
    decreases s.len(),
{
    if s.len() > 0 {
        lemma_sort_desc_sorted(s.drop_last());
        lemma_insert_desc_sorted(s.last(), sort_desc(s.drop_last()));
    }
}

/// The dot product does not depend on the order of its arguments.
pub proof fn lemma_dot_sym(a: Seq<(usize, i64)>, b: Seq<(usize, i64)>)
    ensures
        dot_spec(a, b) == dot_spec(b, a),
    decreases a.len() + b.len(),
{
    if a.len() == 0 || b.len() == 0 {
    } else if a[0].0 == b[0].0 {
        lemma_dot_sym(a.drop_first(), b.drop_first());
    } else if a[0].0 < b[0].0 {
        lemma_dot_sym(a.drop_first(), b);
    } else {
        lemma_dot_sym(a, b.drop_first());
    }
}

} // verus!
