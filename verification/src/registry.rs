//! The index registry: a bidirectional mapping between raw identifiers, as
//! they appear in the source data, and dense zero-based matrix indices.
//!
//! A raw id receives its dense index the first time it is registered, in
//! observation order; the index never changes afterwards, and no raw id
//! appears twice.

use vstd::prelude::*;

verus! {

/// The position of the first occurrence of `id` in `s`, or `-1` when absent.
pub open spec fn find_index(s: Seq<u32>, id: u32) -> int
    decreases s.len(),
{
    if s.len() == 0 {
        -1
    } else if s[0] == id {
        0
    } else if find_index(s.drop_first(), id) == -1 {
        -1
    } else {
        1 + find_index(s.drop_first(), id)
    }
}

/// The id sequence after a registration: unchanged when `id` is already
/// present, extended by `id` otherwise.
pub open spec fn register_spec(s: Seq<u32>, id: u32) -> Seq<u32> {
    if s.contains(id) {
        s
    } else {
        s.push(id)
    }
}

/// `find_index` finds exactly the members: a present id is found at a
/// position that holds it, an absent one is reported as `-1`.
pub proof fn lemma_find_index(s: Seq<u32>, id: u32)
    ensures
        s.contains(id) ==> 0 <= find_index(s, id) < s.len() && s[find_index(s, id)] == id,
        !s.contains(id) ==> find_index(s, id) == -1,
    decreases s.len(),
{
    if s.len() > 0 {
        lemma_find_index(s.drop_first(), id);
        if s[0] != id {
            assert(s.contains(id) ==> s.drop_first().contains(id)) by {
                if s.contains(id) {
                    let w = choose|w: int| 0 <= w < s.len() && s[w] == id;
                    assert(s.drop_first()[w - 1] == id);
                }
            }
            assert(forall|w: int| 0 <= w < s.drop_first().len() && s.drop_first()[w] == id
                ==> s[w + 1] == id);
        }
    }
}

/// `find_index` is unaffected by ids appended after the first occurrence.
pub proof fn lemma_find_index_push(s: Seq<u32>, id: u32, other: u32)
    ensures
        s.contains(id) ==> find_index(s.push(other), id) == find_index(s, id),
        !s.contains(id) && id == other ==> find_index(s.push(other), id) == s.len(),
    decreases s.len(),
{
    lemma_find_index(s, id);
    if s.len() == 0 {
        assert(s.push(other).drop_first() =~= Seq::<u32>::empty());
    } else {
        lemma_find_index_push(s.drop_first(), id, other);
        assert(s.push(other).drop_first() =~= s.drop_first().push(other));
        if s[0] != id {
            assert(s.contains(id) ==> s.drop_first().contains(id)) by {
                if s.contains(id) {
                    let w = choose|w: int| 0 <= w < s.len() && s[w] == id;
                    assert(s.drop_first()[w - 1] == id);
                }
            }
        }
    }
}

/// Registering an id is idempotent: a second registration of the same id
/// changes neither the registry contents nor the dense index the id was
/// assigned the first time.
pub proof fn lemma_register_idempotent(s: Seq<u32>, id: u32)
    ensures
        register_spec(register_spec(s, id), id) == register_spec(s, id),
        find_index(register_spec(register_spec(s, id), id), id)
            == find_index(register_spec(s, id), id),
{
    if !s.contains(id) {
        assert(s.push(id)[s.len() as int] == id);
        assert(s.push(id).contains(id));
    }
}

/// An append-only list of distinct raw ids; the position of an id is its
/// dense index.
pub struct Registry {
    ids: Vec<u32>,
}

impl View for Registry {
    type V = Seq<u32>;

    closed spec fn view(&self) -> Seq<u32> {
        self.ids@
    }
}

impl Registry {
    /// No raw id appears twice.
    pub open spec fn wf(&self) -> bool {
        forall|i: int, j: int| 0 <= i < j < self@.len() ==> self@[i] != self@[j]
    }

    pub fn new() -> (r: Registry)
        ensures
            r.wf(),
            r@ == Seq::<u32>::empty(),
    {
        Registry { ids: Vec::new() }
    }

    pub fn len(&self) -> (r: usize)
        ensures
            r == self@.len(),
    {
        self.ids.len()
    }

    /// The dense index of `id`, or `None` when `id` was never registered.
    pub fn index_of(&self, id: u32) -> (r: Option<usize>)
        ensures
            match r {
                Some(i) => self@.contains(id) && i == find_index(self@, id),
                None => !self@.contains(id),
            },
    {
        proof {
            lemma_find_index(self@, id);
        }
        let n: usize = self.ids.len();
        let mut k: usize = 0;
        while k < n
            invariant
                n == self@.len(),
                k <= n,
                forall|w: int| 0 <= w < k ==> self@[w] != id,
            decreases n - k,
        {
            if self.ids[k] == id {
                proof {
                    lemma_find_index_prefix(self@, id, k as int);
                }
                return Some(k);
            }
            k += 1;
        }
        None
    }

    /// The raw id that was assigned dense index `i`.
    pub fn raw_id_of(&self, i: usize) -> (r: u32)
        requires
            i < self@.len(),
        ensures
            r == self@[i as int],
    {
        self.ids[i]
    }

    /// Registers `id` and returns its dense index: the existing index when
    /// `id` was seen before, the next free one otherwise. Idempotent.
    pub fn register(&mut self, id: u32) -> (r: usize)
        requires
            old(self).wf(),
            old(self)@.len() < usize::MAX,
        ensures
            final(self).wf(),
            final(self)@ == register_spec(old(self)@, id),
            r == find_index(final(self)@, id),
            old(self)@.contains(id) ==> final(self)@ == old(self)@,
            !old(self)@.contains(id) ==> final(self)@ == old(self)@.push(id) && r == old(self)@.len(),
    {
        proof {
            lemma_find_index(self@, id);
            lemma_find_index_push(self@, id, id);
        }
        match self.index_of(id) {
            Some(i) => i,
            None => {
                let i: usize = self.ids.len();
                self.ids.push(id);
                proof {
                    assert(self@.drop_last() =~= old(self)@);
                }
                i
            },
        }
    }
}

/// When the first occurrence of `id` in `s` is at `k`, `find_index` says `k`.
pub proof fn lemma_find_index_prefix(s: Seq<u32>, id: u32, k: int)
    requires
        0 <= k < s.len(),
        s[k] == id,
        forall|w: int| 0 <= w < k ==> s[w] != id,
    ensures
        find_index(s, id) == k,
    decreases s.len(),
{
    if k > 0 {
        assert(forall|w: int| 0 <= w < k - 1 ==> s.drop_first()[w] != id);
        lemma_find_index_prefix(s.drop_first(), id, k - 1);
        assert(find_index(s.drop_first(), id) == k - 1);
    }
}

} // verus!
