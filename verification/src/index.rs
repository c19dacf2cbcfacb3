//! The in-memory vector index: an insertion-ordered sequence of
//! `(chunk_id, vector)` pairs with unique ids, a drain operation, and top-k
//! selection by score.  The stored vectors are opaque to the index; callers
//! hand in the per-entry scores of a query, and selection orders entries by
//! descending score with ties broken by ascending insertion order.

use vstd::prelude::*;

use vstd::pervasive::VecAdditionalExecFns;

verus! {

/// The mathematical value of a [`VectorIndex`].
#[verifier::ext_equal]
pub ghost struct IndexView<V> {
    pub ids: Seq<u32>,
    pub vectors: Seq<V>,
}

/// The index invariant: one id per vector, and no id occurs twice.
pub open spec fn index_wf<V>(v: IndexView<V>) -> bool {
    &&& v.ids.len() == v.vectors.len()
    &&& forall|i: int, j: int| 0 <= i < j < v.ids.len() ==> v.ids[i] != v.ids[j]
}

/// An insertion-ordered sequence of `(chunk_id, vector)` pairs.
#[derive(Debug, Clone, PartialEq, Eq)]
pub struct VectorIndex<V> {
    ids: Vec<u32>,
    vectors: Vec<V>,
}

impl<V> View for VectorIndex<V> {
    type V = IndexView<V>;

    closed spec fn view(&self) -> IndexView<V> {
        IndexView { ids: self.ids@, vectors: self.vectors@ }
    }
}

impl<V> VectorIndex<V> {
    /// An empty index.
    pub fn new() -> (r: VectorIndex<V>)
        ensures
            r@.ids.len() == 0,
            r@.vectors.len() == 0,
            index_wf(r@),
    {
        VectorIndex { ids: Vec::new(), vectors: Vec::new() }
    }

    /// The number of stored entries.
    pub fn len(&self) -> (r: usize)
        requires
            index_wf(self@),
        ensures
            r == self@.ids.len(),
    {
        self.ids.len()
    }

    /// Whether an entry with the given id is stored.
    pub fn has_id(&self, id: u32) -> (r: bool)
        ensures
            r == self@.ids.contains(id),
    {
        let mut i: usize = 0;
        while i < self.ids.len()
            invariant
                0 <= i <= self@.ids.len(),
                forall|j: int| 0 <= j < i ==> self@.ids[j] != id,
            decreases self@.ids.len() - i,
        {
            if self.ids[i] == id {
                return true;
            }
            i += 1;
        }
        false
    }

    /// The stored chunk ids, in insertion order.
    pub fn ids(&self) -> (r: &Vec<u32>)
        ensures
            r@ == self@.ids,
    {
        &self.ids
    }

    /// The stored vector at position `i`.
    pub fn vector_at(&self, i: usize) -> (r: &V)
        requires
            index_wf(self@),
            i < self@.vectors.len(),
        ensures
            *r == self@.vectors[i as int],
    {
        &self.vectors[i]
    }

    /// Appends an entry; refused without effect when the id is already
    /// stored, so ids stay unique.
    pub fn insert(&mut self, id: u32, vector: V) -> (r: bool)
        requires
            index_wf(old(self)@),
        ensures
            index_wf(final(self)@),
            old(self)@.ids.contains(id) ==> {
                &&& !r
                &&& final(self)@ == old(self)@
            },
            !old(self)@.ids.contains(id) ==> {
                &&& r
                &&& final(self)@.ids == old(self)@.ids.push(id)
                &&& final(self)@.vectors == old(self)@.vectors.push(vector)
            },
    {
        if self.has_id(id) {
            return false;
        }
        proof {
            broadcast use vstd::seq_lib::lemma_seq_contains_after_push;

        }
        self.ids.push(id);
        self.vectors.push(vector);
        proof {
            assert forall|i: int, j: int|
                0 <= i < j < self@.ids.len() implies self@.ids[i] != self@.ids[j] by {
                if j == self@.ids.len() - 1 {
                    assert(old(self)@.ids.contains(old(self)@.ids[i]));
                }
            }
        }
        true
    }

    /// Drains the index: every stored vector is returned in insertion
    /// order, and the index becomes empty.
    pub fn reset(&mut self) -> (r: Vec<V>)
        ensures
            final(self)@.ids.len() == 0,
            final(self)@.vectors.len() == 0,
            index_wf(final(self)@),
            r@ == old(self)@.vectors,
    {
        let mut out: Vec<V> = Vec::new();
        core::mem::swap(&mut out, &mut self.vectors);
        self.ids.clear();
        out
    }
}

/// Whether entry `a` ranks strictly before entry `b`: a higher score, or an
/// equal score and an earlier insertion position.
pub open spec fn ranks_before(scores: Seq<i64>, a: int, b: int) -> bool {
    scores[a] > scores[b] || (scores[a] == scores[b] && a < b)
}

/// The number of selected entries: `k`, capped by the number of entries.
pub open spec fn top_k_len(n: int, k: int) -> int {
    if k <= n {
        k
    } else {
        n
    }
}

/// The number of `true` entries.
spec fn count_true(s: Seq<bool>) -> int
    decreases s.len(),
{
    if s.len() == 0 {
        0
    } else {
        count_true(s.drop_last()) + (if s.last() {
            1int
        } else {
            0int
        })
    }
}

proof fn lemma_count_true_bound(s: Seq<bool>)
    ensures
        0 <= count_true(s) <= s.len(),
    decreases s.len(),
{
    if s.len() > 0 {
        lemma_count_true_bound(s.drop_last());
    }
}

proof fn lemma_count_true_all(s: Seq<bool>)
    requires
        forall|j: int| 0 <= j < s.len() ==> s[j],
    ensures
        count_true(s) == s.len(),
    decreases s.len(),
{
    if s.len() > 0 {
        lemma_count_true_all(s.drop_last());
    }
}

proof fn lemma_count_true_update(s: Seq<bool>, j: int)
    requires
        0 <= j < s.len(),
        !s[j],
    ensures
        count_true(s.update(j, true)) == count_true(s) + 1,
    decreases s.len(),
{
    if j == s.len() - 1 {
        assert(s.update(j, true).drop_last() =~= s.drop_last());
        assert(s.update(j, true).last());
    } else {
        assert(s.update(j, true).drop_last() =~= s.drop_last().update(j, true));
        lemma_count_true_update(s.drop_last(), j);
        assert(s.update(j, true).last() == s.last());
    }
}

/// Scans for the best entry not yet taken.
fn best_remaining(scores: &Vec<i64>, taken: &Vec<bool>) -> (r: Option<usize>)
    requires
        scores@.len() == taken@.len(),
    ensures
        match r {
            Some(b) => {
                &&& b < scores@.len()
                &&& !taken@[b as int]
                &&& forall|j: int|
                    0 <= j < scores@.len() && !taken@[j] && j != b ==> ranks_before(
                        scores@,
                        b as int,
                        j,
                    )
            },
            None => forall|j: int| 0 <= j < taken@.len() ==> taken@[j],
        },
{
    let mut best: Option<usize> = None;
    let mut j: usize = 0;
    while j < scores.len()
        invariant
            0 <= j <= scores@.len(),
            scores@.len() == taken@.len(),
            match best {
                Some(b) => {
                    &&& b < j
                    &&& !taken@[b as int]
                    &&& forall|m: int|
                        0 <= m < j && !taken@[m] && m != b ==> ranks_before(scores@, b as int, m)
                },
                None => forall|m: int| 0 <= m < j ==> taken@[m],
            },
        decreases scores@.len() - j,
    {
        if !taken[j] {
            match best {
                None => {
                    best = Some(j);
                },
                Some(b) => {
                    if scores[j] > scores[b] {
                        best = Some(j);
                    }
                },
            }
        }
        j += 1;
    }
    best
}

/// Selects the top `k` entries by score: exactly `min(k, n)` positions,
/// ordered by descending score with ties broken by ascending position, and
/// every selected position ranking before every unselected one.
pub fn top_k_indices(scores: &Vec<i64>, k: usize) -> (r: Vec<usize>)
    ensures
        r@.len() == top_k_len(scores@.len() as int, k as int),
        forall|a: int| 0 <= a < r@.len() ==> (#[trigger] r@[a]) < scores@.len(),
        forall|a: int, b: int|
            0 <= a < b < r@.len() ==> ranks_before(scores@, r@[a] as int, r@[b] as int),
        forall|a: int, j: usize|
            #![trigger r@[a], r@.contains(j)]
            0 <= a < r@.len() && (j as int) < scores@.len() && !r@.contains(j) ==> ranks_before(
                scores@,
                r@[a] as int,
                j as int,
            ),
{
    let n = scores.len();
    let count = if k <= n {
        k
    } else {
        n
    };
    let mut taken: Vec<bool> = Vec::new();
    let mut t: usize = 0;
    while t < n
        invariant
            0 <= t <= n,
            taken@.len() == t,
            forall|j: int| 0 <= j < t ==> !taken@[j],
            count_true(taken@) == 0,
        decreases n - t,
    {
        let ghost tk = taken@;
        taken.push(false);
        proof {
            assert(taken@.drop_last() =~= tk);
        }
        t += 1;
    }
    let mut r: Vec<usize> = Vec::new();
    while r.len() < count
        invariant
            n == scores@.len(),
            taken@.len() == n,
            count <= n,
            count == top_k_len(n as int, k as int),
            r@.len() <= count,
            count_true(taken@) == r@.len(),
            forall|j: int| 0 <= j < n ==> (taken@[j] <==> r@.contains(j as usize)),
            forall|a: int| 0 <= a < r@.len() ==> (#[trigger] r@[a]) < n,
            forall|a: int, b: int|
                0 <= a < b < r@.len() ==> ranks_before(scores@, r@[a] as int, r@[b] as int),
            forall|a: int, j: int|
                #![trigger r@[a], taken@[j]]
                0 <= a < r@.len() && 0 <= j < n && !taken@[j] ==> ranks_before(
                    scores@,
                    r@[a] as int,
                    j,
                ),
        decreases count - r.len(),
    {
        let b = match best_remaining(scores, &taken) {
            Some(b) => b,
            None => {
                proof {
                    lemma_count_true_all(taken@);
                    assert(false);
                }
                return r;
            },
        };
        let ghost r0 = r@;
        let ghost tk = taken@;
        r.push(b);
        taken.set(b, true);
        proof {
            broadcast use vstd::seq_lib::lemma_seq_contains_after_push;

            lemma_count_true_update(tk, b as int);
            assert forall|j: int| 0 <= j < n implies (taken@[j] <==> r@.contains(j as usize)) by {
                if j != b {
                    assert(taken@[j] == tk[j]);
                }
            }
            assert forall|a: int, j: int|
                #![trigger r@[a], taken@[j]]
                0 <= a < r@.len() && 0 <= j < n && !taken@[j] implies ranks_before(
                scores@,
                r@[a] as int,
                j,
            ) by {
                assert(!tk[j] && j != b);
                if a < r0.len() {
                    assert(r@[a] == r0[a]);
                } else {
                    assert(r@[a] == b);
                }
            }
            assert forall|a: int, c: int|
                0 <= a < c < r@.len() implies ranks_before(scores@, r@[a] as int, r@[c] as int) by {
                if c == r@.len() - 1 {
                    assert(r@[c] == b);
                    assert(r0.contains(r0[a]));
                    assert(tk[r0[a] as int]);
                    assert(!tk[b as int] && b as int != r0[a] as int);
                    assert(ranks_before(scores@, r0[a] as int, b as int));
                }
            }
        }
    }
    proof {
        lemma_count_true_bound(taken@);
        assert forall|a: int, j: usize|
            #![trigger r@[a], r@.contains(j)]
            0 <= a < r@.len() && (j as int) < scores@.len() && !r@.contains(j) implies ranks_before(
            scores@,
            r@[a] as int,
            j as int,
        ) by {
            assert(!taken@[j as int]);
        }
    }
    r
}

} // verus!

verus! {

impl<V> VectorIndex<V> {
    /// The chunk ids at the given positions, in order.
    pub fn ids_at(&self, positions: &Vec<usize>) -> (r: Vec<u32>)
        requires
            forall|a: int|
                0 <= a < positions@.len() ==> (#[trigger] positions@[a]) < self@.ids.len(),
        ensures
            r@.len() == positions@.len(),
            forall|a: int| 0 <= a < r@.len() ==> r@[a] == self@.ids[positions@[a] as int],
    {
        let mut out: Vec<u32> = Vec::new();
        let mut i: usize = 0;
        while i < positions.len()
            invariant
                0 <= i <= positions@.len(),
                forall|a: int|
                    0 <= a < positions@.len() ==> (#[trigger] positions@[a]) < self@.ids.len(),
                out@.len() == i,
                forall|a: int| 0 <= a < i ==> out@[a] == self@.ids[positions@[a] as int],
            decreases positions@.len() - i,
        {
            out.push(self.ids[positions[i]]);
            i += 1;
        }
        out
    }
}

} // verus!
