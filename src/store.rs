use vstd::prelude::*;

use crate::ranking::{cosine_or_zero, cosine_or_zero_spec, is_top_k, top_k, SearchResult};

verus! {

/// The one way an operation on a store can fail: a vector whose length is not
/// the store's dimensionality.
#[derive(Debug, Clone, Copy, PartialEq, Eq)]
pub enum VectorStoreError {
    DimensionMismatch { expected: usize, actual: usize },
}

/// What a store holds: its fixed dimensionality, the vectors in insertion
/// order, and beside each vector the norm that was recorded with it.
/// Components and norms are bit patterns of single-precision floats.
pub ghost struct StoreModel {
    pub dimensions: nat,
    pub vectors: Seq<Seq<u32>>,
    pub norms: Seq<u32>,
}

impl StoreModel {
    /// The model after appending `vector` with its `norm`.
    pub open spec fn appended(self, vector: Seq<u32>, norm: u32) -> StoreModel {
        StoreModel {
            dimensions: self.dimensions,
            vectors: self.vectors.push(vector),
            norms: self.norms.push(norm),
        }
    }

    /// The model after `add` is called with each vector and norm of `calls` in
    /// order: those of the store's dimensionality are appended, the others refused.
    pub open spec fn after_adds(self, calls: Seq<(Seq<u32>, u32)>) -> StoreModel
        decreases calls.len(),
    {
        if calls.len() == 0 {
            self
        } else {
            let prior = self.after_adds(calls.drop_last());
            let (vector, norm) = calls.last();
            if vector.len() == self.dimensions {
                prior.appended(vector, norm)
            } else {
                prior
            }
        }
    }

    /// The similarity of a query to each stored vector, by index, from the
    /// query's norm and the quotients computed for it.
    pub open spec fn similarities(self, query_norm: u32, quotients: Seq<u32>) -> Seq<u32> {
        Seq::new(
            self.vectors.len(),
            |i: int| cosine_or_zero_spec(query_norm, self.norms[i], quotients[i]),
        )
    }

    /// The error for an input of `actual` components.
    pub open spec fn mismatch(self, actual: nat) -> VectorStoreError {
        VectorStoreError::DimensionMismatch { expected: self.dimensions as usize, actual: actual as usize }
    }
}

/// An append-only store of fixed-length vectors, each with its norm recorded
/// when it was added. The index a vector receives never changes.
pub struct VectorStore {
    dimensions: usize,
    vectors: Vec<Vec<u32>>,
    norms: Vec<u32>,
    count: usize,
}

impl View for VectorStore {
    type V = StoreModel;

    closed spec fn view(&self) -> StoreModel {
        StoreModel {
            dimensions: self.dimensions as nat,
            vectors: self.vectors@.map_values(|v: Vec<u32>| v@),
            norms: self.norms@,
        }
    }
}

impl VectorStore {
    /// The buffers run in parallel, `count` is their length, and every stored
    /// vector has the store's dimensionality.
    pub closed spec fn wf(&self) -> bool {
        &&& self.count == self.vectors@.len()
        &&& self.norms@.len() == self.vectors@.len()
        &&& forall|i: int| 0 <= i < self.vectors@.len() ==> (#[trigger] self.vectors@[i])@.len() == self.dimensions
    }

    /// An empty store for vectors of `dimensions` components.
    pub fn new(dimensions: usize) -> (r: VectorStore)
        ensures
            r.wf(),
            r@.dimensions == dimensions,
            r@.vectors.len() == 0,
            r@.norms.len() == 0,
    {
        let r = VectorStore { dimensions, vectors: Vec::new(), norms: Vec::new(), count: 0 };
        assert(r@.vectors =~= Seq::<Seq<u32>>::empty());
        r
    }

    /// Appends `vector`, recorded with its `norm`, and returns its index: the
    /// number of vectors stored before. A vector of another length is refused
    /// and the store is left as it was.
    pub fn add(&mut self, vector: &[u32], norm: u32) -> (r: Result<usize, VectorStoreError>)
        requires
            old(self).wf(),
        ensures
            final(self).wf(),
            vector@.len() == old(self)@.dimensions ==> r == Ok::<usize, VectorStoreError>(
                old(self)@.vectors.len() as usize,
            ) && final(self)@ == old(self)@.appended(vector@, norm),
            vector@.len() != old(self)@.dimensions ==> r == Err::<usize, VectorStoreError>(
                old(self)@.mismatch(vector@.len()),
            ) && final(self)@ == old(self)@,
    {
        if vector.len() != self.dimensions {
            return Err(VectorStoreError::DimensionMismatch { expected: self.dimensions, actual: vector.len() });
        }
        let index = self.count;
        let ghost before = self@;
        let row = vstd::slice::slice_to_vec(vector);
        self.vectors.push(row);
        self.norms.push(norm);
        self.count = self.vectors.len();
        assert(self@.vectors =~= before.vectors.push(vector@));
        Ok(index)
    }

    /// The `k` stored vectors most similar to `query`, best first, each with its
    /// index and similarity (every vector when fewer are stored). `query_norm`
    /// is the query's norm and `quotients[i]` the dot product of the query with
    /// vector `i` divided by the product of the two norms; where either norm is
    /// zero the similarity is zero. Ties go to the earlier index. A query of
    /// another length is refused.
    pub fn search(&self, query: &[u32], k: usize, query_norm: u32, quotients: &[u32]) -> (r: Result<
        Vec<SearchResult>,
        VectorStoreError,
    >)
        requires
            self.wf(),
            quotients@.len() == self@.vectors.len(),
        ensures
            query@.len() == self@.dimensions ==> r is Ok && is_top_k(
                self@.similarities(query_norm, quotients@),
                k as int,
                r->Ok_0@,
            ),
            query@.len() != self@.dimensions ==> r == Err::<Vec<SearchResult>, VectorStoreError>(
                self@.mismatch(query@.len()),
            ),
    {
        if query.len() != self.dimensions {
            return Err(VectorStoreError::DimensionMismatch { expected: self.dimensions, actual: query.len() });
        }
        let n = self.count;
        let mut similarities: Vec<u32> = Vec::new();
        let mut i: usize = 0;
        while i < n
            invariant
                self.wf(),
                n == self@.vectors.len(),
                quotients@.len() == n,
                i <= n,
                similarities@ =~= self@.similarities(query_norm, quotients@).subrange(0, i as int),
            decreases n - i,
        {
            similarities.push(cosine_or_zero(query_norm, self.norms[i], quotients[i]));
            i += 1;
        }
        assert(similarities@ =~= self@.similarities(query_norm, quotients@));
        Ok(top_k(similarities.as_slice(), k))
    }

    /// The number of components of every vector.
    pub fn dimensions(&self) -> (r: usize)
        ensures
            r == self@.dimensions,
    {
        self.dimensions
    }

    /// The number of stored vectors.
    pub fn len(&self) -> (r: usize)
        requires
            self.wf(),
        ensures
            r == self@.vectors.len(),
    {
        self.count
    }

    /// No vector is stored.
    pub fn is_empty(&self) -> (r: bool)
        requires
            self.wf(),
        ensures
            r == (self@.vectors.len() == 0),
    {
        self.count == 0
    }

    /// The vector stored at `index`.
    pub fn vector(&self, index: usize) -> (r: &[u32])
        requires
            self.wf(),
            index < self@.vectors.len(),
        ensures
            r@ == self@.vectors[index as int],
    {
        self.vectors[index].as_slice()
    }

    /// The norm recorded with the vector at `index`.
    pub fn norm(&self, index: usize) -> (r: u32)
        requires
            self.wf(),
            index < self@.vectors.len(),
        ensures
            r == self@.norms[index as int],
    {
        self.norms[index]
    }
}

/// Adding never moves what was stored: every earlier index still names its
/// vector and norm, and the new vector takes the next index, the count before.
pub proof fn lemma_add_keeps_indices(m: StoreModel, vector: Seq<u32>, norm: u32)
    ensures
        m.appended(vector, norm).vectors.len() == m.vectors.len() + 1,
        m.appended(vector, norm).vectors[m.vectors.len() as int] == vector,
        m.appended(vector, norm).norms[m.norms.len() as int] == norm,
        forall|i: int|
            0 <= i < m.vectors.len() ==> #[trigger] m.appended(vector, norm).vectors[i]
                == m.vectors[i],
        forall|i: int|
            0 <= i < m.norms.len() ==> #[trigger] m.appended(vector, norm).norms[i] == m.norms[i],
{
}

/// The number of `calls` whose vector has `dimensions` components: the calls
/// that `add` accepts.
pub open spec fn accepted(dimensions: nat, calls: Seq<(Seq<u32>, u32)>) -> nat
    decreases calls.len(),
{
    if calls.len() == 0 {
        0
    } else {
        accepted(dimensions, calls.drop_last()) + if calls.last().0.len() == dimensions {
            1nat
        } else {
            0nat
        }
    }
}

/// Over any series of `add` calls the store only grows, by one vector per
/// accepted call: what was stored keeps its index, so on a fresh store the
/// `n`-th accepted call receives index `n - 1` and keeps it.
pub proof fn lemma_adds_keep_order(m: StoreModel, calls: Seq<(Seq<u32>, u32)>)
    ensures
        m.after_adds(calls).dimensions == m.dimensions,
        m.after_adds(calls).vectors.len() == m.vectors.len() + accepted(m.dimensions, calls),
        m.after_adds(calls).norms.len() == m.norms.len() + accepted(m.dimensions, calls),
        forall|i: int|
            0 <= i < m.vectors.len() ==> #[trigger] m.after_adds(calls).vectors[i] == m.vectors[i],
        forall|i: int|
            0 <= i < m.norms.len() ==> #[trigger] m.after_adds(calls).norms[i] == m.norms[i],
    decreases calls.len(),
{
    if calls.len() > 0 {
        lemma_adds_keep_order(m, calls.drop_last());
        let prior = m.after_adds(calls.drop_last());
        let (vector, norm) = calls.last();
        if vector.len() == m.dimensions {
            lemma_add_keeps_indices(prior, vector, norm);
        }
    }
}

/// A store that holds no vector answers every search with nothing.
pub proof fn lemma_empty_store_finds_nothing(
    m: StoreModel,
    query_norm: u32,
    quotients: Seq<u32>,
    k: int,
    r: Seq<SearchResult>,
)
    requires
        m.vectors.len() == 0,
        0 <= k,
        is_top_k(m.similarities(query_norm, quotients), k, r),
    ensures
        r.len() == 0,
{
}

} // verus!
