use vstd::prelude::*;

verus! {

/// Sign bit of an IEEE-754 single-precision bit pattern.
pub const SIGN_BIT: u32 = 0x8000_0000;

/// One match of a query: the insertion index of a stored vector and its cosine
/// similarity to the query, held as the bit pattern of a single-precision float.
#[derive(Debug, Clone, Copy, PartialEq, Eq)]
pub struct SearchResult {
    pub index: usize,
    pub similarity: u32,
}

/// An unsigned key whose natural order is the IEEE-754 total order of the
/// single-precision value with these bits: a negative value has all its bits
/// inverted, a non-negative one gets its sign bit set.
pub open spec fn order_key(bits: u32) -> u32 {
    if bits & SIGN_BIT != 0 {
        !bits
    } else {
        bits | SIGN_BIT
    }
}

/// Entry `i` of `sims` ranks above entry `j`: its similarity is greater in the
/// total order, or equal with an earlier insertion index.
pub open spec fn ranks_above(sims: Seq<u32>, i: int, j: int) -> bool {
    order_key(sims[i]) > order_key(sims[j]) || (order_key(sims[i]) == order_key(sims[j]) && i < j)
}

/// Some result in `r` names index `i`.
pub open spec fn lists_index(r: Seq<SearchResult>, i: int) -> bool {
    exists|p: int| 0 <= p < r.len() && #[trigger] r[p].index == i
}

/// The number of results a query owes: `k`, or every entry when there are fewer.
pub open spec fn result_len(n: int, k: int) -> int {
    if k < n {
        k
    } else {
        n
    }
}

/// `r` holds the `k` entries of `sims` that rank highest (all of them when there
/// are fewer), best first, each with its own similarity.
pub open spec fn is_top_k(sims: Seq<u32>, k: int, r: Seq<SearchResult>) -> bool {
    &&& r.len() == result_len(sims.len() as int, k)
    &&& forall|p: int|
        0 <= p < r.len() ==> (#[trigger] r[p]).index < sims.len() && r[p].similarity
            == sims[r[p].index as int]
    &&& forall|p: int, q: int|
        #![trigger r[p], r[q]]
        0 <= p < q < r.len() ==> ranks_above(sims, r[p].index as int, r[q].index as int)
    &&& forall|i: int, p: int|
        #![trigger lists_index(r, i), r[p]]
        0 <= i < sims.len() && 0 <= p < r.len() && !lists_index(r, i) ==> ranks_above(
            sims,
            r[p].index as int,
            i,
        )
}

/// `buf` is what the selection holds after scanning the first `i` entries of
/// `sims`: the top `k` of that prefix, best first.
pub open spec fn holds_top_of_prefix(sims: Seq<u32>, k: int, i: int, buf: Seq<SearchResult>) -> bool {
    &&& buf.len() == result_len(i, k)
    &&& forall|p: int|
        0 <= p < buf.len() ==> (#[trigger] buf[p]).index < i && buf[p].similarity
            == sims[buf[p].index as int]
    &&& forall|p: int, q: int|
        #![trigger buf[p], buf[q]]
        0 <= p < q < buf.len() ==> ranks_above(sims, buf[p].index as int, buf[q].index as int)
    &&& forall|j: int, p: int|
        #![trigger lists_index(buf, j), buf[p]]
        0 <= j < i && 0 <= p < buf.len() && !lists_index(buf, j) ==> ranks_above(
            sims,
            buf[p].index as int,
            j,
        )
    &&& buf.len() < k ==> forall|j: int| 0 <= j < i ==> #[trigger] lists_index(buf, j)
}

/// Inserting entry `i` at its rank `pos` into the top of the first `i` entries,
/// and cutting the buffer back to `k`, gives the top of the first `i + 1`.
proof fn lemma_insert_keeps_top(
    sims: Seq<u32>,
    k: int,
    i: int,
    prev: Seq<SearchResult>,
    pos: int,
    entry: SearchResult,
    next: Seq<SearchResult>,
)
    requires
        0 <= i < sims.len(),
        holds_top_of_prefix(sims, k, i, prev),
        0 <= pos <= prev.len(),
        pos < k,
        entry.index == i,
        entry.similarity == sims[i],
        forall|q: int| 0 <= q < pos ==> ranks_above(sims, #[trigger] prev[q].index as int, i),
        forall|q: int| pos <= q < prev.len() ==> ranks_above(sims, i, #[trigger] prev[q].index as int),
        next == prev.insert(pos, entry).subrange(0, result_len(i + 1, k)),
    ensures
        holds_top_of_prefix(sims, k, i + 1, next),
{
    let m = prev.len() as int;
    let ins = prev.insert(pos, entry);
    prev.insert_ensures(pos, entry);
    let len = result_len(i + 1, k);
    assert(len == if m == k { m } else { m + 1 });
    assert forall|t: int| 0 <= t < len implies #[trigger] next[t] == if t < pos {
        prev[t]
    } else if t == pos {
        entry
    } else {
        prev[t - 1]
    } by {
        if t > pos {
            assert(ins[(t - 1) + 1] == prev[t - 1]);
        }
    }
    assert forall|p: int, q: int|
        #![trigger next[p], next[q]]
        0 <= p < q < next.len() implies ranks_above(sims, next[p].index as int, next[q].index as int) by {
        if q < pos {
            assert(ranks_above(sims, prev[p].index as int, prev[q].index as int));
        } else if q == pos {
        } else if p == pos {
        } else if p < pos {
            assert(ranks_above(sims, prev[p].index as int, prev[q - 1].index as int));
        } else {
            assert(ranks_above(sims, prev[p - 1].index as int, prev[q - 1].index as int));
        }
    }
    assert(lists_index(next, i)) by {
        assert(next[pos].index == i);
    }
    assert forall|j: int| 0 <= j < i && lists_index(prev, j) && !(j == prev[m - 1].index && len == m) implies #[trigger] lists_index(next, j) by {
        let t = choose|t: int| 0 <= t < prev.len() && #[trigger] prev[t].index == j;
        if t < pos {
            assert(next[t].index == j);
        } else {
            assert(next[t + 1].index == j);
        }
    }
    assert forall|j: int, p: int|
        #![trigger lists_index(next, j), next[p]]
        0 <= j < i + 1 && 0 <= p < next.len() && !lists_index(next, j) implies ranks_above(
            sims,
            next[p].index as int,
            j,
        ) by {
        if lists_index(prev, j) {
            // only the weakest entry of a full buffer leaves
            assert(j == prev[m - 1].index);
            if p < pos {
                assert(ranks_above(sims, prev[p].index as int, prev[m - 1].index as int));
            } else if p > pos {
                assert(ranks_above(sims, prev[p - 1].index as int, prev[m - 1].index as int));
            }
        } else {
            assert(m == k);
            assert(ranks_above(sims, prev[m - 1].index as int, j));
            if p < pos {
                assert(ranks_above(sims, prev[p].index as int, j));
            } else if p > pos {
                assert(ranks_above(sims, prev[p - 1].index as int, j));
            } else {
                assert(ranks_above(sims, i, prev[m - 1].index as int));
            }
        }
    }
}

/// Two results that agree below position `p` cannot differ at `p` with the
/// first one ranking higher there.
proof fn lemma_no_first_difference(sims: Seq<u32>, k: int, r1: Seq<SearchResult>, r2: Seq<SearchResult>, p: int)
    requires
        is_top_k(sims, k, r1),
        is_top_k(sims, k, r2),
        0 <= p < r1.len(),
        forall|q: int| 0 <= q < p ==> #[trigger] r1[q] == r2[q],
        r1[p].index != r2[p].index,
    ensures
        !ranks_above(sims, r1[p].index as int, r2[p].index as int),
{
    let a = r1[p].index as int;
    let b = r2[p].index as int;
    if ranks_above(sims, a, b) {
        if lists_index(r2, a) {
            let q = choose|q: int| 0 <= q < r2.len() && #[trigger] r2[q].index == a;
            if q < p {
                assert(r1[q] == r2[q]);
                assert(ranks_above(sims, r1[q].index as int, r1[p].index as int));
            } else {
                assert(ranks_above(sims, r2[p].index as int, r2[q].index as int));
            }
        } else {
            assert(ranks_above(sims, r2[p].index as int, a));
        }
    }
}

proof fn lemma_top_k_agree_upto(sims: Seq<u32>, k: int, r1: Seq<SearchResult>, r2: Seq<SearchResult>, p: int)
    requires
        is_top_k(sims, k, r1),
        is_top_k(sims, k, r2),
        0 <= p < r1.len(),
    ensures
        forall|q: int| 0 <= q <= p ==> #[trigger] r1[q] == r2[q],
    decreases p,
{
    if p > 0 {
        lemma_top_k_agree_upto(sims, k, r1, r2, p - 1);
    }
    if r1[p].index != r2[p].index {
        lemma_no_first_difference(sims, k, r1, r2, p);
        lemma_no_first_difference(sims, k, r2, r1, p);
    }
}

/// The top `k` of a list of similarities is determined by the list and `k`
/// alone: searching twice with the same arguments gives the same results in
/// the same order.
pub proof fn lemma_top_k_unique(sims: Seq<u32>, k: int, r1: Seq<SearchResult>, r2: Seq<SearchResult>)
    requires
        is_top_k(sims, k, r1),
        is_top_k(sims, k, r2),
    ensures
        r1 == r2,
{
    if r1.len() > 0 {
        lemma_top_k_agree_upto(sims, k, r1, r2, r1.len() - 1);
    }
    assert(r1 =~= r2);
}

/// The size of a top-`k` result: `k` when at least `k` entries exist, every
/// entry when `k` exceeds their number, nothing when `k` is zero.
pub proof fn lemma_top_k_size(sims: Seq<u32>, k: int, r: Seq<SearchResult>)
    requires
        0 <= k,
        is_top_k(sims, k, r),
    ensures
        k <= sims.len() ==> r.len() == k,
        k > sims.len() ==> r.len() == sims.len(),
        k == 0 ==> r.len() == 0,
        sims.len() == 0 ==> r.len() == 0,
{
}

/// The bits of a single-precision zero, of either sign.
pub open spec fn is_zero_bits(bits: u32) -> bool {
    bits & 0x7FFF_FFFF == 0
}

/// The cosine similarity reported for a pair of vectors with norms
/// `query_norm` and `norm`, whose quotient of dot product by product of norms
/// is `quotient`: zero when either norm is zero, the quotient otherwise.
pub open spec fn cosine_or_zero_spec(query_norm: u32, norm: u32, quotient: u32) -> u32 {
    if is_zero_bits(query_norm) || is_zero_bits(norm) {
        0
    } else {
        quotient
    }
}

/// Applies the zero-norm rule of `cosine_or_zero_spec`: a similarity that
/// would divide by zero is reported as zero instead.
pub fn cosine_or_zero(query_norm: u32, norm: u32, quotient: u32) -> (r: u32)
    ensures
        r == cosine_or_zero_spec(query_norm, norm, quotient),
{
    if query_norm & 0x7FFF_FFFF == 0 || norm & 0x7FFF_FFFF == 0 {
        0
    } else {
        quotient
    }
}

/// Computes `order_key`.
pub fn total_order_key(bits: u32) -> (r: u32)
    ensures
        r == order_key(bits),
{
    if bits & SIGN_BIT != 0 {
        !bits
    } else {
        bits | SIGN_BIT
    }
}


/// Selects the `k` best-ranked entries of `similarities` (one per stored vector,
/// by insertion index), best first. A sorted buffer of at most `k` results keeps
/// its weakest entry last: a candidate is inserted at its rank, and the weakest
/// entry is evicted once the buffer holds more than `k`.
pub fn top_k(similarities: &[u32], k: usize) -> (r: Vec<SearchResult>)
    ensures
        is_top_k(similarities@, k as int, r@),
{
    let ghost sims = similarities@;
    let n = similarities.len();
    let mut best: Vec<SearchResult> = Vec::new();
    let mut i: usize = 0;
    while i < n
        invariant
            n == sims.len(),
            sims == similarities@,
            i <= n,
            holds_top_of_prefix(sims, k as int, i as int, best@),
        decreases n - i,
    {
        let similarity = similarities[i];
        let key = total_order_key(similarity);
        let len = best.len();
        if len < k || (len > 0 && key > total_order_key(best[len - 1].similarity)) {
            let mut pos: usize = 0;
            while pos < best.len() && total_order_key(best[pos].similarity) >= key
                invariant
                    i < n == sims.len(),
                    key == order_key(sims[i as int]),
                    holds_top_of_prefix(sims, k as int, i as int, best@),
                    pos <= best@.len(),
                    forall|q: int|
                        0 <= q < pos ==> ranks_above(
                            sims,
                            #[trigger] best@[q].index as int,
                            i as int,
                        ),
                decreases best@.len() - pos,
            {
                pos += 1;
            }
            let ghost prev = best@;
            let ghost entry = SearchResult { index: i, similarity };
            proof {
                assert forall|q: int| pos <= q < prev.len() implies ranks_above(
                    sims,
                    i as int,
                    #[trigger] prev[q].index as int,
                ) by {
                    assert(order_key(prev[pos as int].similarity) < key);
                    if q > pos {
                        assert(ranks_above(
                            sims,
                            prev[pos as int].index as int,
                            prev[q].index as int,
                        ));
                    }
                }
                if pos == len && len == k {
                    assert(ranks_above(sims, prev[len - 1].index as int, i as int));
                }
            }
            best.insert(pos, SearchResult { index: i, similarity });
            proof {
                prev.insert_ensures(pos as int, entry);
            }
            let ghost inserted = best@;
            if best.len() > k {
                best.pop();
            }
            proof {
                assert(best@ =~= inserted.subrange(0, best@.len() as int));
                lemma_insert_keeps_top(sims, k as int, i as int, prev, pos as int, entry, best@);
            }
        } else {
            // the buffer is full and the candidate does not beat its weakest entry
            proof {
                assert forall|p: int| 0 <= p < best@.len() implies ranks_above(
                    sims,
                    #[trigger] best@[p].index as int,
                    i as int,
                ) by {
                    if p < len - 1 {
                        assert(ranks_above(
                            sims,
                            best@[p].index as int,
                            best@[len - 1].index as int,
                        ));
                    }
                }
            }
        }
        i += 1;
    }
    best
}

} // verus!
