//! The in-memory reference vector store: exact cosine-similarity scan,
//! deterministic ranking, and source-based bookkeeping.
//!
//! This engine is the baseline any other backend must match: `search`
//! scores every stored document, ranks by descending score with ties broken
//! by insertion order, and truncates to `top_k`. The store itself is a
//! plain owned value; callers that share one across tasks wrap it in a lock.

use vstd::prelude::*;

use crate::errors::StoreError;
use crate::types::{string_eq_str, Document, DocumentView, SearchResult};
use crate::vecmath::{
    embedding_view, score_eq, score_le, score_of, score_wf, lemma_score_le_total,
    lemma_score_le_trans, cosine_similarity, score_le_exec, Score, MAX_DIM, norm_sq,
    is_unit_score, lemma_dot_bound, lemma_norm_sq_nonneg, lemma_score_le_unit,
};

verus! {

/// The metadata key that records where a document came from.
pub open spec fn source_key() -> Seq<char> {
    "source"@
}

/// The source recorded for a document, if any.
pub open spec fn doc_source(d: DocumentView) -> Option<Seq<char>> {
    if d.metadata.contains_key(source_key()) {
        Some(d.metadata[source_key()])
    } else {
        None
    }
}

/// `s` names `root` itself or a path nested under it.
pub open spec fn path_under(s: Seq<char>, root: Seq<char>) -> bool {
    s == root || (s.len() > root.len() && s.subrange(0, root.len() as int) == root && s[root.len() as int]
        == '/')
}

/// The document belongs to `root`: its source is `root` or nested under it.
pub open spec fn from_source(d: DocumentView, root: Seq<char>) -> bool {
    doc_source(d) matches Some(s) && path_under(s, root)
}

/// The result at rank `i` must precede the one at rank `j`: its score is
/// strictly greater, or the scores are equal and `i` was stored earlier.
pub open spec fn ranked_strictly_first(i: int, si: Score, j: int, sj: Score) -> bool {
    !score_le(si, sj) || (score_eq(si, sj) && i < j)
}

/// Document `i` is ranked before document `j` for query `q`.
pub open spec fn ranked_before(docs: Seq<DocumentView>, q: Seq<int>, i: int, j: int) -> bool {
    ranked_strictly_first(i, score_of(docs[i].embedding, q), j, score_of(docs[j].embedding, q))
}

/// `order` is the unique ranking of `docs` for query `q`, truncated to
/// `top_k`: distinct in-range indices, each ranked before the next, and
/// each ranked before every index that was left out.
pub open spec fn is_ranked_order(
    order: Seq<int>,
    docs: Seq<DocumentView>,
    q: Seq<int>,
    top_k: int,
) -> bool {
    &&& order.len() == vstd::math::min(top_k, docs.len() as int)
    &&& forall|a: int| 0 <= a < order.len() ==> 0 <= #[trigger] order[a] < docs.len()
    &&& forall|a: int, b: int|
        0 <= a < b < order.len() ==> ranked_before(docs, q, order[a], order[b])
    &&& forall|a: int, j: int|
        0 <= a < order.len() && 0 <= j < docs.len() && !order.contains(j) ==> ranked_before(
            docs,
            q,
            order[a],
            j,
        )
}

/// The predicate that `remove_by_source` keeps: documents not from `root`.
pub open spec fn keep_pred(root: Seq<char>) -> spec_fn(DocumentView) -> bool {
    |d: DocumentView| !from_source(d, root)
}

/// Some stored document carries this identifier.
pub open spec fn has_doc_id(docs: Seq<DocumentView>, id: Seq<char>) -> bool {
    exists|j: int| 0 <= j < docs.len() && (#[trigger] docs[j]).id == id
}

/// Every listed path is the source of some stored document.
pub open spec fn paths_sound(paths: Seq<String>, docs: Seq<DocumentView>) -> bool {
    forall|j: int|
        0 <= j < paths.len() ==> exists|i: int|
            0 <= i < docs.len() && doc_source(#[trigger] docs[i]) == Some((#[trigger] paths[j])@)
}

/// Every stored document's source is listed.
pub open spec fn paths_complete(paths: Seq<String>, docs: Seq<DocumentView>) -> bool {
    forall|i: int|
        0 <= i < docs.len() && doc_source(#[trigger] docs[i]) is Some ==> exists|j: int|
            0 <= j < paths.len() && (#[trigger] paths[j])@ == doc_source(docs[i]).unwrap()
}

/// An in-memory vector store over documents of one fixed dimensionality.
pub struct VectorStore {
    dim: usize,
    docs: Vec<Document>,
}

impl View for VectorStore {
    type V = Seq<DocumentView>;

    closed spec fn view(&self) -> Seq<DocumentView> {
        self.docs@.map_values(|d: Document| d@)
    }
}

/// A candidate under ranking: a stored document's index and its score.
#[derive(Clone, Copy)]
struct Cand {
    idx: usize,
    score: Score,
}

/// Index `v` still sits among the candidates or has been picked already.
spec fn covered(cands: Seq<Cand>, picked: Seq<Cand>, v: int) -> bool {
    (exists|j: int| 0 <= j < cands.len() && (#[trigger] cands[j]).idx == v) || (exists|j: int|
        0 <= j < picked.len() && (#[trigger] picked[j]).idx == v)
}

/// Decides which of two distinct candidates is ranked first.
fn ranked_first_exec(c1: &Cand, c2: &Cand) -> (r: bool)
    requires
        score_wf(c1.score),
        score_wf(c2.score),
    ensures
        r == ranked_strictly_first(c1.idx as int, c1.score, c2.idx as int, c2.score),
{
    let le12 = score_le_exec(&c1.score, &c2.score);
    if !le12 {
        true
    } else {
        let le21 = score_le_exec(&c2.score, &c1.score);
        le21 && c1.idx < c2.idx
    }
}

impl VectorStore {
    /// All stored documents are well formed and have the store's
    /// dimensionality.
    pub closed spec fn wf(&self) -> bool {
        &&& 1 <= self.dim <= MAX_DIM
        &&& forall|i: int|
            0 <= i < self.docs@.len() ==> (#[trigger] self.docs@[i]).wf() && self.docs@[i]@.embedding.len()
                == self.dim
    }

    /// The fixed embedding dimensionality agreed at creation.
    pub closed spec fn dim_spec(&self) -> int {
        self.dim as int
    }

    /// Creates an empty store for embeddings of length `dim`.
    ///
    /// The bound on `dim` keeps every similarity computation free of
    /// overflow; it is a machine limit, not a policy.
    pub fn new(dim: usize) -> (r: VectorStore)
        requires
            1 <= dim <= MAX_DIM,
        ensures
            r.wf(),
            r@ == Seq::<DocumentView>::empty(),
            r.dim_spec() == dim,
    {
        let r = VectorStore { dim, docs: Vec::new() };
        proof {
            assert(r@ =~= Seq::<DocumentView>::empty());
        }
        r
    }

    /// The dimensionality this store accepts.
    pub fn dimension(&self) -> (r: usize)
        ensures
            r == self.dim_spec(),
    {
        self.dim
    }

    /// Appends a document.
    ///
    /// Succeeds exactly when the embedding's length is the store's
    /// dimensionality; otherwise the store is unchanged and the mismatch is
    /// reported.
    pub fn add(&mut self, document: Document) -> (r: Result<(), StoreError>)
        requires
            old(self).wf(),
            document.wf(),
        ensures
            final(self).wf(),
            final(self).dim_spec() == old(self).dim_spec(),
            document@.embedding.len() == old(self).dim_spec() ==> r is Ok && final(self)@ == old(
                self,
            )@.push(document@),
            document@.embedding.len() != old(self).dim_spec() ==> r == Err::<
                (),
                StoreError,
            >(StoreError::DimensionMismatch) && final(self)@ == old(self)@,
    {
        if document.embedding.len() != self.dim {
            return Err(StoreError::DimensionMismatch);
        }
        let ghost pre = self.docs@;
        self.docs.push(document);
        proof {
            assert(self@ =~= old(self)@.push(self.docs@.last()@));
        }
        Ok(())
    }

    /// Tests whether any stored document carries the given identifier.
    pub fn contains_id(&self, id: &str) -> (r: bool)
        ensures
            r == has_doc_id(self@, id@),
    {
        let mut i: usize = 0;
        while i < self.docs.len()
            invariant
                0 <= i <= self.docs@.len(),
                forall|j: int| 0 <= j < i ==> (#[trigger] self@[j]).id != id@,
            decreases self.docs@.len() - i,
        {
            if string_eq_str(&self.docs[i].id, id) {
                proof {
                    assert(self@[i as int].id == id@);
                }
                return true;
            }
            i = i + 1;
        }
        proof {
            if has_doc_id(self@, id@) {
                let j = choose|j: int| 0 <= j < self@.len() && (#[trigger] self@[j]).id == id@;
                assert(self@[j].id != id@);
            }
        }
        false
    }

    /// The number of stored documents.
    pub fn count(&self) -> (r: usize)
        ensures
            r == self@.len(),
    {
        self.docs.len()
    }

    /// Removes every document. Idempotent.
    pub fn clear(&mut self)
        requires
            old(self).wf(),
        ensures
            final(self).wf(),
            final(self).dim_spec() == old(self).dim_spec(),
            final(self)@ == Seq::<DocumentView>::empty(),
    {
        self.docs.clear();
        proof {
            assert(self@ =~= Seq::<DocumentView>::empty());
        }
    }

    /// Ranks every stored document by exact cosine similarity against
    /// `query` and returns the best `top_k`, best first.
    ///
    /// Ranking is total and deterministic: descending score, ties broken by
    /// insertion order. A query of the wrong length scores zero against
    /// every document rather than failing.
    pub fn search(&self, query: &Vec<i16>, top_k: usize) -> (r: Vec<SearchResult>)
        requires
            self.wf(),
        ensures
            r@.len() == vstd::math::min(top_k as int, self@.len() as int),
            forall|a: int, b: int|
                0 <= a < b < r@.len() ==> score_le(#[trigger] r@[b].score, #[trigger] r@[a].score),
            exists|order: Seq<int>|
                {
                    &&& is_ranked_order(order, self@, embedding_view(query@), top_k as int)
                    &&& forall|a: int|
                        0 <= a < order.len() ==> (#[trigger] r@[a]).document@ == self@[order[a]]
                            && r@[a].score == score_of(
                            self@[order[a]].embedding,
                            embedding_view(query@),
                        )
                },
    {
        let ghost qv = embedding_view(query@);
        let n = self.docs.len();
        let q_len_matches = query.len() == self.dim;

        // Score every document in insertion order.
        let mut cands: Vec<Cand> = Vec::new();
        let mut i: usize = 0;
        while i < n
            invariant
                0 <= i <= n,
                n == self.docs@.len(),
                self.wf(),
                q_len_matches == (query@.len() == self.dim_spec()),
                cands@.len() == i,
                forall|j: int|
                    0 <= j < i ==> (#[trigger] cands@[j]).idx == j && cands@[j].score == score_of(
                        self@[j].embedding,
                        embedding_view(query@),
                    ) && score_wf(cands@[j].score),
            decreases n - i,
        {
            let s = if q_len_matches {
                cosine_similarity(&self.docs[i].embedding, query)
            } else {
                proof {
                    assert(self@[i as int].embedding.len() != embedding_view(query@).len());
                }
                Score { dot: 0, norm_a: 0, norm_b: 0 }
            };
            cands.push(Cand { idx: i, score: s });
            i = i + 1;
        }

        let k = if top_k < n {
            top_k
        } else {
            n
        };

        // Repeatedly extract the highest-ranked remaining candidate.
        let mut picked: Vec<Cand> = Vec::new();
        proof {
            assert forall|v: int| 0 <= v < n implies covered(cands@, picked@, v) by {
                assert(cands@[v].idx == v);
            }
        }
        while picked.len() < k
            invariant
                k <= n,
                n == self.docs@.len(),
                self.wf(),
                picked@.len() <= k,
                picked@.len() + cands@.len() == n,
                forall|j: int|
                    0 <= j < cands@.len() ==> 0 <= (#[trigger] cands@[j]).idx < n && cands@[j].score
                        == score_of(self@[cands@[j].idx as int].embedding, embedding_view(query@))
                        && score_wf(cands@[j].score),
                forall|j: int|
                    0 <= j < picked@.len() ==> 0 <= (#[trigger] picked@[j]).idx < n
                        && picked@[j].score == score_of(
                        self@[picked@[j].idx as int].embedding,
                        embedding_view(query@),
                    ) && score_wf(picked@[j].score),
                // every stored index is still a candidate or already picked
                forall|v: int| 0 <= v < n ==> #[trigger] covered(cands@, picked@, v),
                // indices are pairwise distinct across both vectors
                forall|a: int, b: int|
                    0 <= a < b < cands@.len() ==> (#[trigger] cands@[a]).idx != (
                    #[trigger] cands@[b]).idx,
                forall|a: int, b: int|
                    0 <= a < b < picked@.len() ==> (#[trigger] picked@[a]).idx != (
                    #[trigger] picked@[b]).idx,
                forall|a: int, b: int|
                    0 <= a < picked@.len() && 0 <= b < cands@.len() ==> (#[trigger] picked@[a]).idx
                        != (#[trigger] cands@[b]).idx,
                // what is picked is ranked, and beats everything remaining
                forall|a: int, b: int|
                    0 <= a < b < picked@.len() ==> ranked_strictly_first(
                        (#[trigger] picked@[a]).idx as int,
                        picked@[a].score,
                        (#[trigger] picked@[b]).idx as int,
                        picked@[b].score,
                    ),
                forall|a: int, b: int|
                    0 <= a < picked@.len() && 0 <= b < cands@.len() ==> ranked_strictly_first(
                        (#[trigger] picked@[a]).idx as int,
                        picked@[a].score,
                        (#[trigger] cands@[b]).idx as int,
                        cands@[b].score,
                    ),
            decreases k - picked@.len(),
        {
            // k <= n and picked.len() < k imply candidates remain.
            let mut best: usize = 0;
            let mut m: usize = 1;
            while m < cands.len()
                invariant
                    cands@.len() >= 1,
                    0 <= best < cands@.len(),
                    1 <= m <= cands@.len(),
                    best < m,
                    forall|j: int|
                        0 <= j < cands@.len() ==> score_wf((#[trigger] cands@[j]).score),
                    forall|a: int, b: int|
                        0 <= a < b < cands@.len() ==> (#[trigger] cands@[a]).idx != (
                        #[trigger] cands@[b]).idx,
                    forall|t: int|
                        0 <= t < m && t != best ==> ranked_strictly_first(
                            (#[trigger] cands@[best as int]).idx as int,
                            cands@[best as int].score,
                            (#[trigger] cands@[t]).idx as int,
                            cands@[t].score,
                        ),
                decreases cands@.len() - m,
            {
                if ranked_first_exec(&cands[m], &cands[best]) {
                    proof {
                        let ghost ob = best as int;
                        let ghost nm = m as int;
                        assert forall|t: int| 0 <= t < nm + 1 && t != nm implies ranked_strictly_first(
                            (cands@[nm]).idx as int,
                            cands@[nm].score,
                            (cands@[t]).idx as int,
                            cands@[t].score,
                        ) by {
                            if t != ob {
                                lemma_ranked_first_trans(
                                    cands@[nm].idx as int,
                                    cands@[nm].score,
                                    cands@[ob].idx as int,
                                    cands@[ob].score,
                                    cands@[t].idx as int,
                                    cands@[t].score,
                                );
                            }
                        }
                    }
                    best = m;
                } else {
                    proof {
                        lemma_ranked_first_total(
                            cands@[m as int].idx as int,
                            cands@[m as int].score,
                            cands@[best as int].idx as int,
                            cands@[best as int].score,
                        );
                    }
                }
                m = m + 1;
            }
            let ghost pre_cands = cands@;
            let ghost pre_picked = picked@;
            let chosen = cands.remove(best);
            picked.push(chosen);
            proof {
                pre_cands.remove_ensures(best as int);
                assert(chosen == pre_cands[best as int]);
                assert(picked@.drop_last() =~= pre_picked);
                // the scan chose a candidate that beats every other one
                assert(forall|t: int|
                    0 <= t < pre_cands.len() && t != best as int ==> ranked_strictly_first(
                        (#[trigger] pre_cands[best as int]).idx as int,
                        pre_cands[best as int].score,
                        (#[trigger] pre_cands[t]).idx as int,
                        pre_cands[t].score,
                    ));
                // every index is still covered after moving `chosen` across
                assert forall|v: int| 0 <= v < n implies covered(cands@, picked@, v) by {
                    assert(covered(pre_cands, pre_picked, v));
                    if exists|j: int| 0 <= j < pre_cands.len() && (#[trigger] pre_cands[j]).idx == v {
                        let j = choose|j: int|
                            0 <= j < pre_cands.len() && (#[trigger] pre_cands[j]).idx == v;
                        if j == best as int {
                            assert(picked@[picked@.len() - 1].idx == v);
                        } else if j < best as int {
                            assert(cands@[j].idx == v);
                        } else {
                            assert(cands@[j - 1].idx == v);
                        }
                    } else {
                        let j = choose|j: int|
                            0 <= j < pre_picked.len() && (#[trigger] pre_picked[j]).idx == v;
                        assert(picked@[j].idx == v);
                    }
                }
                // pairwise-distinct indices survive the shift
                assert forall|a: int, b: int| 0 <= a < b < cands@.len() implies (
                #[trigger] cands@[a]).idx != (#[trigger] cands@[b]).idx by {
                    let oa = if a < best as int {
                        a
                    } else {
                        a + 1
                    };
                    let ob = if b < best as int {
                        b
                    } else {
                        b + 1
                    };
                    assert(cands@[a] == pre_cands[oa]);
                    assert(cands@[b] == pre_cands[ob]);
                }
                assert forall|a: int, b: int|
                    0 <= a < picked@.len() && 0 <= b < cands@.len() implies (
                #[trigger] picked@[a]).idx != (#[trigger] cands@[b]).idx by {
                    let ob = if b < best as int {
                        b
                    } else {
                        b + 1
                    };
                    assert(cands@[b] == pre_cands[ob]);
                    if a < picked@.len() - 1 {
                        assert(picked@[a] == pre_picked[a]);
                    } else {
                        assert(picked@[a] == pre_cands[best as int]);
                    }
                }
                // everything picked still beats everything remaining
                assert forall|a: int, b: int|
                    0 <= a < picked@.len() && 0 <= b < cands@.len() implies ranked_strictly_first(
                    (#[trigger] picked@[a]).idx as int,
                    picked@[a].score,
                    (#[trigger] cands@[b]).idx as int,
                    cands@[b].score,
                ) by {
                    let ob = if b < best as int {
                        b
                    } else {
                        b + 1
                    };
                    assert(cands@[b] == pre_cands[ob]);
                    if a < picked@.len() - 1 {
                        assert(picked@[a] == pre_picked[a]);
                    } else {
                        assert(picked@[a] == pre_cands[best as int]);
                    }
                }
                // and the picked sequence itself stays ranked
                assert forall|a: int, b: int| 0 <= a < b < picked@.len() implies ranked_strictly_first(
                    (#[trigger] picked@[a]).idx as int,
                    picked@[a].score,
                    (#[trigger] picked@[b]).idx as int,
                    picked@[b].score,
                ) by {
                    assert(picked@[a] == pre_picked[a]);
                    if b < picked@.len() - 1 {
                        assert(picked@[b] == pre_picked[b]);
                    } else {
                        assert(picked@[b] == pre_cands[best as int]);
                    }
                }
            }
        }

        // Materialise the ranked documents.
        let mut results: Vec<SearchResult> = Vec::new();
        let mut t: usize = 0;
        while t < picked.len()
            invariant
                self.wf(),
                n == self.docs@.len(),
                forall|j: int|
                    0 <= j < picked@.len() ==> 0 <= (#[trigger] picked@[j]).idx < n
                        && picked@[j].score == score_of(
                        self@[picked@[j].idx as int].embedding,
                        embedding_view(query@),
                    ),
                0 <= t <= picked@.len(),
                results@.len() == t,
                forall|j: int|
                    0 <= j < t ==> (#[trigger] results@[j]).document@ == self@[picked@[j].idx as int]
                        && results@[j].score == picked@[j].score,
            decreases picked@.len() - t,
        {
            let idx = picked[t].idx;
            let doc = self.docs[idx].duplicate();
            results.push(SearchResult { document: doc, score: picked[t].score });
            t = t + 1;
        }

        proof {
            let ghost order = picked@.map_values(|c: Cand| c.idx as int);
            assert(order.len() == vstd::math::min(top_k as int, self@.len() as int));
            assert forall|a: int, b: int|
                0 <= a < b < order.len() implies ranked_before(self@, qv, order[a], order[b]) by {
                assert(picked@[a].idx as int == order[a]);
                assert(picked@[b].idx as int == order[b]);
            }
            assert forall|a: int, j: int|
                0 <= a < order.len() && 0 <= j < self@.len() && !order.contains(j) implies
                ranked_before(self@, qv, order[a], j) by {
                // j was never picked, so it is still a candidate.
                assert(forall|p: int|
                    0 <= p < picked@.len() ==> (#[trigger] picked@[p]).idx as int != j) by {
                    assert forall|p: int|
                        0 <= p < picked@.len() implies (#[trigger] picked@[p]).idx as int != j by {
                        if picked@[p].idx as int == j {
                            assert(order[p] == j);
                            assert(order.contains(j));
                        }
                    }
                }
                assert(covered(cands@, picked@, j));
                assert(exists|p: int| 0 <= p < cands@.len() && (#[trigger] cands@[p]).idx == j);
                let p = choose|p: int| 0 <= p < cands@.len() && (#[trigger] cands@[p]).idx == j;
                assert(ranked_strictly_first(
                    picked@[a].idx as int,
                    picked@[a].score,
                    cands@[p].idx as int,
                    cands@[p].score,
                ));
            }
            assert(is_ranked_order(order, self@, qv, top_k as int));
            assert(forall|a: int|
                0 <= a < order.len() ==> (#[trigger] results@[a]).document@ == self@[order[a]]
                    && results@[a].score == score_of(self@[order[a]].embedding, qv));
            assert forall|a: int, b: int|
                0 <= a < b < results@.len() implies score_le(
                #[trigger] results@[b].score,
                #[trigger] results@[a].score,
            ) by {
                assert(ranked_strictly_first(
                    picked@[a].idx as int,
                    picked@[a].score,
                    picked@[b].idx as int,
                    picked@[b].score,
                ));
                lemma_score_le_total(picked@[a].score, picked@[b].score);
            }
        }
        results
    }

    /// The distinct `source` values of the stored documents, each exactly
    /// once, in order of first appearance.
    pub fn get_indexed_paths(&self) -> (r: Vec<String>)
        requires
            self.wf(),
        ensures
            r@.map_values(|s: String| s@).no_duplicates(),
            paths_sound(r@, self@),
            paths_complete(r@, self@),
    {
        let mut paths: Vec<String> = Vec::new();
        let mut i: usize = 0;
        while i < self.docs.len()
            invariant
                self.wf(),
                0 <= i <= self.docs@.len(),
                paths@.map_values(|s: String| s@).no_duplicates(),
                paths_sound(paths@, self@),
                forall|p: int|
                    0 <= p < i && doc_source(#[trigger] self@[p]) is Some ==> exists|j: int|
                        0 <= j < paths@.len() && (#[trigger] paths@[j])@ == doc_source(
                            self@[p],
                        ).unwrap(),
            decreases self.docs@.len() - i,
        {
            proof {
                reveal_strlit("source");
            }
            let found = self.docs[i].metadata.get("source");
            match found {
                Some(value) => {
                    proof {
                        assert(doc_source(self@[i as int]) == Some(value@));
                    }
                    if !contains_string(&paths, value) {
                        let ghost pre_paths = paths@;
                        paths.push(value.clone());
                        proof {
                            assert(paths@.drop_last() =~= pre_paths);
                            let m = paths@.map_values(|s: String| s@);
                            let om = pre_paths.map_values(|s: String| s@);
                            assert(paths@[paths@.len() - 1]@ == value@);
                            assert(m[m.len() - 1] == value@);
                            assert(forall|j: int| 0 <= j < om.len() ==> m[j] == om[j]);
                            assert forall|p: int, q: int| 0 <= p < q < m.len() implies m[p]
                                != m[q] by {
                                if q < m.len() - 1 {
                                    assert(om[p] != om[q]);
                                } else if m[p] == value@ {
                                    assert(om.contains(value@)) by {
                                        assert(om[p] == value@);
                                    }
                                }
                            }
                            assert(paths_sound(paths@, self@)) by {
                                assert forall|j: int| 0 <= j < paths@.len() implies exists|p: int|
                                    0 <= p < self@.len() && doc_source(#[trigger] self@[p])
                                        == Some((#[trigger] paths@[j])@) by {
                                    if j == paths@.len() - 1 {
                                        assert(doc_source(self@[i as int]) == Some(paths@[j]@));
                                    } else {
                                        assert(paths@[j] == pre_paths[j]);
                                        assert(exists|p: int|
                                            0 <= p < self@.len() && doc_source(
                                                #[trigger] self@[p],
                                            ) == Some((pre_paths[j])@));
                                    }
                                }
                            }
                            assert forall|p: int|
                                0 <= p < i + 1 && doc_source(#[trigger] self@[p]) is Some implies
                            exists|j: int|
                                0 <= j < paths@.len() && (#[trigger] paths@[j])@ == doc_source(
                                    self@[p],
                                ).unwrap() by {
                                if p == i as int {
                                    assert(paths@[paths@.len() - 1]@ == doc_source(
                                        self@[p],
                                    ).unwrap());
                                } else {
                                    let j = choose|j: int|
                                        0 <= j < pre_paths.len() && (#[trigger] pre_paths[j])@
                                            == doc_source(self@[p]).unwrap();
                                    assert(paths@[j]@ == doc_source(self@[p]).unwrap());
                                }
                            }
                        }
                    } else {
                        proof {
                            let om = paths@.map_values(|s: String| s@);
                            assert forall|p: int|
                                0 <= p < i + 1 && doc_source(#[trigger] self@[p]) is Some implies
                            exists|j: int|
                                0 <= j < paths@.len() && (#[trigger] paths@[j])@ == doc_source(
                                    self@[p],
                                ).unwrap() by {
                                if p == i as int {
                                    let j = choose|j: int|
                                        0 <= j < om.len() && #[trigger] om[j] == value@;
                                    assert(paths@[j]@ == doc_source(self@[p]).unwrap());
                                }
                            }
                        }
                    }
                },
                None => {
                    proof {
                        assert(doc_source(self@[i as int]) is None);
                    }
                },
            }
            i = i + 1;
        }
        proof {
            assert(paths_complete(paths@, self@));
        }
        paths
    }

    /// Removes exactly the documents whose source is `source` or nested
    /// under it, keeping every other document in order, and returns how
    /// many were removed. A source that matches nothing removes nothing.
    pub fn remove_by_source(&mut self, source: &str) -> (r: usize)
        requires
            old(self).wf(),
        ensures
            final(self).wf(),
            final(self).dim_spec() == old(self).dim_spec(),
            final(self)@ == old(self)@.filter(keep_pred(source@)),
            r == old(self)@.len() - final(self)@.len(),
    {
        broadcast use vstd::seq_lib::group_filter_ensures;

        let n = self.docs.len();
        let mut kept: Vec<Document> = Vec::new();
        let mut i: usize = 0;
        while i < n
            invariant
                old(self).wf(),
                self.dim == old(self).dim,
                self.docs@ == old(self).docs@,
                n == self.docs@.len(),
                0 <= i <= n,
                kept@.map_values(|d: Document| d@) == old(self)@.take(i as int).filter(keep_pred(source@)),
                kept@.len() <= i,
                forall|j: int|
                    0 <= j < kept@.len() ==> (#[trigger] kept@[j]).wf() && kept@[j]@.embedding.len()
                        == old(self).dim_spec(),
            decreases n - i,
        {
            proof {
                assert(old(self)@.take(i + 1) =~= old(self)@.take(i as int).push(
                    old(self)@[i as int],
                ));
                old(self)@.take(i as int).lemma_filter_push(old(self)@[i as int], keep_pred(source@));
            }
            let matched = doc_matches_source(&self.docs[i], source);
            proof {
                assert(old(self)@[i as int] == self.docs@[i as int]@);
                assert(keep_pred(source@)(old(self)@[i as int]) == !matched);

            }
            if !matched {
                let copy = self.docs[i].duplicate();
                let ghost pre_kept = kept@;
                kept.push(copy);
                proof {
                    assert(kept@.map_values(|d: Document| d@) =~= pre_kept.map_values(
                        |d: Document| d@,
                    ).push(old(self)@[i as int]));
                    assert(kept@.map_values(|d: Document| d@) == old(self)@.take(i + 1).filter(
                        keep_pred(source@),
                    ));
                }
            } else {
                proof {
                    assert(kept@.map_values(|d: Document| d@) == old(self)@.take(i + 1).filter(
                        keep_pred(source@),
                    ));
                }
            }
            i = i + 1;
        }
        proof {
            assert(old(self)@.take(n as int) =~= old(self)@);
        }
        let removed = n - kept.len();
        self.docs = kept;
        removed
    }
}

/// Any two results of distinct insertion indices are strictly ordered one
/// way or the other.
pub proof fn lemma_ranked_first_total(i1: int, s1: Score, i2: int, s2: Score)
    requires
        i1 != i2,
    ensures
        ranked_strictly_first(i1, s1, i2, s2) || ranked_strictly_first(i2, s2, i1, s1),
        !(ranked_strictly_first(i1, s1, i2, s2) && ranked_strictly_first(i2, s2, i1, s1)),
{
    lemma_score_le_total(s1, s2);
}

/// Storing a document whose embedding is the query vector itself and then
/// searching with that query ranks the new document first, with a score of
/// exactly one.
///
/// This holds whenever the query is a well-formed non-zero embedding and no
/// document already in the store ties at a score of one against it — an
/// earlier parallel vector would win the tie by insertion order. By
/// `lemma_score_le_unit` (Cauchy–Schwarz) no score can exceed one, so the
/// no-tie premise below is all that is asked.
pub proof fn lemma_exact_match_ranks_first(
    pre: Seq<DocumentView>,
    d: DocumentView,
    q: Seq<int>,
    order: Seq<int>,
    top_k: int,
)
    requires
        d.embedding == q,
        norm_sq(q) != 0,
        q.len() <= MAX_DIM as int,
        forall|i: int| 0 <= i < q.len() ==> -0x8000 <= #[trigger] q[i] <= 0x7fff,
        forall|i: int| 0 <= i < pre.len() ==> (#[trigger] pre[i]).embedding.len() <= MAX_DIM,
        forall|i: int, j: int|
            0 <= i < pre.len() && 0 <= j < pre[i].embedding.len() ==> -0x8000
                <= #[trigger] pre[i].embedding[j] <= 0x7fff,
        forall|i: int|
            0 <= i < pre.len() ==> !score_le(
                score_of(q, q),
                #[trigger] score_of(pre[i].embedding, q),
            ),
        top_k >= 1,
        is_ranked_order(order, pre.push(d), q, top_k),
    ensures
        order.len() >= 1,
        order[0] == pre.len(),
        is_unit_score(score_of(q, q)),
{
    let docs = pre.push(d);
    let m = pre.len() as int;
    lemma_norm_sq_nonneg(q);
    lemma_dot_bound(q, q);
    assert((q.len() as int) * 0x4000_0000 <= 0x400_0000_0000) by (nonlinear_arith)
        requires
            q.len() <= 4096,
    ;
    let s = score_of(q, q);
    assert(s.dot > 0);
    assert(s.dot * s.dot == s.norm_a * s.norm_b) by (nonlinear_arith)
        requires
            s.dot == norm_sq(q),
            s.norm_a == norm_sq(q),
            s.norm_b == norm_sq(q),
    ;
    assert(docs[m].embedding == q);
    let j = order[0];
    if j != m {
        assert(0 <= j < m);
        assert(docs[j] == pre[j]);
        let sj = score_of(pre[j].embedding, q);
        lemma_score_le_unit(pre[j].embedding, q);
        assert(score_le(sj, s));
        if order.contains(m) {
            let a = choose|a: int| 0 <= a < order.len() && order[a] == m;
            assert(order[a] == m);
            assert(a != 0);
            assert(ranked_before(docs, q, order[0], order[a]));
        } else {
            assert(ranked_before(docs, q, order[0], m));
        }
        assert(ranked_strictly_first(j, sj, m, s));
        assert(false);
    }
}

/// The ranking order is transitive.
pub proof fn lemma_ranked_first_trans(
    i1: int,
    s1: Score,
    i2: int,
    s2: Score,
    i3: int,
    s3: Score,
)
    requires
        ranked_strictly_first(i1, s1, i2, s2),
        ranked_strictly_first(i2, s2, i3, s3),
    ensures
        ranked_strictly_first(i1, s1, i3, s3),
{
    if score_eq(s1, s2) && score_eq(s2, s3) {
        lemma_score_le_trans(s1, s2, s3);
        lemma_score_le_trans(s3, s2, s1);
    } else if score_eq(s1, s2) {
        // s2 > s3, so s1 > s3.
        if score_le(s1, s3) {
            lemma_score_le_trans(s2, s1, s3);
        }
    } else if score_eq(s2, s3) {
        // s1 > s2, so s1 > s3.
        if score_le(s1, s3) {
            lemma_score_le_trans(s1, s3, s2);
        }
    } else {
        // s1 > s2 and s2 > s3.
        lemma_score_le_total(s1, s2);
        lemma_score_le_total(s2, s3);
        if score_le(s1, s3) {
            lemma_score_le_trans(s2, s1, s3);
        }
    }
}

/// Tests whether a document's source is `root` or nested under it.
fn doc_matches_source(doc: &Document, root: &str) -> (r: bool)
    requires
        doc.wf(),
    ensures
        r == from_source(doc@, root@),
{
    let found = doc.metadata.get("source");
    match found {
        Some(value) => {
            proof {
                reveal_strlit("source");
            }
            string_starts_path(value, root)
        },
        None => {
            proof {
                reveal_strlit("source");
            }
            false
        },
    }
}

/// Tests whether `s` equals `root` or extends it below a `/` separator.
fn string_starts_path(s: &String, root: &str) -> (r: bool)
    ensures
        r == path_under(s@, root@),
{
    if string_eq_str(s, root) {
        return true;
    }
    let s_len = s.as_str().unicode_len();
    let root_len = root.unicode_len();
    if s_len <= root_len {
        return false;
    }
    let prefix = s.as_str().substring_char(0, root_len).to_owned();
    if !string_eq_str(&prefix, root) {
        return false;
    }
    let sep = s.as_str().get_char(root_len);
    sep == '/'
}

/// Tests whether `needle`'s text already occurs in `haystack`.
fn contains_string(haystack: &Vec<String>, needle: &String) -> (r: bool)
    ensures
        r == haystack@.map_values(|s: String| s@).contains(needle@),
{
    let mut i: usize = 0;
    while i < haystack.len()
        invariant
            0 <= i <= haystack@.len(),
            forall|j: int| 0 <= j < i ==> (#[trigger] haystack@[j])@ != needle@,
        decreases haystack@.len() - i,
    {
        if string_eq_str(&haystack[i], needle.as_str()) {
            proof {
                assert(haystack@.map_values(|s: String| s@)[i as int] == needle@);
            }
            return true;
        }
        i = i + 1;
    }
    proof {
        if haystack@.map_values(|s: String| s@).contains(needle@) {
            let m = haystack@.map_values(|s: String| s@);
            let j = choose|j: int| 0 <= j < m.len() && #[trigger] m[j] == needle@;
            assert(haystack@[j]@ == needle@);
        }
    }
    false
}

} // verus!
