//! Orchestration of the retrieval engine: ingestion of snippets and file
//! sets, and query-time retrieval of ranked context.

use vstd::prelude::*;

use crate::decimal::{dec_rep, lemma_dec_rep_injective, u64_to_dec};
use crate::embedder::{Embedder, EmbeddingProvider};
use crate::errors::{RagError, StoreError};
use crate::indexer::{chunks_of, IndexedFile};
use crate::store::{has_doc_id, is_ranked_order, source_key, VectorStore};
use crate::types::{Document, DocumentView};

verus! {

/// The metadata key that records a chunk's index within its file.
pub open spec fn chunk_key() -> Seq<char> {
    "chunk"@
}

/// Metadata of a snippet added directly: just its source label.
pub open spec fn source_meta(source: Seq<char>) -> Map<Seq<char>, Seq<char>> {
    Map::empty().insert(source_key(), source)
}

/// Identifier of a snippet: its source and the store count when added.
pub open spec fn knowledge_id(source: Seq<char>, count: int) -> Seq<char> {
    source + "_"@ + dec_rep(count)
}

/// The document that `add_knowledge` stores for a snippet, given the
/// embedding the provider returned.
pub open spec fn knowledge_doc(
    source: Seq<char>,
    content: Seq<char>,
    count: int,
    e: Seq<int>,
) -> DocumentView {
    DocumentView { id: knowledge_id(source, count), content, embedding: e, metadata: source_meta(source) }
}

/// For one source, distinct counter values give distinct identifiers.
proof fn lemma_knowledge_id_injective(source: Seq<char>, m: int, n: int)
    requires
        m >= 0,
        n >= 0,
        m != n,
    ensures
        knowledge_id(source, m) != knowledge_id(source, n),
{
    let prefix = source + "_"@;
    if knowledge_id(source, m) == knowledge_id(source, n) {
        assert((prefix + dec_rep(m)).skip(prefix.len() as int) =~= dec_rep(m));
        assert((prefix + dec_rep(n)).skip(prefix.len() as int) =~= dec_rep(n));
        lemma_dec_rep_injective(m, n);
    }
}

/// Among `count + 1` distinct candidate identifiers, the `count` stored
/// documents cannot take them all: some candidate is free.
proof fn lemma_free_id_exists(docs: Seq<DocumentView>, source: Seq<char>, count: int)
    requires
        count == docs.len(),
    ensures
        exists|k: int|
            0 <= k <= count && !has_doc_id(docs, #[trigger] knowledge_id(source, count + k)),
{
    broadcast use vstd::seq_lib::seq_to_set_is_finite;

    if forall|k: int|
        0 <= k <= count ==> has_doc_id(docs, #[trigger] knowledge_id(source, count + k)) {
        let ids = docs.map_values(|d: DocumentView| d.id);
        let cands = Seq::new((count + 1) as nat, |k: int| knowledge_id(source, count + k));
        assert forall|p: int, q: int| 0 <= p < q < cands.len() implies cands[p] != cands[q] by {
            lemma_knowledge_id_injective(source, count + p, count + q);
        }
        assert(cands.no_duplicates());
        cands.unique_seq_to_set();
        ids.lemma_cardinality_of_set();
        assert forall|x: Seq<char>| cands.to_set().contains(x) implies ids.to_set().contains(
            x,
        ) by {
            let k = choose|k: int| 0 <= k < cands.len() && cands[k] == x;
            assert(has_doc_id(docs, knowledge_id(source, count + k)));
            let j = choose|j: int|
                0 <= j < docs.len() && (#[trigger] docs[j]).id == knowledge_id(source, count + k);
            assert(ids[j] == x);
            assert(ids.contains(x));
        }
        vstd::set_lib::lemma_len_subset(cands.to_set(), ids.to_set());
    }
}

/// Identifier of chunk `i` of a file.
pub open spec fn chunk_id(path: Seq<char>, i: int) -> Seq<char> {
    path + "_chunk_"@ + dec_rep(i)
}

/// Metadata of chunk `i` of a file: its source path and chunk index.
pub open spec fn chunk_meta(path: Seq<char>, i: int) -> Map<Seq<char>, Seq<char>> {
    Map::empty().insert(source_key(), path).insert(chunk_key(), dec_rep(i))
}

/// Total number of chunks of the first `fi` files.
pub open spec fn chunks_upto(files: Seq<IndexedFile>, cs: int, ov: int, fi: int) -> int
    decreases fi
        when 0 <= fi <= files.len()
{
    if fi <= 0 {
        0
    } else {
        chunks_upto(files, cs, ov, fi - 1) + chunks_of(files[fi - 1].content@, cs, ov).len()
    }
}

/// The fixed header of a rendered context block.
pub open spec fn context_header() -> Seq<char> {
    "\n\nRelevant context from your knowledge base:\n"@
}

/// One numbered context entry.
pub open spec fn context_entry(number: int, content: Seq<char>) -> Seq<char> {
    "\n["@ + dec_rep(number) + "] "@ + content + "\n"@
}

/// The entries for `contents` from index `i` on, numbered from `i + 1`.
pub open spec fn entries_from(contents: Seq<Seq<char>>, i: int) -> Seq<char>
    decreases contents.len() - i
        when 0 <= i <= contents.len()
{
    if i >= contents.len() {
        Seq::empty()
    } else {
        context_entry(i + 1, contents[i]) + entries_from(contents, i + 1)
    }
}

/// The full rendered context block for the given contents, in rank order.
pub open spec fn rendered_context(contents: Seq<Seq<char>>) -> Seq<char> {
    context_header() + entries_from(contents, 0)
}

/// Builds the identifier of a snippet from its source and a counter.
fn snippet_id(source: &str, counter: u64) -> (r: String)
    ensures
        r@ == knowledge_id(source@, counter as int),
{
    let mut id = source.to_owned();
    id.append("_");
    let dec = u64_to_dec(counter);
    id.append(dec.as_str());
    id
}

/// Manages the retrieval engine: an embedding front, a vector store, and
/// the ingestion parameters.
pub struct Manager<P: EmbeddingProvider> {
    embedder: Embedder<P>,
    store: VectorStore,
    chunk_size: usize,
    chunk_overlap: usize,
    top_k: usize,
}

impl<P: EmbeddingProvider> Manager<P> {
    /// The stored documents, in insertion order.
    pub closed spec fn docs(&self) -> Seq<DocumentView> {
        self.store@
    }

    /// The store's fixed embedding dimensionality.
    pub closed spec fn dim_spec(&self) -> int {
        self.store.dim_spec()
    }

    /// The configured chunk size.
    pub closed spec fn chunk_size_spec(&self) -> int {
        self.chunk_size as int
    }

    /// The configured chunk overlap.
    pub closed spec fn chunk_overlap_spec(&self) -> int {
        self.chunk_overlap as int
    }

    /// The configured result count for retrieval.
    pub closed spec fn top_k_spec(&self) -> int {
        self.top_k as int
    }

    /// The store is well formed and the chunking parameters can advance.
    pub closed spec fn wf(&self) -> bool {
        &&& self.store.wf()
        &&& self.chunk_overlap < self.chunk_size
    }

    /// Creates a manager over a fresh store of dimensionality `dim`.
    ///
    /// Chunking parameters that cannot advance a window are rejected
    /// before any document is touched.
    pub fn new(
        embedder: Embedder<P>,
        dim: usize,
        chunk_size: usize,
        chunk_overlap: usize,
        top_k: usize,
    ) -> (r: Result<Manager<P>, RagError>)
        requires
            1 <= dim <= crate::vecmath::MAX_DIM,
        ensures
            chunk_overlap < chunk_size ==> match r {
                Ok(m) => m.wf() && m.docs() == Seq::<DocumentView>::empty() && m.dim_spec() == dim
                    && m.chunk_size_spec() == chunk_size && m.chunk_overlap_spec() == chunk_overlap
                    && m.top_k_spec() == top_k,
                Err(_) => false,
            },
            chunk_overlap >= chunk_size ==> r matches Err(RagError::Config),
    {
        if chunk_overlap >= chunk_size {
            return Err(RagError::Config);
        }
        let store = VectorStore::new(dim);
        Ok(Manager { embedder, store, chunk_size, chunk_overlap, top_k })
    }

    /// Adds a single piece of text to the knowledge base.
    ///
    /// On success the store grows by exactly the one document: its content
    /// is the text, its metadata records the source, and its identifier
    /// joins the source with the first counter value, starting from the
    /// store count, that no stored document already carries — so the new
    /// identifier is unique in the store. The embedding is whatever the
    /// provider returned; a vector of the wrong dimensionality is refused
    /// and the store left unchanged.
    ///
    /// The bound on the store size is a machine limit: it keeps every
    /// candidate counter within `u64`.
    pub fn add_knowledge(&mut self, content: &str, source: &str) -> (r: Result<(), RagError>)
        requires
            old(self).wf(),
            old(self).docs().len() < 0x4000_0000_0000_0000,
        ensures
            final(self).wf(),
            final(self).dim_spec() == old(self).dim_spec(),
            r is Ok ==> exists|e: Seq<int>, c: int|
                {
                    &&& e.len() == old(self).dim_spec()
                    &&& old(self).docs().len() <= c
                    &&& !has_doc_id(old(self).docs(), knowledge_id(source@, c))
                    &&& final(self).docs() == old(self).docs().push(
                        #[trigger] knowledge_doc(source@, content@, c, e),
                    )
                },
            r is Err ==> final(self).docs() == old(self).docs(),
            r is Err ==> (r matches Err(RagError::Embedder(_)) || r == Err::<(), RagError>(
                RagError::Store(StoreError::DimensionMismatch),
            )),
    {
        let embedding = match self.embedder.embed(content) {
            Ok(e) => e,
            Err(e) => {
                return Err(RagError::Embedder(e));
            },
        };
        let ghost ev = crate::vecmath::embedding_view(embedding@);
        let count = self.store.count();
        // Find the first counter value, from the store count up, whose
        // identifier is still free; among count + 1 distinct candidates at
        // least one must be.
        let mut k: usize = 0;
        let mut counter: u64 = count as u64;
        let mut id = snippet_id(source, counter);
        loop
            invariant
                *self == *old(self),
                self.wf(),
                count == self.store@.len(),
                count < 0x4000_0000_0000_0000,
                0 <= k <= count,
                counter == count + k,
                id@ == knowledge_id(source@, counter as int),
                forall|k2: int|
                    0 <= k2 < k ==> has_doc_id(
                        self.store@,
                        #[trigger] knowledge_id(source@, count + k2),
                    ),
            ensures
                *self == *old(self),
                count as int <= counter,
                id@ == knowledge_id(source@, counter as int),
                !has_doc_id(self.store@, id@),
            decreases count - k,
        {
            let taken = self.store.contains_id(id.as_str());
            if !taken {
                break ;
            }
            proof {
                assert(has_doc_id(self.store@, knowledge_id(source@, count + k)));
                if k == count {
                    lemma_free_id_exists(self.store@, source@, count as int);
                    let k2 = choose|k2: int|
                        0 <= k2 <= count && !has_doc_id(
                            self.store@,
                            #[trigger] knowledge_id(source@, count + k2),
                        );
                    assert(has_doc_id(self.store@, knowledge_id(source@, count + k2)));
                }
            }
            k = k + 1;
            counter = counter + 1;
            id = snippet_id(source, counter);
        }
        let ghost chosen = counter as int;
        let document = Document::new(id.as_str(), content, embedding).with_metadata(
            "source",
            source,
        );
        proof {
            reveal_strlit("source");
        }
        match self.store.add(document) {
            Ok(_) => {
                proof {
                    assert(ev.len() == old(self).dim_spec() && self.store@ == old(
                        self,
                    ).store@.push(knowledge_doc(source@, content@, chosen, ev)));
                    assert(!has_doc_id(old(self).store@, knowledge_id(source@, chosen)));
                    assert(exists|e: Seq<int>, c: int|
                        {
                            &&& e.len() == old(self).dim_spec()
                            &&& old(self).docs().len() <= c
                            &&& !has_doc_id(old(self).docs(), knowledge_id(source@, c))
                            &&& self.docs() == old(self).docs().push(
                                #[trigger] knowledge_doc(source@, content@, c, e),
                            )
                        });
                }
                Ok(())
            },
            Err(e) => Err(RagError::Store(e)),
        }
    }

    /// Indexes a set of collected files.
    ///
    /// Files are processed in order; each is split into chunks, and chunk
    /// `i` of a file is stored with the file's path as source, `i` as its
    /// chunk index, and an identifier joining both. The first embedding or
    /// store failure aborts the remaining work; documents stored before it
    /// remain, so the caller may re-index the same files later.
    #[verifier::rlimit(50)]
    pub fn index_files(&mut self, files: &Vec<IndexedFile>) -> (r: Result<usize, RagError>)
        requires
            old(self).wf(),
        ensures
            final(self).wf(),
            final(self).dim_spec() == old(self).dim_spec(),
            final(self).chunk_size_spec() == old(self).chunk_size_spec(),
            final(self).chunk_overlap_spec() == old(self).chunk_overlap_spec(),
            old(self).docs().is_prefix_of(final(self).docs()),
            r matches Ok(c) ==> c == files@.len(),
            r is Ok ==> final(self).docs().len() == old(self).docs().len() + chunks_upto(
                files@,
                old(self).chunk_size_spec(),
                old(self).chunk_overlap_spec(),
                files@.len() as int,
            ),
            r is Ok ==> all_chunks_stored(
                final(self).docs(),
                old(self).docs().len() as int,
                files@,
                old(self).chunk_size_spec(),
                old(self).chunk_overlap_spec(),
                old(self).dim_spec(),
                files@.len() as int,
            ),
            files@.len() == 0 ==> (r matches Ok(c) && c == 0),
            r is Err ==> (r matches Err(RagError::FileEmbedding { .. }) || r matches Err(
                RagError::FileStore { .. },
            )),
            r matches Err(RagError::FileEmbedding { path, error: _ }) ==> stopped_inside_file(
                final(self).docs(),
                old(self).docs().len() as int,
                files@,
                old(self).chunk_size_spec(),
                old(self).chunk_overlap_spec(),
                old(self).dim_spec(),
                path@,
            ),
            r matches Err(RagError::FileStore { path, error }) ==> error
                == StoreError::DimensionMismatch && stopped_inside_file(
                final(self).docs(),
                old(self).docs().len() as int,
                files@,
                old(self).chunk_size_spec(),
                old(self).chunk_overlap_spec(),
                old(self).dim_spec(),
                path@,
            ),
    {
        let ghost cs = self.chunk_size as int;
        let ghost ov = self.chunk_overlap as int;
        let ghost base = self.store@.len() as int;
        let n = files.len();
        let mut fi: usize = 0;
        while fi < n
            invariant
                old(self).wf(),
                self.wf(),
                self.embedder == old(self).embedder,
                self.chunk_size == old(self).chunk_size,
                self.chunk_overlap == old(self).chunk_overlap,
                self.top_k == old(self).top_k,
                self.store.dim_spec() == old(self).store.dim_spec(),
                cs == self.chunk_size as int,
                ov == self.chunk_overlap as int,
                base == old(self).store@.len() as int,
                n == files@.len(),
                0 <= fi <= n,
                old(self).store@.is_prefix_of(self.store@),
                self.store@.len() == base + chunks_upto(files@, cs, ov, fi as int),
                all_chunks_stored(self.store@, base, files@, cs, ov, old(self).dim_spec(), fi as int),
            decreases n - fi,
        {
            let chunks = match crate::indexer::chunk_text(
                files[fi].content.as_str(),
                self.chunk_size,
                self.chunk_overlap,
            ) {
                Ok(c) => c,
                Err(_) => {
                    // wf() gives overlap < chunk_size, so chunking cannot
                    // be refused here.
                    proof {
                        assert(false);
                    }
                    return Err(RagError::Config);
                },
            };
            let ghost file_base = self.store@.len() as int;
            let m = chunks.len();
            let mut ci: usize = 0;
            while ci < m
                invariant
                    old(self).wf(),
                    self.wf(),
                    self.embedder == old(self).embedder,
                    self.chunk_size == old(self).chunk_size,
                    self.chunk_overlap == old(self).chunk_overlap,
                    self.top_k == old(self).top_k,
                    self.store.dim_spec() == old(self).store.dim_spec(),
                    cs == self.chunk_size as int,
                    ov == self.chunk_overlap as int,
                    base == old(self).store@.len() as int,
                    n == files@.len(),
                    0 <= fi < n,
                    chunks@.map_values(|s: String| s@) == chunks_of(files@[fi as int].content@, cs, ov),
                    m == chunks@.len(),
                    0 <= ci <= m,
                    file_base == base + chunks_upto(files@, cs, ov, fi as int),
                    old(self).store@.is_prefix_of(self.store@),
                    self.store@.len() == file_base + ci,
                    all_chunks_stored(
                        self.store@,
                        base,
                        files@,
                        cs,
                        ov,
                        old(self).dim_spec(),
                        fi as int,
                    ),
                    file_chunks_stored(
                        self.store@,
                        base,
                        files@,
                        cs,
                        ov,
                        old(self).dim_spec(),
                        fi as int,
                        ci as int,
                    ),
                decreases m - ci,
            {
                let embedding = match self.embedder.embed(chunks[ci].as_str()) {
                    Ok(e) => e,
                    Err(e) => {
                        let failing_path = files[fi].path.clone();
                        proof {
                            assert(stopped_inside_file(
                                self.store@,
                                base,
                                files@,
                                cs,
                                ov,
                                old(self).dim_spec(),
                                failing_path@,
                            )) by {
                                assert(indexing_stopped_at(
                                    self.store@,
                                    base,
                                    files@,
                                    cs,
                                    ov,
                                    old(self).dim_spec(),
                                    fi as int,
                                    ci as int,
                                ));
                            }
                        }
                        return Err(RagError::FileEmbedding { path: failing_path, error: e });
                    },
                };
                let mut id = files[fi].path.clone();
                id.append("_chunk_");
                let dec = u64_to_dec(ci as u64);
                id.append(dec.as_str());
                let document = Document::new(id.as_str(), chunks[ci].as_str(), embedding)
                    .with_metadata("source", files[fi].path.as_str()).with_metadata(
                    "chunk",
                    dec.as_str(),
                );
                proof {
                    reveal_strlit("source");
                    reveal_strlit("chunk");
                }
                let ghost pre_docs = self.store@;
                match self.store.add(document) {
                    Ok(_) => {},
                    Err(e) => {
                        let failing_path = files[fi].path.clone();
                        proof {
                            assert(e == StoreError::DimensionMismatch);
                            assert(stopped_inside_file(
                                self.store@,
                                base,
                                files@,
                                cs,
                                ov,
                                old(self).dim_spec(),
                                failing_path@,
                            )) by {
                                assert(indexing_stopped_at(
                                    self.store@,
                                    base,
                                    files@,
                                    cs,
                                    ov,
                                    old(self).dim_spec(),
                                    fi as int,
                                    ci as int,
                                ));
                            }
                        }
                        return Err(RagError::FileStore { path: failing_path, error: e });
                    },
                }
                proof {
                    assert(self.store@ == pre_docs.push(self.store@.last()));
                    assert(chunk_stored(
                        self.store@,
                        base,
                        files@,
                        cs,
                        ov,
                        old(self).dim_spec(),
                        fi as int,
                        ci as int,
                    ));
                    lemma_all_chunks_stored_push(
                        pre_docs,
                        self.store@.last(),
                        base,
                        files@,
                        cs,
                        ov,
                        old(self).dim_spec(),
                        fi as int,
                    );
                    assert forall|cj: int| 0 <= cj < ci + 1 implies #[trigger] chunk_stored(
                        self.store@,
                        base,
                        files@,
                        cs,
                        ov,
                        old(self).dim_spec(),
                        fi as int,
                        cj,
                    ) by {
                        if cj < ci as int {
                            lemma_chunk_stored_push(
                                pre_docs,
                                self.store@.last(),
                                base,
                                files@,
                                cs,
                                ov,
                                old(self).dim_spec(),
                                fi as int,
                                cj,
                            );
                        }
                    }
                }
                ci = ci + 1;
            }
            proof {
                assert(chunks_upto(files@, cs, ov, fi + 1) == chunks_upto(files@, cs, ov, fi as int)
                    + chunks_of(files@[fi as int].content@, cs, ov).len());
                assert forall|fj: int, cj: int|
                    0 <= fj < fi + 1 && 0 <= cj < chunks_of(files@[fj].content@, cs, ov).len()
                        implies #[trigger] chunk_stored(
                    self.store@,
                    base,
                    files@,
                    cs,
                    ov,
                    old(self).dim_spec(),
                    fj,
                    cj,
                ) by {
                    if fj == fi as int {
                        assert(file_chunks_stored(
                            self.store@,
                            base,
                            files@,
                            cs,
                            ov,
                            old(self).dim_spec(),
                            fi as int,
                            chunks_of(files@[fi as int].content@, cs, ov).len() as int,
                        ));
                    }
                }
            }
            fi = fi + 1;
        }
        Ok(n)
    }

    /// Retrieves a rendered block of the most relevant stored context.
    ///
    /// An empty store yields the empty string: no context is a valid
    /// outcome, not an error. Otherwise the query is embedded — an
    /// embedding failure always surfaces — and the ranked results are
    /// rendered as numbered entries under a fixed header.
    pub fn retrieve_context(&self, query: &str) -> (r: Result<String, RagError>)
        requires
            self.wf(),
        ensures
            self.docs().len() == 0 ==> (r matches Ok(s) && s@ == Seq::<char>::empty()),
            r matches Err(e) ==> (e matches RagError::Embedder(_) && self.docs().len() > 0),
            self.docs().len() > 0 && self.top_k_spec() == 0 ==> (r matches Ok(s) ==> s@
                == Seq::<char>::empty()),
            self.docs().len() > 0 && self.top_k_spec() > 0 ==> (r matches Ok(s) ==> exists|
                q: Seq<int>,
                order: Seq<int>,
            |
                is_ranked_order(order, self.docs(), q, self.top_k_spec()) && s@
                    == rendered_context(
                    order.map_values(|oi: int| self.docs()[oi].content),
                )),
    {
        if self.store.count() == 0 {
            return Ok(String::new());
        }
        let query_embedding = match self.embedder.embed(query) {
            Ok(e) => e,
            Err(e) => {
                return Err(RagError::Embedder(e));
            },
        };
        let results = self.store.search(&query_embedding, self.top_k);
        if results.is_empty() {
            return Ok(String::new());
        }
        let ghost qv = crate::vecmath::embedding_view(query_embedding@);
        let ghost order = choose|order: Seq<int>|
            {
                &&& is_ranked_order(order, self.store@, qv, self.top_k as int)
                &&& forall|a: int|
                    0 <= a < order.len() ==> (#[trigger] results@[a]).document@
                        == self.store@[order[a]] && results@[a].score == crate::vecmath::score_of(
                        self.store@[order[a]].embedding,
                        qv,
                    )
            };
        let ghost contents = order.map_values(|oi: int| self.store@[oi].content);
        let mut out = "\n\nRelevant context from your knowledge base:\n".to_owned();
        proof {
            assert(results@.len() == order.len());
            assert(forall|a: int|
                0 <= a < order.len() ==> (#[trigger] results@[a]).document@.content == contents[a]);
            assert(out@ + entries_from(contents, 0) == rendered_context(contents));
        }
        let mut i: usize = 0;
        while i < results.len()
            invariant
                self.wf(),
                is_ranked_order(order, self.docs(), qv, self.top_k_spec()),
                contents == order.map_values(|oi: int| self.docs()[oi].content),
                0 <= i <= results@.len(),
                results@.len() == contents.len(),
                forall|a: int|
                    0 <= a < contents.len() ==> (#[trigger] results@[a]).document@.content
                        == contents[a],
                out@ + entries_from(contents, i as int) == rendered_context(contents),
            decreases results@.len() - i,
        {
            let ghost pre_out = out@;
            out.append("\n[");
            let number = u64_to_dec((i as u64) + 1);
            out.append(number.as_str());
            out.append("] ");
            out.append(results[i].document.content.as_str());
            out.append("\n");
            proof {
                assert(out@ =~= pre_out + context_entry(i + 1, contents[i as int]));
                assert(entries_from(contents, i as int) == context_entry(i + 1, contents[i as int])
                    + entries_from(contents, i + 1));
                assert(out@ + entries_from(contents, i + 1) =~= rendered_context(contents));
            }
            i = i + 1;
        }
        proof {
            assert(entries_from(contents, contents.len() as int) =~= Seq::<char>::empty());
            assert(out@ =~= rendered_context(contents));
        }
        Ok(out)
    }

    /// The number of documents in the knowledge base.
    pub fn count(&self) -> (r: usize)
        ensures
            r == self.docs().len(),
    {
        self.store.count()
    }

    /// Clears all documents from the knowledge base.
    pub fn clear(&mut self)
        requires
            old(self).wf(),
        ensures
            final(self).wf(),
            final(self).dim_spec() == old(self).dim_spec(),
            final(self).docs() == Seq::<DocumentView>::empty(),
    {
        self.store.clear();
    }
}

/// Every chunk of the first `fi_limit` files is stored where expected.
pub open spec fn all_chunks_stored(
    docs: Seq<DocumentView>,
    base: int,
    files: Seq<IndexedFile>,
    cs: int,
    ov: int,
    dim: int,
    fi_limit: int,
) -> bool {
    forall|fj: int, cj: int|
        0 <= fj < fi_limit && 0 <= cj < chunks_of(files[fj].content@, cs, ov).len()
            ==> #[trigger] chunk_stored(docs, base, files, cs, ov, dim, fj, cj)
}

/// Indexing stopped right before chunk `ci` of file `fi`: the new
/// documents are exactly every chunk of the earlier files plus the first
/// `ci` chunks of file `fi`, each where expected.
pub open spec fn indexing_stopped_at(
    docs: Seq<DocumentView>,
    base: int,
    files: Seq<IndexedFile>,
    cs: int,
    ov: int,
    dim: int,
    fi: int,
    ci: int,
) -> bool {
    &&& 0 <= fi < files.len()
    &&& 0 <= ci <= chunks_of(files[fi].content@, cs, ov).len()
    &&& docs.len() == base + chunks_upto(files, cs, ov, fi) + ci
    &&& all_chunks_stored(docs, base, files, cs, ov, dim, fi)
    &&& file_chunks_stored(docs, base, files, cs, ov, dim, fi, ci)
}

/// Indexing stopped inside the file named `path`, leaving exactly the
/// chunks processed before the failure in the store.
pub open spec fn stopped_inside_file(
    docs: Seq<DocumentView>,
    base: int,
    files: Seq<IndexedFile>,
    cs: int,
    ov: int,
    dim: int,
    path: Seq<char>,
) -> bool {
    exists|fi: int, ci: int|
        #![trigger indexing_stopped_at(docs, base, files, cs, ov, dim, fi, ci)]
        {
            &&& indexing_stopped_at(docs, base, files, cs, ov, dim, fi, ci)
            &&& files[fi].path@ == path
            &&& ci < chunks_of(files[fi].content@, cs, ov).len()
        }
}

/// The first `cj_limit` chunks of file `fi` are stored where expected.
pub open spec fn file_chunks_stored(
    docs: Seq<DocumentView>,
    base: int,
    files: Seq<IndexedFile>,
    cs: int,
    ov: int,
    dim: int,
    fi: int,
    cj_limit: int,
) -> bool {
    forall|cj: int|
        0 <= cj < cj_limit ==> #[trigger] chunk_stored(docs, base, files, cs, ov, dim, fi, cj)
}

/// Chunk `ci` of file `fi` is stored at its expected position with its
/// expected identifier, content and metadata, and an embedding of the
/// store's dimensionality.
pub open spec fn chunk_stored(
    docs: Seq<DocumentView>,
    base: int,
    files: Seq<IndexedFile>,
    cs: int,
    ov: int,
    dim: int,
    fi: int,
    ci: int,
) -> bool {
    let pos = base + chunks_upto(files, cs, ov, fi) + ci;
    &&& 0 <= pos < docs.len()
    &&& docs[pos].id == chunk_id(files[fi].path@, ci)
    &&& docs[pos].content == chunks_of(files[fi].content@, cs, ov)[ci]
    &&& docs[pos].metadata == chunk_meta(files[fi].path@, ci)
    &&& docs[pos].embedding.len() == dim
}

/// Appending a document leaves every already-stored chunk set in place.
proof fn lemma_all_chunks_stored_push(
    docs: Seq<DocumentView>,
    d: DocumentView,
    base: int,
    files: Seq<IndexedFile>,
    cs: int,
    ov: int,
    dim: int,
    fi_limit: int,
)
    requires
        all_chunks_stored(docs, base, files, cs, ov, dim, fi_limit),
    ensures
        all_chunks_stored(docs.push(d), base, files, cs, ov, dim, fi_limit),
{
    assert forall|fj: int, cj: int|
        0 <= fj < fi_limit && 0 <= cj < chunks_of(files[fj].content@, cs, ov).len()
            implies #[trigger] chunk_stored(docs.push(d), base, files, cs, ov, dim, fj, cj) by {
        lemma_chunk_stored_push(docs, d, base, files, cs, ov, dim, fj, cj);
    }
}

/// Appending a document leaves every already-stored chunk in place.
proof fn lemma_chunk_stored_push(
    docs: Seq<DocumentView>,
    d: DocumentView,
    base: int,
    files: Seq<IndexedFile>,
    cs: int,
    ov: int,
    dim: int,
    fi: int,
    ci: int,
)
    requires
        chunk_stored(docs, base, files, cs, ov, dim, fi, ci),
    ensures
        chunk_stored(docs.push(d), base, files, cs, ov, dim, fi, ci),
{
}

} // verus!
