//! The storage-backend abstraction: one contract for every vector-store
//! backend, a configuration value that selects one, and the in-process
//! reference engine as its verified implementation.
//!
//! Backends differ in medium — in memory, embedded on disk, or behind a
//! network service — never in observable semantics: each must rank and
//! count exactly as the reference engine does.

use vstd::prelude::*;

use crate::errors::StoreError;
use crate::store::{is_ranked_order, paths_complete, paths_sound, from_source, keep_pred};
use crate::types::{Document, DocumentView, SearchResult};
use crate::vecmath::{embedding_view, score_le, score_of};

verus! {

/// Configuration selecting a storage backend; immutable for the lifetime
/// of a store instance.
pub enum StorageMode {
    /// Local on-disk storage under the given filesystem root.
    Embedded { path: String },
    /// A network-addressed vector-database service.
    Remote { url: String },
}

/// The contract every vector-store backend satisfies.
///
/// `docs` is the mathematical contents of the store, `dim` its fixed
/// dimensionality, and `inv` its well-formedness; the reference engine in
/// this crate implements the contract in full, so it is satisfiable.
pub trait VectorStore: Sized {
    /// The stored documents, in insertion order.
    spec fn docs(&self) -> Seq<DocumentView>;

    /// The fixed embedding dimensionality agreed at store creation.
    spec fn dim(&self) -> int;

    /// The backend's internal invariant.
    spec fn inv(&self) -> bool;

    /// Adds a document; a dimensionality mismatch is always refused.
    fn add(&mut self, document: Document) -> (r: Result<(), StoreError>)
        requires
            old(self).inv(),
            document.wf(),
        ensures
            final(self).inv(),
            final(self).dim() == old(self).dim(),
            r is Ok ==> document@.embedding.len() == old(self).dim() && final(self).docs() == old(
                self,
            ).docs().push(document@),
            r is Err ==> final(self).docs() == old(self).docs(),
            document@.embedding.len() != old(self).dim() ==> r is Err,
    ;

    /// Ranks every stored document against `query`, descending by exact
    /// cosine similarity with ties broken by insertion order, truncated to
    /// `top_k`.
    fn search(&self, query: &Vec<i16>, top_k: usize) -> (r: Result<Vec<SearchResult>, StoreError>)
        requires
            self.inv(),
        ensures
            r matches Ok(results) ==> {
                &&& results@.len() == vstd::math::min(top_k as int, self.docs().len() as int)
                &&& forall|a: int, b: int|
                    0 <= a < b < results@.len() ==> score_le(
                        #[trigger] results@[b].score,
                        #[trigger] results@[a].score,
                    )
                &&& exists|order: Seq<int>|
                    {
                        &&& is_ranked_order(order, self.docs(), embedding_view(query@), top_k as int)
                        &&& forall|a: int|
                            0 <= a < order.len() ==> (#[trigger] results@[a]).document@
                                == self.docs()[order[a]] && results@[a].score == score_of(
                                self.docs()[order[a]].embedding,
                                embedding_view(query@),
                            )
                    }
            },
    ;

    /// The number of stored documents.
    fn count(&self) -> (r: Result<usize, StoreError>)
        requires
            self.inv(),
        ensures
            r matches Ok(c) ==> c == self.docs().len(),
    ;

    /// Removes all documents. Idempotent.
    fn clear(&mut self) -> (r: Result<(), StoreError>)
        requires
            old(self).inv(),
        ensures
            final(self).inv(),
            final(self).dim() == old(self).dim(),
            r is Ok ==> final(self).docs() == Seq::<DocumentView>::empty(),
            r is Err ==> final(self).docs() == old(self).docs(),
    ;

    /// The distinct `source` values of the stored documents.
    fn get_indexed_paths(&self) -> (r: Result<Vec<String>, StoreError>)
        requires
            self.inv(),
        ensures
            r matches Ok(paths) ==> {
                &&& paths@.map_values(|s: String| s@).no_duplicates()
                &&& paths_sound(paths@, self.docs())
                &&& paths_complete(paths@, self.docs())
            },
    ;

    /// Removes the documents whose source is `source` or nested under it,
    /// returning how many were removed.
    fn remove_by_source(&mut self, source: &str) -> (r: Result<usize, StoreError>)
        requires
            old(self).inv(),
        ensures
            final(self).inv(),
            final(self).dim() == old(self).dim(),
            r matches Ok(c) ==> final(self).docs() == old(self).docs().filter(keep_pred(source@))
                && c == old(self).docs().len() - final(self).docs().len(),
            r is Err ==> final(self).docs() == old(self).docs(),
    ;
}

impl VectorStore for crate::store::VectorStore {
    open spec fn docs(&self) -> Seq<DocumentView> {
        self@
    }

    open spec fn dim(&self) -> int {
        self.dim_spec()
    }

    open spec fn inv(&self) -> bool {
        self.wf()
    }

    fn add(&mut self, document: Document) -> (r: Result<(), StoreError>) {
        crate::store::VectorStore::add(self, document)
    }

    fn search(&self, query: &Vec<i16>, top_k: usize) -> (r: Result<
        Vec<SearchResult>,
        StoreError,
    >) {
        let results = crate::store::VectorStore::search(self, query, top_k);
        proof {
            let order = choose|order: Seq<int>|
                {
                    &&& is_ranked_order(order, self@, embedding_view(query@), top_k as int)
                    &&& forall|a: int|
                        0 <= a < order.len() ==> (#[trigger] results@[a]).document@
                            == self@[order[a]] && results@[a].score == score_of(
                            self@[order[a]].embedding,
                            embedding_view(query@),
                        )
                };
            assert(exists|order: Seq<int>|
                {
                    &&& is_ranked_order(order, self.docs(), embedding_view(query@), top_k as int)
                    &&& forall|a: int|
                        0 <= a < order.len() ==> (#[trigger] results@[a]).document@
                            == self.docs()[order[a]] && results@[a].score == score_of(
                            self.docs()[order[a]].embedding,
                            embedding_view(query@),
                        )
                }) by {
                assert(is_ranked_order(order, self.docs(), embedding_view(query@), top_k as int));
                assert(forall|a: int|
                    0 <= a < order.len() ==> (#[trigger] results@[a]).document@
                        == self.docs()[order[a]] && results@[a].score == score_of(
                        self.docs()[order[a]].embedding,
                        embedding_view(query@),
                    ));
            }
        }
        Ok(results)
    }

    fn count(&self) -> (r: Result<usize, StoreError>) {
        Ok(crate::store::VectorStore::count(self))
    }

    fn clear(&mut self) -> (r: Result<(), StoreError>) {
        crate::store::VectorStore::clear(self);
        Ok(())
    }

    fn get_indexed_paths(&self) -> (r: Result<Vec<String>, StoreError>) {
        Ok(crate::store::VectorStore::get_indexed_paths(self))
    }

    fn remove_by_source(&mut self, source: &str) -> (r: Result<usize, StoreError>) {
        Ok(crate::store::VectorStore::remove_by_source(self, source))
    }
}

} // verus!
