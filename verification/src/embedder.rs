//! The embedding boundary: the provider contract and the front the
//! orchestrator talks to.

use vstd::prelude::*;

use crate::errors::EmbedderError;

verus! {

/// An external service that maps text to a fixed-point embedding vector.
///
/// Implementations wrap a concrete model service; nothing is promised of
/// the vector a call returns, only that a successful call returns one.
pub trait EmbeddingProvider {
    /// Embeds `text` with the named model.
    fn embed(&self, model: &str, text: &str) -> (r: Result<Vec<i16>, EmbedderError>);
}

/// A deterministic in-process provider: each character adds to one
/// component, by position. Useful as a reference implementation and for
/// exercising the pipeline without a model service.
pub struct BagOfCharsProvider {
    dim: usize,
}

impl BagOfCharsProvider {
    /// The fixed dimensionality of the vectors this provider produces.
    pub closed spec fn dim_spec(&self) -> int {
        self.dim as int
    }

    /// Creates a provider producing vectors of length `dim`.
    pub fn new(dim: usize) -> (r: BagOfCharsProvider)
        requires
            dim >= 1,
        ensures
            r.dim_spec() == dim,
    {
        BagOfCharsProvider { dim }
    }
}

impl EmbeddingProvider for BagOfCharsProvider {
    /// Always succeeds, with a vector of this provider's dimensionality.
    fn embed(&self, model: &str, text: &str) -> (r: Result<Vec<i16>, EmbedderError>)
        ensures
            r matches Ok(v) && v@.len() == self.dim_spec(),
    {
        let mut v: Vec<i16> = Vec::new();
        if self.dim == 0 {
            return Ok(v);
        }
        let mut i: usize = 0;
        while i < self.dim
            invariant
                v@.len() == i,
                i <= self.dim,
            decreases self.dim - i,
        {
            v.push(0);
            i = i + 1;
        }
        let n = text.unicode_len();
        let mut p: usize = 0;
        while p < n
            invariant
                self.dim >= 1,
                v@.len() == self.dim,
                n == text@.len(),
                p <= n,
            decreases n - p,
        {
            let c = text.get_char(p);
            let slot = p % self.dim;
            let contribution: i16 = ((c as u32) % 97) as i16;
            let current = v[slot];
            let updated: i16 = (current % 128) + contribution;
            v.set(slot, updated);
            p = p + 1;
        }
        Ok(v)
    }
}

/// Generates embeddings through a provider, under one configured model.
pub struct Embedder<P: EmbeddingProvider> {
    provider: P,
    model: String,
}

impl<P: EmbeddingProvider> Embedder<P> {
    /// The configured model name.
    pub closed spec fn model_spec(&self) -> Seq<char> {
        self.model@
    }

    /// Creates an embedder over `provider` using the named model.
    pub fn new(provider: P, model: &str) -> (r: Embedder<P>)
        ensures
            r.model_spec() == model@,
    {
        Embedder { provider, model: model.to_owned() }
    }

    /// Generates an embedding for the given text.
    pub fn embed(&self, text: &str) -> (r: Result<Vec<i16>, EmbedderError>) {
        self.provider.embed(self.model.as_str(), text)
    }
}

} // verus!
