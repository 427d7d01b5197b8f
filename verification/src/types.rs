//! The document data model: metadata maps, stored documents and search
//! results.

use vstd::prelude::*;

use crate::vecmath::{embedding_view, Score};

verus! {

/// String-to-string metadata attached to a document.
///
/// Held as an association list with pairwise-distinct keys; its mathematical
/// contents are a `Map` from key characters to value characters.
pub struct Metadata {
    pairs: Vec<(String, String)>,
}

/// The map described by an association list: later entries win.
pub open spec fn pairs_map(s: Seq<(String, String)>) -> Map<Seq<char>, Seq<char>>
    decreases s.len(),
{
    if s.len() == 0 {
        Map::empty()
    } else {
        pairs_map(s.drop_last()).insert(s.last().0@, s.last().1@)
    }
}

impl View for Metadata {
    type V = Map<Seq<char>, Seq<char>>;

    closed spec fn view(&self) -> Map<Seq<char>, Seq<char>> {
        pairs_map(self.pairs@)
    }
}

/// A key is in the map exactly when some entry carries it.
proof fn lemma_pairs_map_contains(s: Seq<(String, String)>, k: Seq<char>)
    ensures
        pairs_map(s).contains_key(k) <==> exists|i: int| 0 <= i < s.len() && s[i].0@ == k,
    decreases s.len(),
{
    if s.len() > 0 {
        lemma_pairs_map_contains(s.drop_last(), k);
        if s.last().0@ == k {
            assert(s[s.len() - 1].0@ == k);
        } else if pairs_map(s).contains_key(k) {
            let i = choose|i: int| 0 <= i < s.drop_last().len() && s.drop_last()[i].0@ == k;
            assert(s[i].0@ == k);
        } else if exists|i: int| 0 <= i < s.len() && s[i].0@ == k {
            let i = choose|i: int| 0 <= i < s.len() && s[i].0@ == k;
            assert(s.drop_last()[i].0@ == k);
        }
    }
}

/// With pairwise-distinct keys, the map sends each entry's key to its value.
proof fn lemma_pairs_map_index(s: Seq<(String, String)>, i: int)
    requires
        forall|p: int, q: int| 0 <= p < q < s.len() ==> s[p].0@ != s[q].0@,
        0 <= i < s.len(),
    ensures
        pairs_map(s).contains_key(s[i].0@),
        pairs_map(s)[s[i].0@] == s[i].1@,
    decreases s.len(),
{
    lemma_pairs_map_contains(s, s[i].0@);
    if i < s.len() - 1 {
        assert(s.drop_last()[i] == s[i]);
        lemma_pairs_map_index(s.drop_last(), i);
    }
}

impl Metadata {
    /// The keys are pairwise distinct.
    pub closed spec fn wf(&self) -> bool {
        forall|p: int, q: int|
            0 <= p < q < self.pairs@.len() ==> self.pairs@[p].0@ != self.pairs@[q].0@
    }

    /// Creates an empty metadata map.
    pub fn new() -> (r: Metadata)
        ensures
            r@ == Map::<Seq<char>, Seq<char>>::empty(),
            r.wf(),
    {
        Metadata { pairs: Vec::new() }
    }

    /// Binds `key` to `value`, replacing any earlier binding of `key`.
    pub fn insert(&mut self, key: &str, value: &str)
        requires
            old(self).wf(),
        ensures
            final(self).wf(),
            final(self)@ == old(self)@.insert(key@, value@),
    {
        let mut i: usize = 0;
        while i < self.pairs.len()
            invariant
                0 <= i <= self.pairs@.len(),
                self.wf(),
                self.pairs@ == old(self).pairs@,
                forall|p: int| 0 <= p < i ==> self.pairs@[p].0@ != key@,
            decreases self.pairs@.len() - i,
        {
            if string_eq_str(&self.pairs[i].0, key) {
                let value_string = value.to_owned();
                let ghost old_pairs = self.pairs@;
                self.pairs.remove(i);
                proof {
                    lemma_pairs_map_remove(old_pairs, i as int);
                }
                let key_string = key.to_owned();
                self.pairs.push((key_string, value_string));
                proof {
                    assert(self.pairs@.drop_last() =~= old_pairs.remove(i as int));
                    assert(self@ == pairs_map(old_pairs).remove(key@).insert(key@, value@));
                    assert(self@ =~= old(self)@.insert(key@, value@));
                    assert forall|p: int, q: int|
                        0 <= p < q < self.pairs@.len() implies self.pairs@[p].0@
                        != self.pairs@[q].0@ by {
                        if q < self.pairs@.len() - 1 {
                            lemma_remove_keeps_distinct(old_pairs, i as int, p, q);
                        } else {
                            lemma_remove_drops_key(old_pairs, i as int, p);
                        }
                    }
                }
                return ;
            }
            i = i + 1;
        }
        let key_string = key.to_owned();
        let value_string = value.to_owned();
        self.pairs.push((key_string, value_string));
        proof {
            assert(self.pairs@.drop_last() =~= old(self).pairs@);
        }
    }

    /// Looks `key` up.
    pub fn get(&self, key: &str) -> (r: Option<&String>)
        requires
            self.wf(),
        ensures
            match r {
                Some(v) => self@.contains_key(key@) && v@ == self@[key@],
                None => !self@.contains_key(key@),
            },
    {
        let mut i: usize = 0;
        while i < self.pairs.len()
            invariant
                0 <= i <= self.pairs@.len(),
                self.wf(),
                forall|p: int| 0 <= p < i ==> self.pairs@[p].0@ != key@,
            decreases self.pairs@.len() - i,
        {
            if string_eq_str(&self.pairs[i].0, key) {
                proof {
                    lemma_pairs_map_index(self.pairs@, i as int);
                }
                return Some(&self.pairs[i].1);
            }
            i = i + 1;
        }
        proof {
            lemma_pairs_map_contains(self.pairs@, key@);
        }
        None
    }

    /// The bindings as key–value pairs, with pairwise-distinct keys.
    pub fn entries(&self) -> (r: Vec<(String, String)>)
        requires
            self.wf(),
        ensures
            pairs_map(r@) == self@,
            forall|p: int, q: int| 0 <= p < q < r@.len() ==> (#[trigger] r@[p]).0@ != (
            #[trigger] r@[q]).0@,
    {
        let copy = self.duplicate();
        let Metadata { pairs } = copy;
        pairs
    }

    /// An exact copy of this metadata map.
    pub fn duplicate(&self) -> (r: Metadata)
        requires
            self.wf(),
        ensures
            r.wf(),
            r@ == self@,
    {
        let mut pairs: Vec<(String, String)> = Vec::new();
        let mut i: usize = 0;
        while i < self.pairs.len()
            invariant
                0 <= i <= self.pairs@.len(),
                pairs@.len() == i,
                forall|p: int|
                    0 <= p < i ==> #[trigger] pairs@[p].0@ == self.pairs@[p].0@ && pairs@[p].1@
                        == self.pairs@[p].1@,
            decreases self.pairs@.len() - i,
        {
            let k = self.pairs[i].0.clone();
            let v = self.pairs[i].1.clone();
            pairs.push((k, v));
            i = i + 1;
        }
        let r = Metadata { pairs };
        proof {
            lemma_pairs_map_congruent(r.pairs@, self.pairs@);
        }
        r
    }
}

/// Two association lists with pointwise-equal key and value text describe
/// the same map.
proof fn lemma_pairs_map_congruent(a: Seq<(String, String)>, b: Seq<(String, String)>)
    requires
        a.len() == b.len(),
        forall|p: int| 0 <= p < a.len() ==> #[trigger] a[p].0@ == b[p].0@ && a[p].1@ == b[p].1@,
    ensures
        pairs_map(a) == pairs_map(b),
    decreases a.len(),
{
    if a.len() > 0 {
        assert(forall|p: int|
            0 <= p < a.drop_last().len() ==> #[trigger] a.drop_last()[p].0@ == b.drop_last()[p].0@
                && a.drop_last()[p].1@ == b.drop_last()[p].1@);
        lemma_pairs_map_congruent(a.drop_last(), b.drop_last());
        assert(a.last().0@ == b.last().0@ && a.last().1@ == b.last().1@);
    }
}

/// Removing the only entry that carries a key removes that key from the map.
proof fn lemma_pairs_map_remove(s: Seq<(String, String)>, i: int)
    requires
        forall|p: int, q: int| 0 <= p < q < s.len() ==> s[p].0@ != s[q].0@,
        0 <= i < s.len(),
    ensures
        pairs_map(s.remove(i)) == pairs_map(s).remove(s[i].0@),
    decreases s.len(),
{
    if i == s.len() - 1 {
        assert(s.remove(i) =~= s.drop_last());
        lemma_pairs_map_contains(s.drop_last(), s[i].0@);
        assert forall|j: int| 0 <= j < s.drop_last().len() implies s.drop_last()[j].0@
            != s[i].0@ by {
            assert(s[j].0@ != s[i].0@);
        }
        assert(!pairs_map(s.drop_last()).contains_key(s[i].0@));
        assert(pairs_map(s) == pairs_map(s.drop_last()).insert(s.last().0@, s.last().1@));
        assert(pairs_map(s).remove(s[i].0@) =~= pairs_map(s.drop_last()));
    } else {
        lemma_pairs_map_remove(s.drop_last(), i);
        assert(s.remove(i).drop_last() =~= s.drop_last().remove(i));
        assert(s.remove(i).last() == s.last());
        assert(pairs_map(s.remove(i)) == pairs_map(s.drop_last().remove(i)).insert(
            s.last().0@,
            s.last().1@,
        ));
        assert(s.drop_last()[i] == s[i]);
        assert(s[i].0@ != s.last().0@);
        assert(pairs_map(s).remove(s[i].0@) =~= pairs_map(s.drop_last()).remove(s[i].0@).insert(
            s.last().0@,
            s.last().1@,
        ));
    }
}

proof fn lemma_remove_keeps_distinct(s: Seq<(String, String)>, i: int, p: int, q: int)
    requires
        forall|a: int, b: int| 0 <= a < b < s.len() ==> s[a].0@ != s[b].0@,
        0 <= i < s.len(),
        0 <= p < q < s.len() - 1,
    ensures
        s.remove(i)[p].0@ != s.remove(i)[q].0@,
{
    assert(s.remove(i)[p] == if p < i {
        s[p]
    } else {
        s[p + 1]
    });
    assert(s.remove(i)[q] == if q < i {
        s[q]
    } else {
        s[q + 1]
    });
}

proof fn lemma_remove_drops_key(s: Seq<(String, String)>, i: int, p: int)
    requires
        forall|a: int, b: int| 0 <= a < b < s.len() ==> s[a].0@ != s[b].0@,
        0 <= i < s.len(),
        0 <= p < s.len() - 1,
    ensures
        s.remove(i)[p].0@ != s[i].0@,
{
    assert(s.remove(i)[p] == if p < i {
        s[p]
    } else {
        s[p + 1]
    });
}

/// Compares a `String` with a string slice character by character.
pub fn string_eq_str(a: &String, b: &str) -> (r: bool)
    ensures
        r == (a@ == b@),
{
    let b_owned = b.to_owned();
    let r = a.eq(&b_owned);
    r
}

/// The mathematical contents of a stored document.
pub struct DocumentView {
    /// Identifier text.
    pub id: Seq<char>,
    /// Content text.
    pub content: Seq<char>,
    /// Embedding components as unbounded integers.
    pub embedding: Seq<int>,
    /// Metadata contents.
    pub metadata: Map<Seq<char>, Seq<char>>,
}

/// One indexed unit: a whole snippet or one chunk of a file.
pub struct Document {
    /// Unique identifier within a store.
    pub id: String,
    /// The exact text this vector represents.
    pub content: String,
    /// Fixed-point embedding of the content.
    pub embedding: Vec<i16>,
    /// Always carries at least a `source` entry once stored.
    pub metadata: Metadata,
}

impl View for Document {
    type V = DocumentView;

    open spec fn view(&self) -> DocumentView {
        DocumentView {
            id: self.id@,
            content: self.content@,
            embedding: embedding_view(self.embedding@),
            metadata: self.metadata@,
        }
    }
}

impl Document {
    /// The metadata keys are pairwise distinct.
    pub open spec fn wf(&self) -> bool {
        self.metadata.wf()
    }

    /// Creates a document with empty metadata.
    pub fn new(id: &str, content: &str, embedding: Vec<i16>) -> (r: Document)
        ensures
            r.wf(),
            r@.id == id@,
            r@.content == content@,
            r@.embedding == embedding_view(embedding@),
            r@.metadata == Map::<Seq<char>, Seq<char>>::empty(),
    {
        Document {
            id: id.to_owned(),
            content: content.to_owned(),
            embedding,
            metadata: Metadata::new(),
        }
    }

    /// Returns the document with `key` bound to `value` in its metadata.
    pub fn with_metadata(self, key: &str, value: &str) -> (r: Document)
        requires
            self.wf(),
        ensures
            r.wf(),
            r@.id == self@.id,
            r@.content == self@.content,
            r@.embedding == self@.embedding,
            r@.metadata == self@.metadata.insert(key@, value@),
    {
        let mut doc = self;
        doc.metadata.insert(key, value);
        doc
    }

    /// An exact copy of this document.
    pub fn duplicate(&self) -> (r: Document)
        requires
            self.wf(),
        ensures
            r.wf(),
            r@ == self@,
    {
        let mut embedding: Vec<i16> = Vec::new();
        let mut i: usize = 0;
        while i < self.embedding.len()
            invariant
                0 <= i <= self.embedding@.len(),
                embedding@ == self.embedding@.take(i as int),
            decreases self.embedding@.len() - i,
        {
            embedding.push(self.embedding[i]);
            i = i + 1;
        }
        proof {
            assert(self.embedding@.take(self.embedding@.len() as int) =~= self.embedding@);
        }
        let r = Document {
            id: self.id.clone(),
            content: self.content.clone(),
            embedding,
            metadata: self.metadata.duplicate(),
        };
        r
    }
}

/// A document paired with its similarity score for one query.
pub struct SearchResult {
    /// The stored document.
    pub document: Document,
    /// Exact cosine-similarity score against the query.
    pub score: Score,
}

/// The mathematical contents of a search result.
pub struct SearchResultView {
    /// Contents of the document.
    pub document: DocumentView,
    /// The exact score.
    pub score: Score,
}

impl View for SearchResult {
    type V = SearchResultView;

    open spec fn view(&self) -> SearchResultView {
        SearchResultView { document: self.document@, score: self.score }
    }
}

} // verus!
