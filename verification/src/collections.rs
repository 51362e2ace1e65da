//! Collections of document embeddings and top-K similarity search.
//!
//! A [`Collection`] maps 128-bit document identifiers to fixed-length
//! embedding vectors.  [`Collection::search`] scores every stored
//! document against a query embedding by cosine similarity, ranks the
//! scores in descending order and returns the best
//! [`TOP_N_RESULTS`](crate::TOP_N_RESULTS) entries.

use vstd::prelude::*;
use rand::Rng;
use crate::EMBEDDING_SIZE;
use crate::TOP_N_RESULTS;
use crate::score::Score;
use crate::score::score_of;
use crate::score::score_ge;
use crate::score::cosine_similarity;
use crate::ranking::sorted_desc;
use crate::ranking::sort_desc;
use crate::ranking::insert_desc;
use crate::ranking::insert_sorted;
use crate::ranking::lemma_sort_desc_len;
use crate::ranking::lemma_sort_desc_sorted;
use crate::ranking::lemma_sort_desc_contains;

verus! {

/// Registry of named collections.  A plain name-keyed lookup with no
/// behaviour of its own; searching and inserting happen per collection.
pub struct Database {
    #[allow(dead_code)]
    collections: Vec<(String, Collection)>,
}

/// A named set of documents, each holding one embedding vector of
/// exactly [`EMBEDDING_SIZE`](crate::EMBEDDING_SIZE) components.
#[derive(Clone)]
pub struct Collection {
    documents: Vec<(u128, Vec<u8>)>,
    #[allow(dead_code)]
    name: String,
}

/// A ranked search result: document identifiers paired with their exact
/// similarity scores, best first.
pub struct Results {
    /// The ranked entries, at most [`TOP_N_RESULTS`](crate::TOP_N_RESULTS) of them.
    pub results: Vec<(u128, Score)>,
}

/// An embedding as produced by the synthetic generator: full length,
/// every component drawn from `0..=8`.
pub open spec fn valid_embedding(e: Seq<u8>) -> bool {
    &&& e.len() == EMBEDDING_SIZE
    &&& forall|i: int| 0 <= i < e.len() ==> e[i] <= 8
}

/// Some document of `docs` carries the identifier `id`.
pub open spec fn contains_id(docs: Seq<(u128, Seq<u8>)>, id: u128) -> bool {
    exists|i: int| 0 <= i < docs.len() && docs[i].0 == id
}

/// How an insertion changes the document sequence: a fresh identifier
/// is appended, an existing one has its embedding silently overwritten
/// in place.
pub open spec fn inserted(
    old_docs: Seq<(u128, Seq<u8>)>,
    new_docs: Seq<(u128, Seq<u8>)>,
    id: u128,
    e: Seq<u8>,
) -> bool {
    if contains_id(old_docs, id) {
        exists|j: int|
            0 <= j < old_docs.len() && old_docs[j].0 == id && new_docs == old_docs.update(
                j,
                (id, e),
            )
    } else {
        new_docs == old_docs.push((id, e))
    }
}

/// Every document of `docs` paired with its exact score against `q`,
/// in storage order.
pub open spec fn scored_seq(docs: Seq<(u128, Seq<u8>)>, q: Seq<u8>) -> Seq<(u128, Score)> {
    docs.map_values(|d: (u128, Seq<u8>)| (d.0, score_of(q, d.1)))
}

/// The exact result of a search: all documents scored against `q`,
/// stably ranked by descending score, cut to the best
/// [`TOP_N_RESULTS`](crate::TOP_N_RESULTS) entries.
pub open spec fn top_k_spec(docs: Seq<(u128, Seq<u8>)>, q: Seq<u8>) -> Seq<(u128, Score)> {
    let ranked = sort_desc(scored_seq(docs, q));
    if ranked.len() <= TOP_N_RESULTS {
        ranked
    } else {
        ranked.take(TOP_N_RESULTS as int)
    }
}

/// Relies on rand's `thread_rng` and `Rng::gen_range`: a value sampled
/// from the half-open range `0..9` is at most 8.
#[verifier::external_body]
fn random_component() -> (r: u8)
    ensures
        r <= 8,
{
    rand::thread_rng().gen_range(0..9)
}

impl Collection {
    /// The documents of the collection: identifier and embedding, in
    /// storage order.
    pub closed spec fn docs(&self) -> Seq<(u128, Seq<u8>)> {
        self.documents@.map_values(|d: (u128, Vec<u8>)| (d.0, d.1@))
    }

    /// Structural invariant: identifiers are unique and every stored
    /// embedding has exactly `EMBEDDING_SIZE` components.
    pub closed spec fn wf(&self) -> bool {
        &&& forall|i: int|
            0 <= i < self.documents@.len() ==> (#[trigger] self.documents@[i].1@).len()
                == EMBEDDING_SIZE
        &&& forall|i: int, j: int|
            0 <= i < j < self.documents@.len() ==> self.documents@[i].0 != self.documents@[j].0
    }

    /// Create an empty, unnamed collection.
    pub fn new() -> (c: Self)
        ensures
            c.wf(),
            c.docs() == Seq::<(u128, Seq<u8>)>::empty(),
    {
        let c = Collection { documents: Vec::new(), name: String::new() };
        proof {
            assert(c.docs() =~= Seq::<(u128, Seq<u8>)>::empty());
        }
        c
    }

    /// Number of documents in the collection.
    pub fn get_length(&self) -> (n: usize)
        ensures
            n == self.docs().len(),
    {
        self.documents.len()
    }

    /// Store `embedding` under `id`.  A fresh identifier is appended;
    /// an identifier already present has its embedding silently
    /// overwritten, which is the documented duplicate policy.
    pub fn insert_embedding(&mut self, id: u128, embedding: Vec<u8>)
        requires
            old(self).wf(),
            embedding@.len() == EMBEDDING_SIZE,
        ensures
            final(self).wf(),
            inserted(old(self).docs(), final(self).docs(), id, embedding@),
            contains_id(final(self).docs(), id),
            final(self).docs().len() == old(self).docs().len() + (if contains_id(
                old(self).docs(),
                id,
            ) {
                0int
            } else {
                1int
            }),
    {
        let n = self.documents.len();
        let mut i: usize = 0;
        while i < n
            invariant
                i <= n,
                n == self.documents@.len(),
                *self == *old(self),
                old(self).wf(),
                embedding@.len() == EMBEDDING_SIZE,
                forall|k: int| 0 <= k < i ==> self.documents@[k].0 != id,
            decreases n - i,
        {
            let existing = self.documents[i].0;
            if existing == id {
                proof {
                    assert(old(self).docs()[i as int].0 == id);
                    assert(contains_id(old(self).docs(), id));
                }
                self.documents[i] = (id, embedding);
                proof {
                    let ov = old(self).documents@;
                    assert(self.documents@ == ov.update(i as int, (id, embedding)));
                    assert forall|k: int| 0 <= k < self.documents@.len() implies (
                    #[trigger] self.documents@[k]).0 == ov[k].0 && self.documents@[k].1@.len()
                        == EMBEDDING_SIZE by {
                        if k == i as int {
                            assert(self.documents@[k] == (id, embedding));
                            assert(ov[k].0 == id);
                        } else {
                            assert(self.documents@[k] == ov[k]);
                            assert(ov[k].1@.len() == EMBEDDING_SIZE);
                        }
                    }
                    assert(self.wf());
                    let od = old(self).docs();
                    assert(self.docs() =~= od.update(i as int, (id, embedding@)));
                    assert(self.docs()[i as int].0 == id);
                    assert(inserted(od, self.docs(), id, embedding@));
                }
                return ;
            }
            i = i + 1;
        }
        proof {
            assert(!contains_id(self.docs(), id)) by {
                assert(forall|k: int|
                    0 <= k < self.docs().len() ==> (#[trigger] self.docs()[k]).0
                        == self.documents@[k].0);
            }
        }
        self.documents.push((id, embedding));
        proof {
            let od = old(self).docs();
            assert(self.docs() =~= od.push((id, embedding@)));
            assert(self.docs()[od.len() as int].0 == id);
        }
    }

    /// Generate a synthetic embedding: `EMBEDDING_SIZE` components,
    /// each drawn independently from `0..=8`.  A placeholder with no
    /// relationship to any document content.
    fn generate_numeric_embedding() -> (e: Vec<u8>)
        ensures
            valid_embedding(e@),
    {
        let mut v: Vec<u8> = Vec::new();
        let mut i: usize = 0;
        while i < EMBEDDING_SIZE
            invariant
                i <= EMBEDDING_SIZE,
                v@.len() == i,
                forall|k: int| 0 <= k < v@.len() ==> v@[k] <= 8,
            decreases EMBEDDING_SIZE - i,
        {
            v.push(random_component());
            i = i + 1;
        }
        v
    }

    /// Add a document under `id`, giving it a freshly generated
    /// synthetic embedding (see [`Self::search`] on the generator).
    pub fn add_embedding(&mut self, id: u128)
        requires
            old(self).wf(),
        ensures
            final(self).wf(),
            contains_id(final(self).docs(), id),
            exists|e: Seq<u8>|
                valid_embedding(e) && #[trigger] inserted(
                    old(self).docs(),
                    final(self).docs(),
                    id,
                    e,
                ),
            final(self).docs().len() == old(self).docs().len() + (if contains_id(
                old(self).docs(),
                id,
            ) {
                0int
            } else {
                1int
            }),
    {
        let embedding = Self::generate_numeric_embedding();
        let ghost e = embedding@;
        self.insert_embedding(id, embedding);
        proof {
            assert(valid_embedding(e) && inserted(old(self).docs(), self.docs(), id, e));
        }
    }

    /// Score every stored document against `query_embedding` and return
    /// the ranked top results.  The result is a pure function of the
    /// collection's contents and the query embedding.
    pub fn search_with_embedding(&self, query_embedding: &Vec<u8>) -> (r: Results)
        requires
            self.wf(),
            query_embedding@.len() == EMBEDDING_SIZE,
        ensures
            r.results@ == top_k_spec(self.docs(), query_embedding@),
            r.results@.len() == (if self.docs().len() <= TOP_N_RESULTS {
                self.docs().len() as int
            } else {
                TOP_N_RESULTS as int
            }),
            sorted_desc(r.results@),
            forall|k: int|
                0 <= k < r.results@.len() ==> exists|i: int|
                    0 <= i < self.docs().len() && (#[trigger] self.docs()[i]).0 == (
                    #[trigger] r.results@[k]).0 && r.results@[k].1 == score_of(
                        query_embedding@,
                        self.docs()[i].1,
                    ),
    {
        let ghost q = query_embedding@;
        let ghost docs = self.docs();
        let mut ranked: Vec<(u128, Score)> = Vec::new();
        let n = self.documents.len();
        let mut idx: usize = 0;
        proof {
            assert(docs.len() == n);
            assert(scored_seq(docs.take(0), q) =~= Seq::<(u128, Score)>::empty());
        }
        while idx < n
            invariant
                idx <= n,
                n == self.documents@.len(),
                self.wf(),
                docs == self.docs(),
                q == query_embedding@,
                q.len() == EMBEDDING_SIZE,
                ranked@ == sort_desc(scored_seq(docs.take(idx as int), q)),
            decreases n - idx,
        {
            let entry = &self.documents[idx];
            let entry_id = entry.0;
            proof {
                assert(docs[idx as int] == (entry_id, entry.1@));
            }
            let s = cosine_similarity(query_embedding, &entry.1);
            insert_sorted(&mut ranked, (entry_id, s));
            idx = idx + 1;
            proof {
                let t = scored_seq(docs.take(idx as int), q);
                assert(t.drop_last() =~= scored_seq(docs.take(idx as int - 1), q));
                assert(t.last() == (entry_id, score_of(q, docs[idx as int - 1].1)));
            }
        }
        proof {
            assert(docs.take(n as int) =~= docs);
        }
        let mut results = ranked;
        if results.len() > TOP_N_RESULTS {
            results.truncate(TOP_N_RESULTS);
        }
        proof {
            let scored = scored_seq(docs, q);
            let full = sort_desc(scored);
            lemma_sort_desc_len(scored);
            lemma_sort_desc_sorted(scored);
            lemma_sort_desc_contains(scored);
            assert(results@ == top_k_spec(docs, q));
            assert forall|k: int| 0 <= k < results@.len() implies exists|i: int|
                0 <= i < docs.len() && (#[trigger] docs[i]).0 == (#[trigger] results@[k]).0
                    && results@[k].1 == score_of(q, docs[i].1) by {
                assert(results@[k] == full[k]);
                assert(full.contains(full[k]));
                assert(scored.contains(full[k]));
                let i = choose|i: int| 0 <= i < scored.len() && scored[i] == full[k];
                assert(scored[i] == (docs[i].0, score_of(q, docs[i].1)));
                assert(0 <= i < docs.len() && docs[i].0 == results@[k].0 && results@[k].1
                    == score_of(q, docs[i].1));
            }
        }
        Results { results }
    }

    /// Search the collection for the documents most similar to `query`.
    ///
    /// The query embedding is produced by the same synthetic random
    /// generator as document embeddings: the query text itself does not
    /// influence the vector.  That mirrors the placeholder embedding
    /// policy of the store; every clause below therefore holds for
    /// *some* generated embedding, and [`Self::search_with_embedding`]
    /// carries the exact contract for a caller-chosen embedding.
    pub fn search(&self, query: &str) -> (r: Results)
        requires
            self.wf(),
        ensures
            r.results@.len() == (if self.docs().len() <= TOP_N_RESULTS {
                self.docs().len() as int
            } else {
                TOP_N_RESULTS as int
            }),
            sorted_desc(r.results@),
            forall|k: int|
                0 <= k < r.results@.len() ==> exists|i: int|
                    0 <= i < self.docs().len() && (#[trigger] self.docs()[i]).0 == (
                    #[trigger] r.results@[k]).0,
            exists|q: Seq<u8>|
                valid_embedding(q) && r.results@ == #[trigger] top_k_spec(self.docs(), q),
    {
        let query_embedding = Self::generate_query_embedding(query);
        let r = self.search_with_embedding(&query_embedding);
        proof {
            let ghost q = query_embedding@;
            assert(valid_embedding(q) && r.results@ == top_k_spec(self.docs(), q));
            assert forall|k: int| 0 <= k < r.results@.len() implies exists|i: int|
                0 <= i < self.docs().len() && (#[trigger] self.docs()[i]).0 == (
            #[trigger] r.results@[k]).0 by {
                let i = choose|i: int|
                    0 <= i < self.docs().len() && (#[trigger] self.docs()[i]).0 == r.results@[k].0
                        && r.results@[k].1 == score_of(q, self.docs()[i].1);
                assert(0 <= i < self.docs().len() && self.docs()[i].0 == r.results@[k].0);
            }
        }
        r
    }

    /// Derive an embedding for the query text.  Currently the same
    /// synthetic random generator as for documents: the text is
    /// accepted but not used, a documented placeholder.
    fn generate_query_embedding(_query: &str) -> (e: Vec<u8>)
        ensures
            valid_embedding(e@),
    {
        Self::generate_numeric_embedding()
    }
}

/// Searching an unmodified collection twice with the same query
/// embedding yields identical result sequences: the result is a pure
/// function of the documents and the query.
pub proof fn lemma_search_deterministic(
    docs: Seq<(u128, Seq<u8>)>,
    q: Seq<u8>,
    r1: Seq<(u128, Score)>,
    r2: Seq<(u128, Score)>,
)
    requires
        r1 == top_k_spec(docs, q),
        r2 == top_k_spec(docs, q),
    ensures
        r1 == r2,
{
}

/// Top-K dominance: every returned entry scores at least as high as
/// every document whose identifier was left out of the results.
pub proof fn lemma_top_k_dominates(docs: Seq<(u128, Seq<u8>)>, q: Seq<u8>)
    ensures
        forall|k: int, i: int|
            {
                &&& 0 <= k < top_k_spec(docs, q).len()
                &&& 0 <= i < docs.len()
                &&& !(exists|m: int|
                    0 <= m < top_k_spec(docs, q).len() && top_k_spec(docs, q)[m].0 == (
                    #[trigger] docs[i]).0)
            } ==> score_ge(#[trigger] top_k_spec(docs, q)[k].1, score_of(q, docs[i].1)),
{
    let scored = scored_seq(docs, q);
    let full = sort_desc(scored);
    let r = top_k_spec(docs, q);
    lemma_sort_desc_len(scored);
    lemma_sort_desc_sorted(scored);
    lemma_sort_desc_contains(scored);
    assert forall|k: int, i: int|
        {
            &&& 0 <= k < r.len()
            &&& 0 <= i < docs.len()
            &&& !(exists|m: int| 0 <= m < r.len() && r[m].0 == (#[trigger] docs[i]).0)
        } implies score_ge(#[trigger] r[k].1, score_of(q, docs[i].1)) by {
        let y = (docs[i].0, score_of(q, docs[i].1));
        assert(scored[i] == y);
        assert(scored.contains(y));
        assert(full.contains(y));
        let j = choose|j: int| 0 <= j < full.len() && full[j] == y;
        if j < r.len() {
            assert(r[j] == full[j]);
            assert(r[j].0 == docs[i].0);
            assert(false);
        }
        assert(r[k] == full[k]);
        assert(score_ge(full[k].1, full[j].1));
    }
}

} // verus!
