//! Turning a similarity matrix into weighted edges for the graph store,
//! and the batch pipeline from raw documents to those edges.

use vstd::prelude::*;
use crate::errors::CoreError;
use crate::models::VideosJson;
use crate::rank::{get_similar_items, similar_items_ok};
use crate::similarity::{
    MAX_DOC_TOKENS, SIM_SCALE, compute_cosine_similarity, dot, row_total, row_width, sim_val_ok,
    sum_row,
};
use crate::vectorize::{compute_tf_matrix, corpus_tokens, count_occ, doc_terms, spec_vocab};
use crate::text::words_view;

verus! {

/// A persisted similarity relationship between two videos, directed for
/// convenience and written once per ordered pair; the weight is in
/// millionths.
#[derive(Debug)]
pub struct SimilarityEdge {
    pub from: String,
    pub to: String,
    pub weight_micros: u64,
}

impl Clone for SimilarityEdge {
    fn clone(&self) -> (r: Self)
        ensures
            r.from@ == self.from@,
            r.to@ == self.to@,
            r.weight_micros == self.weight_micros,
    {
        SimilarityEdge {
            from: self.from.clone(),
            to: self.to.clone(),
            weight_micros: self.weight_micros,
        }
    }
}

/// The views of a row-major matrix.
pub open spec fn sim_views(m: Seq<Vec<u64>>) -> Seq<Seq<u64>> {
    m.map_values(|v: Vec<u64>| v@)
}

/// Where the edge for ordered pair `(i, j)` stands in the row-major edge
/// list that skips the diagonal.
pub open spec fn edge_index(n: int, i: int, j: int) -> int {
    i * (n - 1) + if j < i {
        j
    } else {
        j - 1
    }
}

/// The edge `e` records the similarity of `docs[i]` to `docs[j]`.
pub open spec fn edge_ok(
    e: SimilarityEdge,
    docs: Seq<VideosJson>,
    s: Seq<Seq<u64>>,
    i: int,
    j: int,
) -> bool {
    &&& e.from@ == docs[i].video_id@
    &&& e.to@ == docs[j].video_id@
    &&& e.weight_micros == s[i][j]
}

/// The edge list `edges` is exactly the row-major listing of every
/// off-diagonal entry of `s` over `docs`.
pub open spec fn edges_match(
    docs: Seq<VideosJson>,
    s: Seq<Seq<u64>>,
    edges: Seq<SimilarityEdge>,
) -> bool {
    &&& edges.len() == docs.len() * (docs.len() - 1)
    &&& forall|i: int, j: int|
        0 <= i < docs.len() && 0 <= j < docs.len() && i != j ==> edge_ok(
            edges[edge_index(docs.len() as int, i, j)],
            docs,
            s,
            i,
            j,
        )
}

/// Every off-diagonal pair's edge position lies within its own row's
/// block of the listing.
proof fn lemma_edge_index_bound(n: int, i: int, j: int)
    requires
        0 <= i < n,
        0 <= j < n,
        i != j,
    ensures
        i * (n - 1) <= edge_index(n, i, j) < (i + 1) * (n - 1),
{
    assert((i + 1) * (n - 1) == i * (n - 1) + (n - 1)) by (nonlinear_arith);
}

/// Row blocks of the edge listing come one after the other.
proof fn lemma_edge_block_mono(n: int, a: int, i: int)
    requires
        0 <= a < i,
        1 <= n,
    ensures
        (a + 1) * (n - 1) <= i * (n - 1),
{
    assert((a + 1) * (n - 1) <= i * (n - 1)) by (nonlinear_arith)
        requires a + 1 <= i && n - 1 >= 0;
}

/// Build one similarity edge per ordered pair of distinct documents, in
/// row-major order, weighted by the similarity matrix.
#[verifier::loop_isolation(false)]
pub fn similarity_edges(videos: &Vec<VideosJson>, sim: &Vec<Vec<u64>>) -> (r: Vec<SimilarityEdge>)
    requires
        sim@.len() == videos@.len(),
        forall|i: int| 0 <= i < sim@.len() ==> #[trigger] sim@[i]@.len() == videos@.len(),
    ensures
        edges_match(videos@, sim_views(sim@), r@),
{
    let n = videos.len();
    let mut out: Vec<SimilarityEdge> = Vec::new();
    let mut i: usize = 0;
    while i < n
        invariant
            i <= n,
            out@.len() == i * (n - 1),
            forall|a: int, b: int|
                0 <= a < i && 0 <= b < n && a != b ==> edge_ok(
                    out@[edge_index(n as int, a, b)],
                    videos@,
                    sim_views(sim@),
                    a,
                    b,
                ),
        decreases n - i,
    {
        let mut j: usize = 0;
        while j < n
            invariant
                j <= n,
                i < n,
                out@.len() == i * (n - 1) + if j <= i {
                    j as int
                } else {
                    j - 1
                },
                forall|a: int, b: int|
                    0 <= a < i && 0 <= b < n && a != b ==> edge_ok(
                        out@[edge_index(n as int, a, b)],
                        videos@,
                        sim_views(sim@),
                        a,
                        b,
                    ),
                forall|b: int|
                    0 <= b < j && b != i ==> edge_ok(
                        out@[edge_index(n as int, i as int, b)],
                        videos@,
                        sim_views(sim@),
                        i as int,
                        b,
                    ),
            decreases n - j,
        {
            if j != i {
                let e = SimilarityEdge {
                    from: videos[i].video_id.clone(),
                    to: videos[j].video_id.clone(),
                    weight_micros: sim[i][j],
                };
                proof {
                    assert(sim_views(sim@)[i as int] == sim@[i as int]@);
                    lemma_edge_index_bound(n as int, i as int, j as int);
                    assert(edge_index(n as int, i as int, j as int) == out@.len());
                }
                out.push(e);
                proof {
                    assert forall|a: int, b: int|
                        0 <= a < i && 0 <= b < n && a != b implies edge_ok(
                        out@[edge_index(n as int, a, b)],
                        videos@,
                        sim_views(sim@),
                        a,
                        b,
                    ) by {
                        lemma_edge_index_bound(n as int, a, b);
                        lemma_edge_block_mono(n as int, a, i as int);
                    }
                    assert forall|b: int|
                        0 <= b < j + 1 && b != i implies edge_ok(
                        out@[edge_index(n as int, i as int, b)],
                        videos@,
                        sim_views(sim@),
                        i as int,
                        b,
                    ) by {
                        lemma_edge_index_bound(n as int, i as int, b);
                    }
                }
            }
            j = j + 1;
        }
        proof {
            assert((i + 1) * (n as int - 1) == i * (n as int - 1) + (n - 1)) by (nonlinear_arith);
        }
        i = i + 1;
    }
    out
}

/// The term-frequency row a document is owed: one count per vocabulary
/// term, at the full corpus vocabulary.
pub open spec fn tf_row(docs: Seq<VideosJson>, i: int) -> Seq<u64> {
    Seq::new(
        spec_vocab(corpus_tokens(docs)).len(),
        |j: int| count_occ(doc_terms(docs[i]), spec_vocab(corpus_tokens(docs))[j]) as u64,
    )
}

/// The matrix `s` is a cosine-similarity matrix for the term-frequency
/// rows of `docs`: exact entries, symmetric, unit diagonal for non-zero
/// rows, zero for zero-norm pairings, and nothing above one unit.
pub open spec fn cosine_of_corpus(docs: Seq<VideosJson>, s: Seq<Seq<u64>>) -> bool {
    &&& s.len() == docs.len()
    &&& forall|i: int| 0 <= i < docs.len() ==> (#[trigger] s[i]).len() == docs.len()
    &&& forall|i: int, j: int|
        0 <= i < docs.len() && 0 <= j < docs.len() ==> sim_val_ok(
            tf_row(docs, i),
            tf_row(docs, j),
            (#[trigger] s[i][j]) as int,
        )
    &&& forall|i: int, j: int|
        0 <= i < docs.len() && 0 <= j < docs.len() ==> #[trigger] s[i][j] == s[j][i]
    &&& forall|i: int, j: int|
        0 <= i < docs.len() && 0 <= j < docs.len() ==> #[trigger] s[i][j] <= SIM_SCALE
    &&& forall|i: int|
        0 <= i < docs.len() ==> #[trigger] s[i][i] == if dot(tf_row(docs, i), tf_row(docs, i))
            == 0 {
            0u64
        } else {
            SIM_SCALE
        }
}

/// The batch pipeline: tokenize and vectorize the corpus, compute the
/// cosine-similarity matrix, and list the off-diagonal entries as edges.
///
/// A document whose token count exceeds `MAX_DOC_TOKENS` is refused as a
/// data error, and the error comes exactly when such a document exists.
pub fn build_similarity_edges(videos: &Vec<VideosJson>) -> (r: Result<
    Vec<SimilarityEdge>,
    CoreError,
>)
    ensures
        match r {
            Ok(edges) => {
                &&& forall|i: int|
                    0 <= i < videos@.len() ==> sum_row(#[trigger] tf_row(videos@, i))
                        <= MAX_DOC_TOKENS
                &&& exists|s: Seq<Seq<u64>>|
                    #[trigger] cosine_of_corpus(videos@, s) && edges_match(videos@, s, edges@)
            },
            Err(e) => {
                &&& e == CoreError::Data
                &&& exists|i: int|
                    0 <= i < videos@.len() && sum_row(#[trigger] tf_row(videos@, i))
                        > MAX_DOC_TOKENS
            },
        },
{
    let (tf, vocab) = compute_tf_matrix(videos);
    let n = videos.len();
    proof {
        assert forall|i: int| 0 <= i < videos@.len() implies #[trigger] tf@[i]@ == tf_row(
            videos@,
            i,
        ) by {
            assert(words_view(vocab@).len() == vocab@.len());
            assert forall|j: int| 0 <= j < vocab@.len() implies tf@[i]@[j] == tf_row(videos@, i)[j] by {
                assert(words_view(vocab@)[j] == vocab@[j]@);
            }
            assert(tf@[i]@ =~= tf_row(videos@, i));
        }
    }
    let mut i: usize = 0;
    while i < n
        invariant
            i <= n,
            n == videos@.len(),
            tf@.len() == n,
            forall|a: int| 0 <= a < n ==> #[trigger] tf@[a]@ == tf_row(videos@, a),
            forall|a: int| 0 <= a < i ==> sum_row(#[trigger] tf@[a]@) <= MAX_DOC_TOKENS,
        decreases n - i,
    {
        match row_total(&tf[i]) {
            Some(_) => {},
            None => {
                proof {
                    assert(sum_row(tf_row(videos@, i as int)) > MAX_DOC_TOKENS);
                }
                return Err(CoreError::Data);
            },
        }
        i = i + 1;
    }
    let sim = compute_cosine_similarity(&tf);
    let edges = similarity_edges(videos, &sim);
    proof {
        assert forall|a: int| 0 <= a < videos@.len() implies sum_row(#[trigger] tf_row(videos@, a))
            <= MAX_DOC_TOKENS by {
            assert(tf@[a]@ == tf_row(videos@, a));
        }
        assert forall|a: int| 0 <= a < n implies #[trigger] sim_views(sim@)[a] == sim@[a]@ by {}
        assert(cosine_of_corpus(videos@, sim_views(sim@)));
    }
    Ok(edges)
}

/// The query pipeline: vectorize the corpus, compute its similarity
/// matrix, and return the documents most similar to the query
/// identifier.
///
/// An oversized document is a data error, an unknown identifier a
/// lookup error; otherwise the result is a correctly ranked top slice
/// of every other document, as `similar_items_ok` states.
pub fn similar_items(video_id: &String, videos: &Vec<VideosJson>, num_items: usize) -> (r: Result<
    Vec<VideosJson>,
    CoreError,
>)
    ensures
        match r {
            Ok(out) => exists|s: Seq<Seq<u64>>|
                #[trigger] cosine_of_corpus(videos@, s) && exists|q: int|
                    #[trigger] similar_items_ok(
                        video_id@,
                        videos@,
                        s[q],
                        num_items as int,
                        out@,
                        q,
                    ),
            Err(e) => {
                &&& (e == CoreError::Data || e == CoreError::Lookup)
                &&& e == CoreError::Data ==> exists|i: int|
                    0 <= i < videos@.len() && sum_row(#[trigger] tf_row(videos@, i))
                        > MAX_DOC_TOKENS
                &&& e == CoreError::Lookup ==> forall|i: int|
                    0 <= i < videos@.len() ==> videos@[i].video_id@ != video_id@
            },
        },
{
    let (tf, vocab) = compute_tf_matrix(videos);
    let n = videos.len();
    proof {
        assert forall|i: int| 0 <= i < videos@.len() implies #[trigger] tf@[i]@ == tf_row(
            videos@,
            i,
        ) by {
            assert(words_view(vocab@).len() == vocab@.len());
            assert forall|j: int| 0 <= j < vocab@.len() implies tf@[i]@[j] == tf_row(videos@, i)[j] by {
                assert(words_view(vocab@)[j] == vocab@[j]@);
            }
            assert(tf@[i]@ =~= tf_row(videos@, i));
        }
    }
    let mut i: usize = 0;
    while i < n
        invariant
            i <= n,
            n == videos@.len(),
            tf@.len() == n,
            forall|a: int| 0 <= a < n ==> #[trigger] tf@[a]@ == tf_row(videos@, a),
            forall|a: int| 0 <= a < i ==> sum_row(#[trigger] tf@[a]@) <= MAX_DOC_TOKENS,
        decreases n - i,
    {
        match row_total(&tf[i]) {
            Some(_) => {},
            None => {
                proof {
                    assert(sum_row(tf_row(videos@, i as int)) > MAX_DOC_TOKENS);
                }
                return Err(CoreError::Data);
            },
        }
        i = i + 1;
    }
    let sim = compute_cosine_similarity(&tf);
    proof {
        assert forall|a: int| 0 <= a < n implies #[trigger] sim_views(sim@)[a] == sim@[a]@ by {}
        assert(cosine_of_corpus(videos@, sim_views(sim@)));
    }
    match get_similar_items(video_id, videos, &sim, num_items) {
        Ok(out) => {
            let res: Result<Vec<VideosJson>, CoreError> = Ok(out);
            proof {
                let q = choose|q: int|
                    #[trigger] similar_items_ok(
                        video_id@,
                        videos@,
                        sim@[q]@,
                        num_items as int,
                        res->Ok_0@,
                        q,
                    );
                assert(similar_items_ok(
                    video_id@,
                    videos@,
                    sim_views(sim@)[q],
                    num_items as int,
                    res->Ok_0@,
                    q,
                ));
            }
            res
        },
        Err(_) => Err(CoreError::Lookup),
    }
}

} // verus!
