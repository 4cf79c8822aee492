//! Vocabulary construction and the term-frequency matrix.
//!
//! The vocabulary is the sequence of distinct stemmed terms in order of
//! first appearance across the corpus; the matrix holds, for every
//! document and every vocabulary term, how often the term occurs among
//! the document's tokens.  The build is two-pass: the vocabulary is
//! finalized first, then every row is counted at its final width, so no
//! retroactive padding is ever needed.

use vstd::prelude::*;
use vstd::string::StringExecFns;
use crate::models::VideosJson;
use crate::text::{lower_of, spec_tokenize, words_view, tokenize};

verus! {

/// The text a document contributes: case-folded title, a space, and the
/// case-folded description.
pub open spec fn doc_text_view(v: VideosJson) -> Seq<char> {
    lower_of(v.title@) + seq![' '] + lower_of(v.description@)
}

/// The stemmed terms of one document.
pub open spec fn doc_terms(v: VideosJson) -> Seq<Seq<char>> {
    spec_tokenize(doc_text_view(v))
}

/// All terms of the corpus, document by document, in order.
pub open spec fn corpus_tokens(docs: Seq<VideosJson>) -> Seq<Seq<char>>
    decreases docs.len(),
{
    if docs.len() == 0 {
        Seq::empty()
    } else {
        corpus_tokens(docs.drop_last()) + doc_terms(docs.last())
    }
}

/// The distinct terms of a token stream, in order of first appearance.
pub open spec fn spec_vocab(ts: Seq<Seq<char>>) -> Seq<Seq<char>>
    decreases ts.len(),
{
    if ts.len() == 0 {
        Seq::empty()
    } else {
        let pre = spec_vocab(ts.drop_last());
        if pre.contains(ts.last()) {
            pre
        } else {
            pre.push(ts.last())
        }
    }
}

/// How often a term occurs in a token stream.
pub open spec fn count_occ(ts: Seq<Seq<char>>, term: Seq<char>) -> int
    decreases ts.len(),
{
    if ts.len() == 0 {
        0
    } else {
        count_occ(ts.drop_last(), term) + if ts.last() == term {
            1int
        } else {
            0int
        }
    }
}

/// A term occurs no more often than the stream is long.
pub proof fn lemma_count_occ_le_len(ts: Seq<Seq<char>>, term: Seq<char>)
    ensures
        0 <= count_occ(ts, term) <= ts.len(),
    decreases ts.len(),
{
    if ts.len() > 0 {
        lemma_count_occ_le_len(ts.drop_last(), term);
    }
}

/// The vocabulary of a stream holds no term twice.
pub proof fn lemma_vocab_distinct(ts: Seq<Seq<char>>)
    ensures
        forall|a: int, b: int|
            0 <= a < b < spec_vocab(ts).len() ==> spec_vocab(ts)[a] != spec_vocab(ts)[b],
    decreases ts.len(),
{
    if ts.len() > 0 {
        lemma_vocab_distinct(ts.drop_last());
        let pre = spec_vocab(ts.drop_last());
        if !pre.contains(ts.last()) {
            assert forall|a: int, b: int|
                0 <= a < b < spec_vocab(ts).len() implies spec_vocab(ts)[a] != spec_vocab(ts)[b] by {
                if b < pre.len() {
                } else {
                    assert(spec_vocab(ts)[a] == pre[a]);
                    assert(!pre.contains(spec_vocab(ts)[b]));
                }
            }
        }
    }
}

/// The vocabulary never loses a term as the stream grows, and it holds
/// every term of the stream.
pub proof fn lemma_vocab_complete(ts: Seq<Seq<char>>, k: int)
    requires
        0 <= k < ts.len(),
    ensures
        spec_vocab(ts).contains(ts[k]),
    decreases ts.len(),
{
    if k == ts.len() - 1 {
        let pre = spec_vocab(ts.drop_last());
        if !pre.contains(ts.last()) {
            assert(spec_vocab(ts)[spec_vocab(ts).len() - 1] == ts.last());
        } else {
            let i = choose|i: int| 0 <= i < pre.len() && pre[i] == ts.last();
            assert(spec_vocab(ts)[i] == ts.last());
        }
    } else {
        lemma_vocab_complete(ts.drop_last(), k);
        let pre = spec_vocab(ts.drop_last());
        let i = choose|i: int| 0 <= i < pre.len() && pre[i] == ts.drop_last()[k];
        assert(ts.drop_last()[k] == ts[k]);
        assert(spec_vocab(ts)[i] == ts[k]);
    }
}

/// Every token of every document appears in the corpus stream.
pub proof fn lemma_corpus_token(docs: Seq<VideosJson>, i: int, j: int)
    requires
        0 <= i < docs.len(),
        0 <= j < doc_terms(docs[i]).len(),
    ensures
        corpus_tokens(docs).contains(doc_terms(docs[i])[j]),
    decreases docs.len(),
{
    let pre = corpus_tokens(docs.drop_last());
    let cur = doc_terms(docs.last());
    if i == docs.len() - 1 {
        assert(corpus_tokens(docs)[pre.len() + j] == cur[j]);
    } else {
        lemma_corpus_token(docs.drop_last(), i, j);
        assert(docs.drop_last()[i] == docs[i]);
        let k = choose|k: int|
            0 <= k < pre.len() && pre[k] == doc_terms(docs[i])[j];
        assert(corpus_tokens(docs)[k] == doc_terms(docs[i])[j]);
    }
}

/// Concatenate the case-folded title and description of one document.
fn doc_text(v: &VideosJson) -> (r: String)
    ensures
        r@ == doc_text_view(*v),
{
    let mut s = crate::text::lower_str(v.title.as_str());
    s.append(" ");
    let d = crate::text::lower_str(v.description.as_str());
    s.append(d.as_str());
    proof {
        reveal_strlit(" ");
        assert(" "@ =~= seq![' ']);
    }
    s
}

/// Tokenize every document of the corpus.
fn tokenize_docs(videos: &Vec<VideosJson>) -> (r: Vec<Vec<String>>)
    ensures
        r@.len() == videos@.len(),
        forall|a: int| 0 <= a < videos@.len() ==> words_view(#[trigger] r@[a]@) == doc_terms(videos@[a]),
{
    let n = videos.len();
    let mut all_tokens: Vec<Vec<String>> = Vec::new();
    let mut i: usize = 0;
    while i < n
        invariant
            i <= n,
            n == videos@.len(),
            all_tokens@.len() == i,
            forall|a: int|
                0 <= a < i ==> words_view(#[trigger] all_tokens@[a]@) == doc_terms(videos@[a]),
        decreases n - i,
    {
        let txt = doc_text(&videos[i]);
        let toks = tokenize(txt.as_str());
        all_tokens.push(toks);
        i = i + 1;
    }
    all_tokens
}

/// Linear search for a term in the vocabulary.
fn find_term(vocab: &Vec<String>, t: &String) -> (r: Option<usize>)
    ensures
        match r {
            Some(k) => k < vocab@.len() && vocab@[k as int]@ == t@,
            None => forall|j: int| 0 <= j < vocab@.len() ==> vocab@[j]@ != t@,
        },
{
    let n = vocab.len();
    let mut j: usize = 0;
    while j < n
        invariant
            j <= n,
            n == vocab@.len(),
            forall|a: int| 0 <= a < j ==> vocab@[a]@ != t@,
        decreases n - j,
    {
        if vocab[j].eq(t) {
            return Some(j);
        }
        j = j + 1;
    }
    None
}

/// Collect the distinct terms of the corpus in order of first appearance.
fn build_vocab(videos: &Vec<VideosJson>, all_tokens: &Vec<Vec<String>>) -> (r: Vec<String>)
    requires
        all_tokens@.len() == videos@.len(),
        forall|a: int|
            0 <= a < videos@.len() ==> words_view(#[trigger] all_tokens@[a]@) == doc_terms(videos@[a]),
    ensures
        words_view(r@) == spec_vocab(corpus_tokens(videos@)),
{
    let n = videos.len();
    let mut vocab: Vec<String> = Vec::new();
    let mut i: usize = 0;
    while i < n
        invariant
            i <= n,
            n == videos@.len(),
            all_tokens@.len() == videos@.len(),
            forall|a: int|
                0 <= a < videos@.len() ==> words_view(#[trigger] all_tokens@[a]@) == doc_terms(
                    videos@[a],
                ),
            words_view(vocab@) == spec_vocab(corpus_tokens(videos@.take(i as int))),
        decreases n - i,
    {
        let ghost base = corpus_tokens(videos@.take(i as int));
        let ghost terms = doc_terms(videos@[i as int]);
        let m_i = all_tokens[i].len();
        proof {
            assert(words_view(all_tokens@[i as int]@).len() == terms.len());
            assert(base + terms.take(0) =~= base);
        }
        let mut p: usize = 0;
        while p < m_i
            invariant
                p <= m_i,
                0 <= i < videos@.len(),
                all_tokens@.len() == videos@.len(),
                m_i == all_tokens@[i as int]@.len(),
                words_view(all_tokens@[i as int]@) == terms,
                terms == doc_terms(videos@[i as int]),
                base == corpus_tokens(videos@.take(i as int)),
                m_i == terms.len(),
                words_view(vocab@) == spec_vocab(base + terms.take(p as int)),
            decreases m_i - p,
        {
            let ghost s_old = base + terms.take(p as int);
            let ghost tok_spec = terms[p as int];
            proof {
                assert(words_view(all_tokens@[i as int]@)[p as int] == all_tokens@[i as int]@[
                    p as int
                ]@);
                assert(base + terms.take(p + 1) =~= s_old.push(tok_spec));
                assert(s_old.push(tok_spec).drop_last() =~= s_old);
                assert(s_old.push(tok_spec).last() == tok_spec);
            }
            let toks = &all_tokens[i];
            let tok = &toks[p];
            match find_term(&vocab, tok) {
                Some(_) => {
                    proof {
                        let k = choose|k: int|
                            0 <= k < vocab@.len() && vocab@[k]@ == tok@;
                        assert(words_view(vocab@)[k] == tok_spec);
                        assert(spec_vocab(s_old).contains(tok_spec));
                    }
                }
                None => {
                    proof {
                        assert forall|k: int|
                            0 <= k < words_view(vocab@).len() implies words_view(vocab@)[k]
                            != tok_spec by {
                            assert(words_view(vocab@)[k] == vocab@[k]@);
                        }
                        assert(!spec_vocab(s_old).contains(tok_spec));
                    }
                    let t2 = tok.clone();
                    vocab.push(t2);
                    proof {
                        assert(words_view(vocab@) =~= spec_vocab(s_old).push(tok_spec));
                    }
                }
            }
            p = p + 1;
        }
        proof {
            assert(videos@.take(i + 1).drop_last() =~= videos@.take(i as int));
            assert(videos@.take(i + 1).last() == videos@[i as int]);
            assert(terms.take(m_i as int) =~= terms);
            assert(corpus_tokens(videos@.take(i + 1)) == base + terms);
        }
        i = i + 1;
    }
    proof {
        assert(videos@.take(n as int) =~= videos@);
    }
    vocab
}

/// Count every document's terms at the final vocabulary width.
fn count_rows(videos: &Vec<VideosJson>, all_tokens: &Vec<Vec<String>>, vocab: &Vec<String>) -> (r:
    Vec<Vec<u64>>)
    requires
        all_tokens@.len() == videos@.len(),
        forall|a: int|
            0 <= a < videos@.len() ==> words_view(#[trigger] all_tokens@[a]@) == doc_terms(videos@[a]),
        words_view(vocab@) == spec_vocab(corpus_tokens(videos@)),
    ensures
        r@.len() == videos@.len(),
        forall|a: int| 0 <= a < videos@.len() ==> #[trigger] r@[a]@.len() == vocab@.len(),
        forall|a: int, j: int|
            0 <= a < videos@.len() && 0 <= j < vocab@.len() ==> #[trigger] r@[a]@[j]
                == count_occ(doc_terms(videos@[a]), vocab@[j]@),
{
    let n = videos.len();
    let v_len = vocab.len();
    let mut matrix: Vec<Vec<u64>> = Vec::new();
    let mut i: usize = 0;
    while i < n
        invariant
            i <= n,
            n == videos@.len(),
            v_len == vocab@.len(),
            all_tokens@.len() == videos@.len(),
            forall|a: int|
                0 <= a < videos@.len() ==> words_view(#[trigger] all_tokens@[a]@) == doc_terms(
                    videos@[a],
                ),
            words_view(vocab@) == spec_vocab(corpus_tokens(videos@)),
            matrix@.len() == i,
            forall|a: int| 0 <= a < i ==> #[trigger] matrix@[a]@.len() == vocab@.len(),
            forall|a: int, j: int|
                0 <= a < i && 0 <= j < vocab@.len() ==> #[trigger] matrix@[a]@[j] == count_occ(
                    doc_terms(videos@[a]),
                    vocab@[j]@,
                ),
        decreases n - i,
    {
        let ghost terms = doc_terms(videos@[i as int]);
        let m_i = all_tokens[i].len();
        let mut row: Vec<u64> = vec![0u64; v_len];
        proof {
            assert(terms.take(0) =~= Seq::<Seq<char>>::empty());
        }
        let mut p: usize = 0;
        while p < m_i
            invariant
                p <= m_i,
                0 <= i < videos@.len(),
                all_tokens@.len() == videos@.len(),
                m_i == all_tokens@[i as int]@.len(),
                words_view(all_tokens@[i as int]@) == terms,
                terms == doc_terms(videos@[i as int]),
                m_i == terms.len(),
                v_len == vocab@.len(),
                words_view(vocab@) == spec_vocab(corpus_tokens(videos@)),
                row@.len() == v_len,
                forall|j: int|
                    0 <= j < v_len ==> #[trigger] row@[j] == count_occ(terms.take(p as int), vocab@[j]@),
            decreases m_i - p,
        {
            let ghost tok_spec = terms[p as int];
            proof {
                assert(words_view(all_tokens@[i as int]@)[p as int] == all_tokens@[i as int]@[
                    p as int
                ]@);
                assert(terms.take(p + 1).drop_last() =~= terms.take(p as int));
                assert(terms.take(p + 1).last() == tok_spec);
            }
            let toks = &all_tokens[i];
            let tok = &toks[p];
            let idx: usize;
            match find_term(vocab, tok) {
                Some(k) => {
                    idx = k;
                }
                None => {
                    // unreachable: the vocabulary holds every token of the
                    // corpus
                    proof {
                        lemma_corpus_token(videos@, i as int, p as int);
                        let k = choose|k: int|
                            0 <= k < corpus_tokens(videos@).len() && corpus_tokens(videos@)[k]
                                == tok_spec;
                        lemma_vocab_complete(corpus_tokens(videos@), k);
                        let w = choose|w: int|
                            0 <= w < words_view(vocab@).len() && words_view(vocab@)[w] == tok_spec;
                        assert(vocab@[w]@ == tok_spec);
                        assert(false);
                    }
                    idx = 0;
                }
            }
            proof {
                lemma_count_occ_le_len(terms.take(p as int), vocab@[idx as int]@);
                lemma_vocab_distinct(corpus_tokens(videos@));
                assert forall|j: int|
                    0 <= j < v_len && j != idx implies vocab@[j]@ != tok_spec by {
                    assert(words_view(vocab@)[j] == vocab@[j]@);
                    assert(words_view(vocab@)[idx as int] == vocab@[idx as int]@);
                }
            }
            let cur = row[idx];
            row[idx] = cur + 1;
            p = p + 1;
        }
        proof {
            assert(terms.take(m_i as int) =~= terms);
        }
        matrix.push(row);
        i = i + 1;
    }
    matrix
}

/// Build the term-frequency matrix and the vocabulary of a corpus.
///
/// The vocabulary lists the distinct stemmed terms of the corpus in order
/// of first appearance; the matrix has one row per document and one
/// column per term, every row at the full vocabulary width, and each
/// entry counts how often the term occurs among the document's tokens.
/// A document with empty text contributes an all-zero row.
pub fn compute_tf_matrix(videos: &Vec<VideosJson>) -> (r: (Vec<Vec<u64>>, Vec<String>))
    ensures
        words_view(r.1@) == spec_vocab(corpus_tokens(videos@)),
        r.0@.len() == videos@.len(),
        forall|i: int| 0 <= i < videos@.len() ==> #[trigger] r.0@[i]@.len() == r.1@.len(),
        forall|i: int, j: int|
            0 <= i < videos@.len() && 0 <= j < r.1@.len() ==> #[trigger] r.0@[i]@[j] == count_occ(
                doc_terms(videos@[i]),
                r.1@[j]@,
            ),
{
    let all_tokens = tokenize_docs(videos);
    let vocab = build_vocab(videos, &all_tokens);
    let matrix = count_rows(videos, &all_tokens, &vocab);
    (matrix, vocab)
}

} // verus!
