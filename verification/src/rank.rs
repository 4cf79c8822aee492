//! Ranking catalog documents by their similarity to a query document.

use vstd::prelude::*;
use crate::errors::CoreError;
use crate::models::{VideosJson, same_video};

verus! {

/// Strict ranking order on two positions of a similarity row: higher
/// similarity first, ties broken deterministically by the lower index.
pub open spec fn prec(row: Seq<u64>, a: int, b: int) -> bool {
    row[a] > row[b] || (row[a] == row[b] && a < b)
}

fn prec_exec(row: &Vec<u64>, a: usize, b: usize) -> (r: bool)
    requires
        a < row@.len(),
        b < row@.len(),
    ensures
        r == prec(row@, a as int, b as int),
{
    row[a] > row[b] || (row[a] == row[b] && a < b)
}

/// First position of the sorted list at which `idx` outranks the
/// resident entry; the list length if it outranks none.
#[verifier::loop_isolation(false)]
fn find_insert_pos(row: &Vec<u64>, out: &Vec<usize>, idx: usize) -> (pos: usize)
    requires
        idx < row@.len(),
        forall|a: int| 0 <= a < out@.len() ==> (#[trigger] out@[a]) < row@.len() && out@[a] != idx,
        forall|a1: int, a2: int|
            0 <= a1 < a2 < out@.len() ==> prec(row@, out@[a1] as int, out@[a2] as int),
    ensures
        pos <= out@.len(),
        forall|a: int| 0 <= a < pos ==> prec(row@, (#[trigger] out@[a]) as int, idx as int),
        forall|a: int| pos <= a < out@.len() ==> prec(row@, idx as int, (#[trigger] out@[a]) as int),
{
    let m = out.len();
    let mut p: usize = 0;
    while p < m
        invariant
            p <= m,
            forall|a: int| 0 <= a < p ==> prec(row@, (#[trigger] out@[a]) as int, idx as int),
        decreases m - p,
    {
        if !prec_exec(row, out[p], idx) {
            proof {
                assert(prec(row@, idx as int, out@[p as int] as int));
                assert forall|a: int|
                    p <= a < out@.len() implies prec(row@, idx as int, (out@[a]) as int) by {
                    if a > p {
                        assert(prec(row@, out@[p as int] as int, out@[a] as int));
                    }
                }
            }
            return p;
        }
        p = p + 1;
    }
    m
}

/// Every position of the similarity row except the query's, sorted by
/// descending similarity with the index as tie-break: a complete,
/// deterministic ranking of the other documents.
#[verifier::loop_isolation(false)]
pub fn rank_indices(row: &Vec<u64>, q: usize) -> (r: Vec<usize>)
    requires
        q < row@.len(),
    ensures
        r@.len() == row@.len() - 1,
        forall|p: int| 0 <= p < r@.len() ==> (#[trigger] r@[p]) < row@.len() && r@[p] != q,
        forall|p1: int, p2: int|
            0 <= p1 < p2 < r@.len() ==> prec(row@, r@[p1] as int, r@[p2] as int),
        forall|x: usize| x < row@.len() && x != q ==> r@.contains(x),
{
    let n = row.len();
    let mut out: Vec<usize> = Vec::new();
    let mut idx: usize = 0;
    while idx < n
        invariant
            idx <= n,
            out@.len() == if idx <= q {
                idx as int
            } else {
                idx - 1
            },
            forall|p: int| 0 <= p < out@.len() ==> (#[trigger] out@[p]) < idx && out@[p] != q,
            forall|p1: int, p2: int|
                0 <= p1 < p2 < out@.len() ==> prec(row@, out@[p1] as int, out@[p2] as int),
            forall|x: usize| x < idx && x != q ==> out@.contains(x),
        decreases n - idx,
    {
        if idx != q {
            let pos = find_insert_pos(row, &out, idx);
            let ghost old_out = out@;
            out.insert(pos, idx);
            proof {
                assert(out@ == old_out.insert(pos as int, idx));
                old_out.insert_ensures(pos as int, idx);
                assert forall|p1: int, p2: int|
                    0 <= p1 < p2 < out@.len() implies prec(row@, out@[p1] as int, out@[p2] as int) by {
                    if p1 < pos {
                        assert(out@[p1] == old_out[p1]);
                    } else if p1 == pos {
                        assert(out@[p1] == idx);
                    } else {
                        assert(out@[p1] == old_out[p1 - 1]);
                    }
                    if p2 < pos {
                        assert(out@[p2] == old_out[p2]);
                    } else if p2 == pos {
                        assert(out@[p2] == idx);
                    } else {
                        assert(out@[p2] == old_out[p2 - 1]);
                    }
                }
                assert forall|x: usize| x < idx + 1 && x != q implies out@.contains(x) by {
                    if x == idx {
                        assert(out@[pos as int] == idx);
                    } else {
                        assert(old_out.contains(x));
                        let a = choose|a: int| 0 <= a < old_out.len() && old_out[a] == x;
                        if a < pos {
                            assert(out@[a] == old_out[a]);
                            assert(out@[a] == x);
                        } else {
                            assert(out@[a + 1] == old_out[a]);
                            assert(out@[a + 1] == x);
                        }
                    }
                }
            }
        }
        idx = idx + 1;
    }
    out
}

/// The ranked tail `out` with index selection `sel` is a correct top
/// slice of the candidates for query position `q`: every pick is a
/// non-query document, picks come in strictly descending rank order, and
/// no document left out would outrank a pick.
pub open spec fn ranked_selection(
    docs: Seq<VideosJson>,
    row: Seq<u64>,
    q: int,
    sel: Seq<int>,
    out: Seq<VideosJson>,
) -> bool {
    &&& sel.len() == out.len()
    &&& forall|p: int| 0 <= p < sel.len() ==> 0 <= #[trigger] sel[p] < docs.len() && sel[p] != q
    &&& forall|p: int| 0 <= p < sel.len() ==> same_video(#[trigger] out[p], docs[sel[p]])
    &&& forall|p1: int, p2: int| 0 <= p1 < p2 < sel.len() ==> prec(row, sel[p1], sel[p2])
    &&& forall|x: int, p: int|
        #![trigger sel.contains(x), sel[p]]
        0 <= x < docs.len() && x != q && !sel.contains(x) && 0 <= p < sel.len() ==> prec(
            row,
            sel[p],
            x,
        )
}

/// What a successful similarity query returns for first query position
/// `q`: at most `num_items` documents, as many as the catalog offers,
/// never the query itself, ranked by descending similarity.
pub open spec fn similar_items_ok(
    id: Seq<char>,
    docs: Seq<VideosJson>,
    row: Seq<u64>,
    num_items: int,
    out: Seq<VideosJson>,
    q: int,
) -> bool {
    &&& 0 <= q < docs.len()
    &&& docs[q].video_id@ == id
    &&& forall|a: int| 0 <= a < q ==> docs[a].video_id@ != id
    &&& out.len() == if num_items < docs.len() - 1 {
        num_items
    } else {
        docs.len() - 1
    }
    &&& exists|sel: Seq<int>| #[trigger] ranked_selection(docs, row, q, sel, out)
}

/// The most similar other documents for a query identifier.
///
/// Fails with a lookup error exactly when the identifier is not in the
/// catalog; otherwise ranks every other document by descending
/// similarity to the query's row (ties broken by catalog position) and
/// returns the first `num_items` of them, never the query itself.
#[verifier::loop_isolation(false)]
pub fn get_similar_items(
    video_id: &String,
    videos: &Vec<VideosJson>,
    similarity_matrix: &Vec<Vec<u64>>,
    num_items: usize,
) -> (r: Result<Vec<VideosJson>, CoreError>)
    requires
        similarity_matrix@.len() == videos@.len(),
        forall|i: int|
            0 <= i < videos@.len() ==> (#[trigger] similarity_matrix@[i]@).len() == videos@.len(),
    ensures
        match r {
            Ok(out) => exists|q: int|
                #[trigger] similar_items_ok(
                    video_id@,
                    videos@,
                    similarity_matrix@[q]@,
                    num_items as int,
                    out@,
                    q,
                ),
            Err(e) => {
                &&& e == CoreError::Lookup
                &&& forall|i: int| 0 <= i < videos@.len() ==> videos@[i].video_id@ != video_id@
            },
        },
{
    let n = videos.len();
    let mut q: usize = 0;
    let mut found: bool = false;
    while q < n && !found
        invariant
            q <= n,
            !found ==> forall|a: int| 0 <= a < q ==> videos@[a].video_id@ != video_id@,
            found ==> q < n && videos@[q as int].video_id@ == video_id@ && forall|a: int|
                0 <= a < q ==> videos@[a].video_id@ != video_id@,
        decreases n - q, if found { 0int } else { 1int },
    {
        if videos[q].video_id.eq(video_id) {
            found = true;
        } else {
            q = q + 1;
        }
    }
    if !found {
        return Err(CoreError::Lookup);
    }
    let row = &similarity_matrix[q];
    let ranked = rank_indices(row, q);
    let k = if num_items < ranked.len() {
        num_items
    } else {
        ranked.len()
    };
    let mut out: Vec<VideosJson> = Vec::new();
    let mut t: usize = 0;
    while t < k
        invariant
            t <= k,
            k <= ranked@.len(),
            out@.len() == t,
            forall|p: int|
                0 <= p < t ==> same_video(#[trigger] out@[p], videos@[ranked@[p] as int]),
        decreases k - t,
    {
        let pick = ranked[t];
        out.push(videos[pick].clone());
        t = t + 1;
    }
    proof {
        let ghost sel = Seq::new(k as nat, |p: int| ranked@[p] as int);
        assert forall|x: int, p: int|
            #![trigger sel.contains(x), sel[p]]
            0 <= x < videos@.len() && x != q && !sel.contains(x) && 0 <= p < sel.len() implies prec(
            row@,
            sel[p],
            x,
        ) by {
            assert(ranked@.contains(x as usize));
            let p0 = choose|p0: int| 0 <= p0 < ranked@.len() && ranked@[p0] == x as usize;
            if p0 < k {
                assert(sel[p0] == x);
                assert(sel.contains(x));
            }
            assert(prec(row@, ranked@[p] as int, ranked@[p0] as int));
        }
        assert(ranked_selection(videos@, row@, q as int, sel, out@));
    }
    let res: Result<Vec<VideosJson>, CoreError> = Ok(out);
    proof {
        assert(similar_items_ok(
            video_id@,
            videos@,
            similarity_matrix@[q as int]@,
            num_items as int,
            res->Ok_0@,
            q as int,
        ));
    }
    res
}

} // verus!
