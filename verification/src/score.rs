//! Scoring unwatched candidates against a user's watched set.
//!
//! For every candidate the scorer aggregates the similarity weights of
//! its edges to watched videos (the caller fetches them, one optional
//! weight per candidate-watched pair) and ranks candidates by the mean
//! found weight.  Means are compared exactly as rationals by cross
//! multiplication; a candidate with no matching edge, or without a
//! title, is excluded by policy rather than scored with an undefined
//! value.

use vstd::prelude::*;
use crate::similarity::SIM_SCALE;

verus! {

/// An unwatched video offered for recommendation; a missing title
/// excludes it from the result.
#[derive(Debug)]
pub struct Candidate {
    pub video_id: String,
    pub title: Option<String>,
}

impl Clone for Candidate {
    fn clone(&self) -> (r: Self)
        ensures
            r.video_id@ == self.video_id@,
            r.title is Some <==> self.title is Some,
            self.title is Some ==> r.title->0@ == self.title->0@,
    {
        Candidate {
            video_id: self.video_id.clone(),
            title: match &self.title {
                Some(t) => Some(t.clone()),
                None => None,
            },
        }
    }
}

/// One ranked recommendation: the mean similarity to the watched set is
/// the exact rational `weight_sum / edge_count`, in millionths.
#[derive(Debug)]
pub struct Recommendation {
    pub video_id: String,
    pub title: String,
    pub weight_sum: u64,
    pub edge_count: u64,
}

impl Clone for Recommendation {
    fn clone(&self) -> (r: Self)
        ensures
            r.video_id@ == self.video_id@,
            r.title@ == self.title@,
            r.weight_sum == self.weight_sum,
            r.edge_count == self.edge_count,
    {
        Recommendation {
            video_id: self.video_id.clone(),
            title: self.title.clone(),
            weight_sum: self.weight_sum,
            edge_count: self.edge_count,
        }
    }
}

impl Recommendation {
    /// The mean weight rounded down to millionths.
    pub fn score_micros(&self) -> (r: u64)
        requires
            self.edge_count > 0,
        ensures
            r == self.weight_sum as int / self.edge_count as int,
    {
        self.weight_sum / self.edge_count
    }
}

/// Sum of the weights found among one candidate's pair lookups.
pub open spec fn opt_sum(ws: Seq<Option<u64>>) -> int
    decreases ws.len(),
{
    if ws.len() == 0 {
        0
    } else {
        opt_sum(ws.drop_last()) + match ws.last() {
            Some(v) => v as int,
            None => 0,
        }
    }
}

/// How many of one candidate's pair lookups found an edge.
pub open spec fn opt_cnt(ws: Seq<Option<u64>>) -> int
    decreases ws.len(),
{
    if ws.len() == 0 {
        0
    } else {
        opt_cnt(ws.drop_last()) + match ws.last() {
            Some(_) => 1int,
            None => 0,
        }
    }
}

/// Sums and counts of found weights are non-negative.
pub proof fn lemma_opt_nonneg(ws: Seq<Option<u64>>)
    ensures
        0 <= opt_sum(ws),
        0 <= opt_cnt(ws) <= ws.len(),
    decreases ws.len(),
{
    if ws.len() > 0 {
        lemma_opt_nonneg(ws.drop_last());
    }
}

/// The views of the weight rows.
pub open spec fn weight_views(w: Seq<Vec<Option<u64>>>) -> Seq<Seq<Option<u64>>> {
    w.map_values(|v: Vec<Option<u64>>| v@)
}

/// A candidate takes part in the ranking: its title is known and at
/// least one watched edge was found.
pub open spec fn eligible(cands: Seq<Candidate>, w: Seq<Seq<Option<u64>>>, i: int) -> bool {
    &&& cands[i].title is Some
    &&& opt_cnt(w[i]) > 0
}

/// Strict ranking order on two candidate positions: the higher mean
/// weight first, compared exactly by cross multiplication, ties broken
/// deterministically by the lower position.
pub open spec fn score_prec(w: Seq<Seq<Option<u64>>>, a: int, b: int) -> bool {
    let sa = opt_sum(w[a]);
    let ca = opt_cnt(w[a]);
    let sb = opt_sum(w[b]);
    let cb = opt_cnt(w[b]);
    sa * cb > sb * ca || (sa * cb == sb * ca && a < b)
}

/// Cross-multiplied mean comparison composes: transitivity of the
/// rational order, strict whenever either step is strict.
proof fn lemma_mean_trans(sa: int, ca: int, sb: int, cb: int, sc: int, cc: int)
    requires
        ca > 0,
        cb > 0,
        cc > 0,
        sa * cb >= sb * ca,
        sb * cc >= sc * cb,
    ensures
        sa * cc >= sc * ca,
        sa * cb > sb * ca || sb * cc > sc * cb ==> sa * cc > sc * ca,
{
    if sa * cb > sb * ca || sb * cc > sc * cb {
        if sa * cb > sb * ca {
            assert((sa * cc) * cb > (sc * ca) * cb) by (nonlinear_arith)
                requires
                    sa * cb > sb * ca,
                    sb * cc >= sc * cb,
                    ca > 0,
                    cc > 0,
            ;
        } else {
            assert((sa * cc) * cb > (sc * ca) * cb) by (nonlinear_arith)
                requires
                    sa * cb >= sb * ca,
                    sb * cc > sc * cb,
                    ca > 0,
                    cc > 0,
            ;
        }
        assert(sa * cc > sc * ca) by (nonlinear_arith)
            requires (sa * cc) * cb > (sc * ca) * cb && cb > 0;
    } else {
        assert((sa * cc) * cb == (sc * ca) * cb) by (nonlinear_arith)
            requires
                sa * cb == sb * ca,
                sb * cc == sc * cb,
                ca > 0,
                cc > 0,
        ;
        assert(sa * cc == sc * ca) by (nonlinear_arith)
            requires (sa * cc) * cb == (sc * ca) * cb && cb > 0;
    }
}

/// Transitivity of the ranking order over eligible candidates.
proof fn lemma_score_prec_trans(
    cands: Seq<Candidate>,
    w: Seq<Seq<Option<u64>>>,
    a: int,
    b: int,
    c: int,
)
    requires
        0 <= a < cands.len(),
        0 <= b < cands.len(),
        0 <= c < cands.len(),
        cands.len() == w.len(),
        eligible(cands, w, a),
        eligible(cands, w, b),
        eligible(cands, w, c),
        score_prec(w, a, b),
        score_prec(w, b, c),
    ensures
        score_prec(w, a, c),
{
    lemma_mean_trans(
        opt_sum(w[a]),
        opt_cnt(w[a]),
        opt_sum(w[b]),
        opt_cnt(w[b]),
        opt_sum(w[c]),
        opt_cnt(w[c]),
    );
}

fn score_prec_exec(sums: &Vec<u64>, cnts: &Vec<u64>, a: usize, b: usize, w: Ghost<
    Seq<Seq<Option<u64>>>,
>) -> (r: bool)
    requires
        a < sums@.len(),
        b < sums@.len(),
        sums@.len() == cnts@.len(),
        sums@.len() == w@.len(),
        forall|i: int| 0 <= i < w@.len() ==> #[trigger] sums@[i] == opt_sum(w@[i]),
        forall|i: int| 0 <= i < w@.len() ==> #[trigger] cnts@[i] == opt_cnt(w@[i]),
    ensures
        r == score_prec(w@, a as int, b as int),
{
    proof {
        let sa = sums@[a as int] as int;
        let ca = cnts@[a as int] as int;
        let sb = sums@[b as int] as int;
        let cb = cnts@[b as int] as int;
        assert(sa * cb <= 0xffff_ffff_ffff_ffff_ffff_ffff_ffff_ffffu128) by (nonlinear_arith)
            requires
                0 <= sa <= 0xffff_ffff_ffff_ffffu64,
                0 <= cb <= 0xffff_ffff_ffff_ffffu64,
        ;
        assert(sb * ca <= 0xffff_ffff_ffff_ffff_ffff_ffff_ffff_ffffu128) by (nonlinear_arith)
            requires
                0 <= sb <= 0xffff_ffff_ffff_ffffu64,
                0 <= ca <= 0xffff_ffff_ffff_ffffu64,
        ;
    }
    let left: u128 = (sums[a] as u128) * (cnts[b] as u128);
    let right: u128 = (sums[b] as u128) * (cnts[a] as u128);
    left > right || (left == right && a < b)
}

/// The ranked list `out` with index selection `sel` is exactly the
/// eligible candidates, each scored by the sum and count of its found
/// weights, in strictly descending rank order, with no eligible
/// candidate left out.
pub open spec fn scored_selection(
    cands: Seq<Candidate>,
    w: Seq<Seq<Option<u64>>>,
    sel: Seq<int>,
    out: Seq<Recommendation>,
) -> bool {
    &&& sel.len() == out.len()
    &&& forall|p: int|
        0 <= p < sel.len() ==> 0 <= #[trigger] sel[p] < cands.len() && eligible(cands, w, sel[p])
    &&& forall|p: int|
        0 <= p < sel.len() ==> {
            let ci = #[trigger] sel[p];
            &&& out[p].video_id@ == cands[ci].video_id@
            &&& out[p].title@ == cands[ci].title->0@
            &&& out[p].weight_sum == opt_sum(w[ci])
            &&& out[p].edge_count == opt_cnt(w[ci])
        }
    &&& forall|p1: int, p2: int| 0 <= p1 < p2 < sel.len() ==> score_prec(w, sel[p1], sel[p2])
    &&& forall|ci: int|
        0 <= ci < cands.len() && eligible(cands, w, ci) ==> sel.contains(ci)
}

/// First position of the sorted index list at which `idx` outranks the
/// resident entry.
#[verifier::loop_isolation(false)]
fn find_score_pos(
    sums: &Vec<u64>,
    cnts: &Vec<u64>,
    out: &Vec<usize>,
    idx: usize,
    cands: Ghost<Seq<Candidate>>,
    w: Ghost<Seq<Seq<Option<u64>>>>,
) -> (pos: usize)
    requires
        idx < w@.len(),
        cands@.len() == w@.len(),
        sums@.len() == w@.len(),
        cnts@.len() == w@.len(),
        forall|i: int| 0 <= i < w@.len() ==> #[trigger] sums@[i] == opt_sum(w@[i]),
        forall|i: int| 0 <= i < w@.len() ==> #[trigger] cnts@[i] == opt_cnt(w@[i]),
        eligible(cands@, w@, idx as int),
        forall|a: int|
            0 <= a < out@.len() ==> (#[trigger] out@[a]) < idx && eligible(cands@, w@, out@[a] as int),
        forall|a1: int, a2: int|
            0 <= a1 < a2 < out@.len() ==> score_prec(w@, out@[a1] as int, out@[a2] as int),
    ensures
        pos <= out@.len(),
        forall|a: int| 0 <= a < pos ==> score_prec(w@, (#[trigger] out@[a]) as int, idx as int),
        forall|a: int|
            pos <= a < out@.len() ==> score_prec(w@, idx as int, (#[trigger] out@[a]) as int),
{
    let m = out.len();
    let mut p: usize = 0;
    while p < m
        invariant
            p <= m,
            forall|a: int| 0 <= a < p ==> score_prec(w@, (#[trigger] out@[a]) as int, idx as int),
        decreases m - p,
    {
        if !score_prec_exec(sums, cnts, out[p], idx, w) {
            proof {
                assert(score_prec(w@, idx as int, out@[p as int] as int));
                assert forall|a: int|
                    p <= a < out@.len() implies score_prec(w@, idx as int, (out@[a]) as int) by {
                    if a > p {
                        assert(score_prec(w@, out@[p as int] as int, out@[a] as int));
                        lemma_score_prec_trans(
                            cands@,
                            w@,
                            idx as int,
                            out@[p as int] as int,
                            out@[a] as int,
                        );
                    }
                }
            }
            return p;
        }
        p = p + 1;
    }
    m
}

/// Score and rank the candidates of one user against the watched set.
///
/// `weights[ci][wi]` is the looked-up similarity weight between
/// candidate `ci` and watched video `wi`, `None` where the store holds
/// no edge.  Every candidate with a known title and at least one found
/// edge appears exactly once, ranked by descending mean weight (exact
/// rational comparison, ties broken by candidate position); the rest are
/// excluded, so no result ever carries an undefined score.
#[verifier::loop_isolation(false)]
pub fn score_candidates(
    watched: &Vec<String>,
    candidates: &Vec<Candidate>,
    weights: &Vec<Vec<Option<u64>>>,
) -> (r: Vec<Recommendation>)
    requires
        weights@.len() == candidates@.len(),
        forall|i: int| 0 <= i < weights@.len() ==> (#[trigger] weights@[i]@).len() == watched@.len(),
        forall|i: int, j: int|
            0 <= i < weights@.len() && 0 <= j < watched@.len()
                ==> ((#[trigger] weights@[i]@[j]) matches Some(v) ==> v <= SIM_SCALE),
        watched@.len() <= 0x1_0000_0000u64,
    ensures
        exists|sel: Seq<int>|
            #[trigger] scored_selection(candidates@, weight_views(weights@), sel, r@),
        forall|p: int| 0 <= p < r@.len() ==> (#[trigger] r@[p]).edge_count > 0,
        forall|p1: int, p2: int|
            0 <= p1 < p2 < r@.len() ==> (#[trigger] r@[p1]).weight_sum * (#[trigger] r@[p2]).edge_count
                >= r@[p2].weight_sum * r@[p1].edge_count,
{
    let m = candidates.len();
    let n_watched = watched.len();
    let ghost w = weight_views(weights@);
    proof {
        assert forall|i: int| 0 <= i < m implies #[trigger] w[i] == weights@[i]@ by {}
    }
    // aggregate the found weights of every candidate
    let mut sums: Vec<u64> = Vec::new();
    let mut cnts: Vec<u64> = Vec::new();
    let mut i: usize = 0;
    while i < m
        invariant
            i <= m,
            sums@.len() == i,
            cnts@.len() == i,
            forall|a: int| 0 <= a < i ==> #[trigger] sums@[a] == opt_sum(w[a]),
            forall|a: int| 0 <= a < i ==> #[trigger] cnts@[a] == opt_cnt(w[a]),
        decreases m - i,
    {
        let row = &weights[i];
        let mut s: u64 = 0;
        let mut c: u64 = 0;
        let mut j: usize = 0;
        while j < n_watched
            invariant
                j <= n_watched,
                i < m,
                row@ == w[i as int],
                row@.len() == n_watched,
                n_watched <= 0x1_0000_0000u64,
                forall|b: int|
                    0 <= b < n_watched ==> ((#[trigger] row@[b]) matches Some(v) ==> v
                        <= SIM_SCALE),
                s == opt_sum(row@.take(j as int)),
                c == opt_cnt(row@.take(j as int)),
                s <= j * (SIM_SCALE as int),
                c <= j,
            decreases n_watched - j,
        {
            proof {
                assert(row@.take(j + 1).drop_last() =~= row@.take(j as int));
                assert(row@.take(j + 1).last() == row@[j as int]);
            }
            match row[j] {
                Some(v) => {
                    s = s + v;
                    c = c + 1;
                },
                None => {},
            }
            j = j + 1;
        }
        proof {
            assert(row@.take(n_watched as int) =~= row@);
        }
        sums.push(s);
        cnts.push(c);
        i = i + 1;
    }
    // insertion sort of the eligible candidate positions
    let mut order: Vec<usize> = Vec::new();
    let mut ci: usize = 0;
    while ci < m
        invariant
            ci <= m,
            sums@.len() == m,
            cnts@.len() == m,
            forall|a: int| 0 <= a < m ==> #[trigger] sums@[a] == opt_sum(w[a]),
            forall|a: int| 0 <= a < m ==> #[trigger] cnts@[a] == opt_cnt(w[a]),
            forall|p: int|
                0 <= p < order@.len() ==> (#[trigger] order@[p]) < ci && eligible(
                    candidates@,
                    w,
                    order@[p] as int,
                ),
            forall|p1: int, p2: int|
                0 <= p1 < p2 < order@.len() ==> score_prec(w, order@[p1] as int, order@[p2] as int),
            forall|x: int|
                0 <= x < ci && eligible(candidates@, w, x) ==> order@.contains(x as usize),
        decreases m - ci,
    {
        let has_title = candidates[ci].title.is_some();
        let c_here = cnts[ci];
        if has_title && c_here > 0 {
            let pos = find_score_pos(&sums, &cnts, &order, ci, Ghost(candidates@), Ghost(w));
            let ghost old_order = order@;
            order.insert(pos, ci);
            proof {
                assert(order@ == old_order.insert(pos as int, ci));
                old_order.insert_ensures(pos as int, ci);
                assert forall|p1: int, p2: int|
                    0 <= p1 < p2 < order@.len() implies score_prec(
                    w,
                    order@[p1] as int,
                    order@[p2] as int,
                ) by {
                    if p1 < pos {
                        assert(order@[p1] == old_order[p1]);
                    } else if p1 == pos {
                        assert(order@[p1] == ci);
                    } else {
                        assert(order@[p1] == old_order[p1 - 1]);
                    }
                    if p2 < pos {
                        assert(order@[p2] == old_order[p2]);
                    } else if p2 == pos {
                        assert(order@[p2] == ci);
                    } else {
                        assert(order@[p2] == old_order[p2 - 1]);
                    }
                }
                assert forall|x: int|
                    0 <= x < ci + 1 && eligible(candidates@, w, x) implies order@.contains(
                    x as usize,
                ) by {
                    if x == ci {
                        assert(order@[pos as int] == ci);
                    } else {
                        assert(old_order.contains(x as usize));
                        let a = choose|a: int|
                            0 <= a < old_order.len() && old_order[a] == x as usize;
                        if a < pos {
                            assert(order@[a] == old_order[a]);
                        } else {
                            assert(order@[a + 1] == old_order[a]);
                        }
                    }
                }
            }
        } else {
            proof {
                assert(!eligible(candidates@, w, ci as int));
            }
        }
        ci = ci + 1;
    }
    // assemble the ranked recommendations
    let k = order.len();
    let mut out: Vec<Recommendation> = Vec::new();
    let mut t: usize = 0;
    while t < k
        invariant
            t <= k,
            k == order@.len(),
            sums@.len() == m,
            cnts@.len() == m,
            forall|a: int| 0 <= a < m ==> #[trigger] sums@[a] == opt_sum(w[a]),
            forall|a: int| 0 <= a < m ==> #[trigger] cnts@[a] == opt_cnt(w[a]),
            forall|p: int|
                0 <= p < k ==> (#[trigger] order@[p]) < m && eligible(
                    candidates@,
                    w,
                    order@[p] as int,
                ),
            out@.len() == t,
            forall|p: int|
                0 <= p < t ==> {
                    let oi = (#[trigger] out@[p]);
                    let cj = order@[p] as int;
                    &&& oi.video_id@ == candidates@[cj].video_id@
                    &&& oi.title@ == candidates@[cj].title->0@
                    &&& oi.weight_sum == opt_sum(w[cj])
                    &&& oi.edge_count == opt_cnt(w[cj])
                },
        decreases k - t,
    {
        let cj = order[t];
        let cand = &candidates[cj];
        let title: String;
        match &cand.title {
            Some(tt) => {
                title = tt.clone();
            },
            None => {
                // unreachable: every ordered position is eligible, so its
                // title is present
                proof {
                    assert(false);
                }
                title = String::new();
            },
        }
        let rec = Recommendation {
            video_id: cand.video_id.clone(),
            title,
            weight_sum: sums[cj],
            edge_count: cnts[cj],
        };
        out.push(rec);
        t = t + 1;
    }
    proof {
        let ghost sel = Seq::new(k as nat, |p: int| order@[p] as int);
        assert forall|x: int|
            0 <= x < candidates@.len() && eligible(candidates@, w, x) implies sel.contains(x) by {
            assert(order@.contains(x as usize));
            let p0 = choose|p0: int| 0 <= p0 < order@.len() && order@[p0] == x as usize;
            assert(sel[p0] == x);
        }
        assert(scored_selection(candidates@, w, sel, out@));
        assert forall|p1: int, p2: int|
            0 <= p1 < p2 < out@.len() implies (#[trigger] out@[p1]).weight_sum * (
        #[trigger] out@[p2]).edge_count >= out@[p2].weight_sum * out@[p1].edge_count by {
            assert(score_prec(w, sel[p1], sel[p2]));
            lemma_opt_nonneg(w[sel[p1]]);
            lemma_opt_nonneg(w[sel[p2]]);
        }
    }
    out
}

/// Keep only the first `limit` recommendations of an already ranked
/// list: truncation happens after sorting, never before.
pub fn take_limit(recs: Vec<Recommendation>, limit: usize) -> (r: Vec<Recommendation>)
    ensures
        r@ == if limit < recs@.len() {
            recs@.take(limit as int)
        } else {
            recs@
        },
{
    let mut r = recs;
    if limit < r.len() {
        r.truncate(limit);
    }
    r
}

/// The serving default of ten results, a caller-supplied positive limit,
/// or nothing for a non-positive one.
pub fn effective_limit(limit: Option<i32>) -> (r: usize)
    ensures
        limit is None ==> r == 10,
        limit matches Some(v) ==> r == if v >= 0 {
            v as int
        } else {
            0
        },
{
    match limit {
        Some(v) => {
            if v < 0 {
                0
            } else {
                v as usize
            }
        },
        None => 10,
    }
}

} // verus!
