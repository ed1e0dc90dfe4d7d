//! Relevance ranking: the additive clause weights a candidate earns for a
//! query, and the stable descending order of the scored candidates.

use vstd::prelude::*;
use vstd::string::StringSliceAdditionalSpecFns;
use crate::record::{AppInfo, AppInfoV, views_of, key_of, with_score, keys_ascending, take_at_most};
use crate::score::{
    Score, lemma_score_lt_trans, lemma_score_eqv_lt, lemma_score_trichotomy, lemma_score_base_gap,
};
use crate::text::{
    lower_of, seq_starts_with, seq_contains, chars_of, chars_eq, chars_starts_with, chars_contains,
    lowercase, lex_lt, lemma_eq_is_prefix, lemma_prefix_is_contained,
};
use crate::{WEIGHT_EXACT, WEIGHT_PREFIX, WEIGHT_CONTAINS, WEIGHT_PATH};

verus! {

/// Summed weights of the clauses a candidate matches for a lowercased query:
/// name equal, name prefix, name substring, path substring.  The clauses are
/// additive, not mutually exclusive.
pub open spec fn spec_base(name_l: Seq<char>, path_l: Seq<char>, q: Seq<char>) -> int {
    (if name_l == q {
        WEIGHT_EXACT as int
    } else {
        0
    }) + (if seq_starts_with(name_l, q) {
        WEIGHT_PREFIX as int
    } else {
        0
    }) + (if seq_contains(name_l, q) {
        WEIGHT_CONTAINS as int
    } else {
        0
    }) + (if seq_contains(path_l, q) {
        WEIGHT_PATH as int
    } else {
        0
    })
}

/// The score a record earns for a lowercased query.
pub open spec fn spec_score_of(r: AppInfoV, q: Seq<char>) -> Score {
    Score {
        base: spec_base(lower_of(r.name), lower_of(r.path), q) as u32,
        name_bytes: vstd::utf8::encode_utf8(r.name).len() as usize,
    }
}

/// Scores one candidate for a query the caller has already lowercased;
/// matching is case-insensitive against name and path.
pub fn calculate_relevance_score(name: &str, path: &str, query: &str) -> (s: Score)
    ensures
        s.base as int == spec_base(lower_of(name@), lower_of(path@), query@),
        s.name_bytes == name.spec_bytes().len() as usize,
{
    let nl_s = lowercase(name);
    let nl = chars_of(nl_s.as_str());
    let pl_s = lowercase(path);
    let pl = chars_of(pl_s.as_str());
    let q = chars_of(query);
    let mut base: u32 = 0;
    if chars_eq(&nl, &q) {
        base = base + WEIGHT_EXACT;
    }
    if chars_starts_with(&nl, &q) {
        base = base + WEIGHT_PREFIX;
    }
    if chars_contains(&nl, &q) {
        base = base + WEIGHT_CONTAINS;
    }
    if chars_contains(&pl, &q) {
        base = base + WEIGHT_PATH;
    }
    Score { base, name_bytes: name.len() }
}

/// A scored candidate together with its position in the index it came from.
pub struct Ranked {
    pub rec: AppInfo,
    pub pos: usize,
}

/// The mathematical content of a `Ranked`.
pub struct RankedV {
    pub rec: AppInfoV,
    pub pos: usize,
}

impl View for Ranked {
    type V = RankedV;

    open spec fn view(&self) -> RankedV {
        RankedV { rec: self.rec@, pos: self.pos }
    }
}

impl Clone for Ranked {
    fn clone(&self) -> (r: Self)
        ensures
            r == *self,
    {
        Ranked { rec: self.rec.clone(), pos: self.pos }
    }
}

/// The views of a sequence of scored candidates.
pub open spec fn ranked_views(s: Seq<Ranked>) -> Seq<RankedV> {
    Seq::new(s.len(), |i: int| s[i]@)
}

/// The positively scored candidates among the first `n` index records, in
/// index order, each carrying its score and position.
pub open spec fn spec_scored(index: Seq<AppInfoV>, q: Seq<char>, n: int) -> Seq<RankedV>
    decreases n,
{
    if n <= 0 || n > index.len() {
        Seq::empty()
    } else {
        let prev = spec_scored(index, q, n - 1);
        let sc = spec_score_of(index[n - 1], q);
        if sc.positive() {
            prev + seq![RankedV { rec: with_score(index[n - 1], sc), pos: (n - 1) as usize }]
        } else {
            prev
        }
    }
}

/// A scored candidate that comes out of the given index for the given query.
pub open spec fn from_index(y: RankedV, index: Seq<AppInfoV>, q: Seq<char>) -> bool {
    &&& y.pos < index.len()
    &&& y.rec == with_score(index[y.pos as int], spec_score_of(index[y.pos as int], q))
    &&& y.rec.score.positive()
}

/// Scored candidates stand in index order with positive scores, each being
/// its index record with its score.
proof fn lemma_scored_props(index: Seq<AppInfoV>, q: Seq<char>, n: int)
    requires
        n <= index.len(),
        index.len() <= usize::MAX,
    ensures
        ({
            let s = spec_scored(index, q, n);
            &&& forall|k: int| 0 <= k < s.len() ==> (#[trigger] s[k]).pos < n
            &&& forall|i: int, j: int|
                0 <= i < j < s.len() ==> (#[trigger] s[i]).pos < (#[trigger] s[j]).pos
            &&& forall|k: int| 0 <= k < s.len() ==> from_index(#[trigger] s[k], index, q)
        }),
    decreases n,
{
    if n > 0 {
        lemma_scored_props(index, q, n - 1);
        let prev = spec_scored(index, q, n - 1);
        let s = spec_scored(index, q, n);
        let sc = spec_score_of(index[n - 1], q);
        if sc.positive() {
            let e = RankedV { rec: with_score(index[n - 1], sc), pos: (n - 1) as usize };
            assert(s == prev + seq![e]);
            assert(forall|k: int| 0 <= k < prev.len() ==> #[trigger] s[k] == prev[k]);
            assert(s[s.len() - 1] == e);
            assert(from_index(e, index, q));
        } else {
            assert(s == prev);
        }
    }
}

/// `a` belongs strictly before `b` in a ranked result: its score is higher,
/// or the scores tie and `a` stood earlier in the index.
pub open spec fn comes_before(a: RankedV, b: RankedV) -> bool {
    b.rec.score.lt(a.rec.score) || (a.rec.score.eqv(b.rec.score) && a.pos < b.pos)
}

/// Every pair stands in ranked order.
pub open spec fn ranked_sorted(s: Seq<RankedV>) -> bool {
    forall|i: int, j: int| 0 <= i < j < s.len() ==> comes_before(#[trigger] s[i], #[trigger] s[j])
}

/// A scored candidate inserted after every candidate that does not score
/// strictly below it.
pub open spec fn spec_insert_ranked(s: Seq<RankedV>, x: RankedV) -> Seq<RankedV>
    decreases s.len(),
{
    if s.len() > 0 && !s[0].rec.score.lt(x.rec.score) {
        seq![s[0]] + spec_insert_ranked(s.drop_first(), x)
    } else {
        seq![x] + s
    }
}

/// The scored candidates in ranked order, inserting one after another in
/// index order.
pub open spec fn spec_rank_sort(s: Seq<RankedV>) -> Seq<RankedV>
    decreases s.len(),
{
    if s.len() == 0 {
        s
    } else {
        spec_insert_ranked(spec_rank_sort(s.drop_last()), s.last())
    }
}

/// Where the insertion scan stops is where the candidate lands.
proof fn lemma_insert_ranked_at(s: Seq<RankedV>, x: RankedV, pos: int)
    requires
        0 <= pos <= s.len(),
        forall|k: int| 0 <= k < pos ==> !(#[trigger] s[k]).rec.score.lt(x.rec.score),
        pos < s.len() ==> s[pos].rec.score.lt(x.rec.score),
    ensures
        spec_insert_ranked(s, x) == s.take(pos) + seq![x] + s.skip(pos),
    decreases pos,
{
    if pos == 0 {
        assert(spec_insert_ranked(s, x) =~= s.take(0) + seq![x] + s.skip(0));
    } else {
        let d = s.drop_first();
        assert(forall|k: int| 0 <= k < d.len() ==> #[trigger] d[k] == s[k + 1]);
        lemma_insert_ranked_at(d, x, pos - 1);
        assert(seq![s[0]] + (d.take(pos - 1) + seq![x] + d.skip(pos - 1)) =~= s.take(pos) + seq![x]
            + s.skip(pos));
    }
}

/// Inserting a candidate from later in the index keeps the ranked order and
/// adds exactly that candidate.
proof fn lemma_insert_ranked_props(s: Seq<RankedV>, x: RankedV)
    requires
        ranked_sorted(s),
        forall|k: int| 0 <= k < s.len() ==> (#[trigger] s[k]).pos < x.pos,
    ensures
        ({
            let t = spec_insert_ranked(s, x);
            &&& t.len() == s.len() + 1
            &&& ranked_sorted(t)
            &&& forall|y: RankedV| t.contains(y) == (s.contains(y) || y == x)
        }),
    decreases s.len(),
{
    let t = spec_insert_ranked(s, x);
    if s.len() > 0 && !s[0].rec.score.lt(x.rec.score) {
        let d = s.drop_first();
        assert(forall|k: int| 0 <= k < d.len() ==> #[trigger] d[k] == s[k + 1]);
        lemma_insert_ranked_props(d, x);
        let tail = spec_insert_ranked(d, x);
        assert(t == seq![s[0]] + tail);
        assert(t[0] == s[0]);
        assert(forall|i: int| 0 <= i < tail.len() ==> #[trigger] t[i + 1] == tail[i]);
        lemma_score_trichotomy(s[0].rec.score, x.rec.score);
        assert(comes_before(s[0], x));
        assert forall|i: int, j: int| 0 <= i < j < t.len() implies comes_before(
            #[trigger] t[i],
            #[trigger] t[j],
        ) by {
            if i == 0 {
                assert(t[j] == tail[j - 1]);
                assert(tail.contains(tail[j - 1]));
                if d.contains(tail[j - 1]) {
                    let w = choose|w: int| 0 <= w < d.len() && d[w] == tail[j - 1];
                    assert(s[w + 1] == tail[j - 1]);
                    assert(comes_before(s[0], s[w + 1]));
                } else {
                    assert(tail[j - 1] == x);
                }
            } else {
                assert(t[i] == tail[i - 1]);
                assert(t[j] == tail[j - 1]);
            }
        }
        assert forall|y: RankedV| t.contains(y) == (s.contains(y) || y == x) by {
            if t.contains(y) {
                let w = choose|w: int| 0 <= w < t.len() && t[w] == y;
                if w == 0 {
                    assert(s.contains(s[0]));
                } else {
                    assert(tail[w - 1] == y);
                    assert(tail.contains(y));
                    if d.contains(y) {
                        let v = choose|v: int| 0 <= v < d.len() && d[v] == y;
                        assert(s[v + 1] == y);
                        assert(s.contains(y));
                    }
                }
            }
            if s.contains(y) {
                let w = choose|w: int| 0 <= w < s.len() && s[w] == y;
                if w == 0 {
                    assert(t[0] == y);
                    assert(t.contains(y));
                } else {
                    assert(d[w - 1] == y);
                    assert(d.contains(y));
                    assert(tail.contains(y));
                    let v = choose|v: int| 0 <= v < tail.len() && tail[v] == y;
                    assert(t[v + 1] == y);
                    assert(t.contains(y));
                }
            }
            if y == x {
                assert(tail.contains(x));
                let v = choose|v: int| 0 <= v < tail.len() && tail[v] == y;
                assert(t[v + 1] == y);
                assert(t.contains(y));
            }
        }
    } else {
        assert(t == seq![x] + s);
        assert(t[0] == x);
        assert(forall|i: int| 0 <= i < s.len() ==> #[trigger] t[i + 1] == s[i]);
        assert forall|i: int, j: int| 0 <= i < j < t.len() implies comes_before(
            #[trigger] t[i],
            #[trigger] t[j],
        ) by {
            if i == 0 {
                assert(t[j] == s[j - 1]);
                assert(s[0].rec.score.lt(x.rec.score));
                if j - 1 > 0 {
                    assert(comes_before(s[0], s[j - 1]));
                    if s[j - 1].rec.score.lt(s[0].rec.score) {
                        lemma_score_lt_trans(s[j - 1].rec.score, s[0].rec.score, x.rec.score);
                    } else {
                        lemma_score_trichotomy(s[0].rec.score, s[j - 1].rec.score);
                        lemma_score_eqv_lt(s[j - 1].rec.score, s[0].rec.score, x.rec.score);
                    }
                }
            } else {
                assert(t[i] == s[i - 1]);
                assert(t[j] == s[j - 1]);
            }
        }
        assert forall|y: RankedV| t.contains(y) == (s.contains(y) || y == x) by {
            if t.contains(y) {
                let w = choose|w: int| 0 <= w < t.len() && t[w] == y;
                if w > 0 {
                    assert(s[w - 1] == y);
                    assert(s.contains(y));
                }
            }
            if s.contains(y) {
                let w = choose|w: int| 0 <= w < s.len() && s[w] == y;
                assert(t[w + 1] == y);
                assert(t.contains(y));
            }
            if y == x {
                assert(t[0] == y);
                assert(t.contains(y));
            }
        }
    }
}

/// Ranking candidates whose index positions ascend yields the same
/// candidates in ranked order.
proof fn lemma_rank_sort_props(s: Seq<RankedV>)
    requires
        forall|i: int, j: int|
            0 <= i < j < s.len() ==> (#[trigger] s[i]).pos < (#[trigger] s[j]).pos,
    ensures
        ({
            let t = spec_rank_sort(s);
            &&& t.len() == s.len()
            &&& ranked_sorted(t)
            &&& forall|y: RankedV| t.contains(y) == s.contains(y)
        }),
    decreases s.len(),
{
    let t = spec_rank_sort(s);
    if s.len() > 0 {
        let p = s.drop_last();
        assert(forall|i: int| 0 <= i < p.len() ==> #[trigger] p[i] == s[i]);
        lemma_rank_sort_props(p);
        let sp = spec_rank_sort(p);
        assert forall|k: int| 0 <= k < sp.len() implies (#[trigger] sp[k]).pos < s.last().pos by {
            assert(sp.contains(sp[k]));
            assert(p.contains(sp[k]));
            let w = choose|w: int| 0 <= w < p.len() && p[w] == sp[k];
            assert(s[w] == sp[k]);
            assert(s[w].pos < s[s.len() - 1].pos);
        }
        lemma_insert_ranked_props(sp, s.last());
        assert forall|y: RankedV| t.contains(y) == s.contains(y) by {
            if t.contains(y) {
                if sp.contains(y) {
                    assert(p.contains(y));
                    let w = choose|w: int| 0 <= w < p.len() && p[w] == y;
                    assert(s[w] == y);
                    assert(s.contains(y));
                } else {
                    assert(y == s.last());
                    assert(s.contains(s[s.len() - 1]));
                }
            }
            if s.contains(y) {
                let w = choose|w: int| 0 <= w < s.len() && s[w] == y;
                if w < s.len() - 1 {
                    assert(p[w] == y);
                    assert(p.contains(y));
                } else {
                    assert(y == s.last());
                }
            }
        }
    }
}

/// The records of a ranked sequence, in order.
pub open spec fn ranked_recs(s: Seq<RankedV>) -> Seq<AppInfoV> {
    Seq::new(s.len(), |i: int| s[i].rec)
}

/// The ranked result of a query against an index: every positively scoring
/// record with its score, in ranked order, cut to the limit.
pub open spec fn spec_rank(index: Seq<AppInfoV>, q: Seq<char>, limit: int) -> Seq<AppInfoV> {
    take_at_most(
        ranked_recs(spec_rank_sort(spec_scored(index, lower_of(q), index.len() as int))),
        limit,
    )
}

/// Ranks the records against a query: scores every record, keeps those with
/// positive score sorted falling by score, index order breaking ties, and
/// returns at most `limit` of them, scores filled in.  When the records'
/// keys ascend, tied neighbours stand in ascending name order.
pub fn rank_candidates(records: &Vec<AppInfo>, query: &str, limit: usize) -> (r: Vec<AppInfo>)
    ensures
        views_of(r@) == spec_rank(views_of(records@), query@, limit as int),
        r@.len() <= limit,
        forall|i: int| 0 <= i < r@.len() ==> (#[trigger] views_of(r@)[i]).score.positive(),
        forall|i: int, j: int|
            0 <= i < j < r@.len() ==> !(#[trigger] views_of(r@)[i]).score.lt(
                (#[trigger] views_of(r@)[j]).score,
            ),
        keys_ascending(views_of(records@)) ==> forall|i: int, j: int|
            0 <= i < j < r@.len() && (#[trigger] views_of(r@)[i]).score.eqv(
                (#[trigger] views_of(r@)[j]).score,
            ) ==> lex_lt(key_of(views_of(r@)[i]), key_of(views_of(r@)[j])),
{
    let ghost index = views_of(records@);
    let ql_s = lowercase(query);
    let ghost ql = lower_of(query@);
    let mut scored: Vec<Ranked> = Vec::new();
    let mut i: usize = 0;
    proof {
        assert(ranked_views(scored@) =~= spec_scored(index, ql, 0));
    }
    while i < records.len()
        invariant
            i <= records@.len(),
            index == views_of(records@),
            index.len() == records@.len(),
            ql_s@ == ql,
            ranked_views(scored@) == spec_scored(index, ql, i as int),
        decreases records@.len() - i,
    {
        let rec_ref = &records[i];
        let sc = calculate_relevance_score(
            rec_ref.name.as_str(),
            rec_ref.path.as_str(),
            ql_s.as_str(),
        );
        proof {
            assert(rec_ref@ == index[i as int]);
            assert(sc == spec_score_of(index[i as int], ql));
        }
        if sc.is_positive() {
            let mut rec = rec_ref.clone();
            rec.score = sc;
            proof {
                assert(rec@ == with_score(index[i as int], sc));
            }
            scored.push(Ranked { rec, pos: i });
            proof {
                assert(ranked_views(scored@) =~= spec_scored(index, ql, i as int) + seq![
                    RankedV { rec: with_score(index[i as int], sc), pos: i },
                ]);
            }
        }
        i = i + 1;
    }
    let ghost all_scored = spec_scored(index, ql, index.len() as int);
    proof {
        lemma_scored_props(index, ql, index.len() as int);
    }
    let mut out: Vec<Ranked> = Vec::new();
    let mut j: usize = 0;
    proof {
        assert(ranked_views(out@) =~= spec_rank_sort(all_scored.take(0)));
    }
    while j < scored.len()
        invariant
            j <= scored@.len(),
            all_scored == ranked_views(scored@),
            all_scored.len() == scored@.len(),
            forall|a: int, b: int|
                0 <= a < b < all_scored.len() ==> (#[trigger] all_scored[a]).pos < (
                #[trigger] all_scored[b]).pos,
            ranked_views(out@) == spec_rank_sort(all_scored.take(j as int)),
        decreases scored@.len() - j,
    {
        let ghost pre = ranked_views(out@);
        proof {
            assert(forall|a: int|
                0 <= a < j ==> (#[trigger] all_scored.take(j as int)[a]) == all_scored[a]);
            lemma_rank_sort_props(all_scored.take(j as int));
            let ghost xj = all_scored[j as int];
            assert forall|k: int| 0 <= k < pre.len() implies (#[trigger] pre[k]).pos < xj.pos by {
                assert(pre.contains(pre[k]));
                assert(all_scored.take(j as int).contains(pre[k]));
                let w = choose|w: int|
                    0 <= w < j && (#[trigger] all_scored.take(j as int)[w]) == pre[k];
                assert(all_scored[w].pos < all_scored[j as int].pos);
            }
        }
        let x = scored[j].clone();
        proof {
            assert(x@ == all_scored[j as int]);
        }
        let mut pos: usize = 0;
        while pos < out.len() && !out[pos].rec.score.ranks_below(&x.rec.score)
            invariant
                pos <= out@.len(),
                pre == ranked_views(out@),
                x@ == all_scored[j as int],
                forall|k: int|
                    0 <= k < pos ==> !(#[trigger] pre[k]).rec.score.lt(x@.rec.score),
                pos < out@.len() ==> out@[pos as int]@ == pre[pos as int],
            decreases out@.len() - pos,
        {
            pos = pos + 1;
        }
        proof {
            lemma_insert_ranked_at(pre, x@, pos as int);
            assert(all_scored.take(j + 1).drop_last() =~= all_scored.take(j as int));
            assert(all_scored.take(j + 1).last() == all_scored[j as int]);
        }
        out.insert(pos, x);
        proof {
            assert(ranked_views(out@) =~= pre.take(pos as int) + seq![all_scored[j as int]]
                + pre.skip(pos as int));
        }
        j = j + 1;
    }
    proof {
        assert(all_scored.take(all_scored.len() as int) =~= all_scored);
        lemma_rank_sort_props(all_scored);
    }
    let ghost sorted = spec_rank_sort(all_scored);
    let n = if limit < out.len() {
        limit
    } else {
        out.len()
    };
    let mut result: Vec<AppInfo> = Vec::new();
    let mut k: usize = 0;
    while k < n
        invariant
            k <= n,
            n <= out@.len(),
            n <= limit,
            sorted == ranked_views(out@),
            sorted.len() == out@.len(),
            views_of(result@) == ranked_recs(sorted).take(k as int),
            result@.len() == k,
        decreases n - k,
    {
        let rec = out[k].rec.clone();
        proof {
            assert(rec@ == sorted[k as int].rec);
        }
        result.push(rec);
        proof {
            assert(views_of(result@) =~= ranked_recs(sorted).take(k + 1));
        }
        k = k + 1;
    }
    proof {
        assert(views_of(result@) =~= take_at_most(ranked_recs(sorted), limit as int));
        assert forall|a: int| 0 <= a < result@.len() implies (
        #[trigger] views_of(result@)[a]).score.positive() by {
            assert(views_of(result@)[a] == sorted[a].rec);
            assert(sorted.contains(sorted[a]));
            assert(all_scored.contains(sorted[a]));
            let w = choose|w: int| 0 <= w < all_scored.len() && all_scored[w] == sorted[a];
            assert(from_index(all_scored[w], index, ql));
        }
        assert forall|a: int, b: int| 0 <= a < b < result@.len() implies !(
        #[trigger] views_of(result@)[a]).score.lt((#[trigger] views_of(result@)[b]).score) by {
            assert(comes_before(sorted[a], sorted[b]));
            lemma_score_trichotomy(sorted[a].rec.score, sorted[b].rec.score);
        }
        if keys_ascending(index) {
            assert forall|a: int, b: int|
                0 <= a < b < result@.len() && (#[trigger] views_of(result@)[a]).score.eqv(
                    (#[trigger] views_of(result@)[b]).score,
                ) implies lex_lt(key_of(views_of(result@)[a]), key_of(views_of(result@)[b])) by {
                assert(comes_before(sorted[a], sorted[b]));
                lemma_score_trichotomy(sorted[b].rec.score, sorted[a].rec.score);
                assert(sorted[a].pos < sorted[b].pos);
                assert(sorted.contains(sorted[a]));
                assert(all_scored.contains(sorted[a]));
                let wa = choose|w: int| 0 <= w < all_scored.len() && all_scored[w] == sorted[a];
                assert(from_index(all_scored[wa], index, ql));
                assert(sorted.contains(sorted[b]));
                assert(all_scored.contains(sorted[b]));
                let wb = choose|w: int| 0 <= w < all_scored.len() && all_scored[w] == sorted[b];
                assert(from_index(all_scored[wb], index, ql));
                assert(key_of(sorted[a].rec) == key_of(index[sorted[a].pos as int]));
                assert(key_of(sorted[b].rec) == key_of(index[sorted[b].pos as int]));
            }
        }
    }
    result
}

/// An exact name match always outranks a prefix-only match, which always
/// outranks a substring-only match, for the same query, whatever the paths
/// add.
pub proof fn lemma_match_tiers(exact: AppInfoV, prefix: AppInfoV, sub: AppInfoV, q: Seq<char>)
    requires
        lower_of(exact.name) == q,
        seq_starts_with(lower_of(prefix.name), q),
        lower_of(prefix.name) != q,
        seq_contains(lower_of(sub.name), q),
        !seq_starts_with(lower_of(sub.name), q),
    ensures
        spec_score_of(prefix, q).lt(spec_score_of(exact, q)),
        spec_score_of(sub, q).lt(spec_score_of(prefix, q)),
{
    lemma_eq_is_prefix(q);
    lemma_prefix_is_contained(lower_of(exact.name), q);
    lemma_prefix_is_contained(lower_of(prefix.name), q);
    assert(spec_base(lower_of(exact.name), lower_of(exact.path), q) >= 175);
    assert(spec_base(lower_of(prefix.name), lower_of(prefix.path), q) <= 85);
    assert(spec_base(lower_of(prefix.name), lower_of(prefix.path), q) >= 75);
    if lower_of(sub.name) == q {
        lemma_eq_is_prefix(q);
        assert(false);
    }
    assert(spec_base(lower_of(sub.name), lower_of(sub.path), q) <= 35);
    assert(spec_base(lower_of(sub.name), lower_of(sub.path), q) >= 25);
    lemma_score_base_gap(spec_score_of(exact, q), spec_score_of(prefix, q));
    lemma_score_base_gap(spec_score_of(prefix, q), spec_score_of(sub, q));
}

} // verus!
