//! Ranking of the free-text keywords submitted with votes: the distinct
//! keywords of votes for a chosen set of candidates, most frequent first,
//! ties broken by first occurrence, cut off at a caller-given length.

use vstd::pervasive::VecAdditionalExecFns;
use vstd::prelude::*;

use crate::model::{
    distinct_keywords, keyword_before, keyword_count, keyword_rank, output_contains, top_len,
    vote_selected, Vote,
};

verus! {

/// Unfolds `keyword_count` over a push, for every keyword at once.
pub proof fn lemma_keyword_count_push(s: Seq<Vote>, v: Vote, ids: Seq<u64>)
    ensures
        forall|kw: Seq<char>| #[trigger] keyword_count(s.push(v), ids, kw) == keyword_count(
            s,
            ids,
            kw,
        ) + (if vote_selected(v, ids) && v.keyword@ == kw {
            1nat
        } else {
            0nat
        }),
{
    assert(s.push(v).drop_last() =~= s);
}

/// Unfolds `distinct_keywords` over a push.
pub proof fn lemma_distinct_keywords_push(s: Seq<Vote>, v: Vote, ids: Seq<u64>)
    ensures
        distinct_keywords(s.push(v), ids) == if vote_selected(v, ids) && !distinct_keywords(
            s,
            ids,
        ).contains(v.keyword@) {
            distinct_keywords(s, ids).push(v.keyword@)
        } else {
            distinct_keywords(s, ids)
        },
{
    assert(s.push(v).drop_last() =~= s);
}

/// A keyword occurs no more often than there are votes.
pub proof fn lemma_keyword_count_le_len(s: Seq<Vote>, ids: Seq<u64>, kw: Seq<char>)
    ensures
        keyword_count(s, ids, kw) <= s.len(),
    decreases s.len(),
{
    if s.len() > 0 {
        lemma_keyword_count_le_len(s.drop_last(), ids, kw);
    }
}

/// A keyword is among the distinct keywords exactly when some vote for a
/// selected candidate carries it.
pub proof fn lemma_distinct_iff_counted(s: Seq<Vote>, ids: Seq<u64>, kw: Seq<char>)
    ensures
        distinct_keywords(s, ids).contains(kw) <==> keyword_count(s, ids, kw) >= 1,
    decreases s.len(),
{
    if s.len() > 0 {
        lemma_distinct_iff_counted(s.drop_last(), ids, kw);
        let rest = distinct_keywords(s.drop_last(), ids);
        let v = s.last();
        if vote_selected(v, ids) && !rest.contains(v.keyword@) {
            assert(rest.push(v.keyword@)[rest.len() as int] == v.keyword@);
            assert forall|y: Seq<char>| #[trigger] rest.push(v.keyword@).contains(y) implies
                rest.contains(y) || y == v.keyword@ by {
                let q = choose|q: int|
                    0 <= q < rest.push(v.keyword@).len() && rest.push(v.keyword@)[q] == y;
                if q < rest.len() {
                    assert(rest[q] == y);
                }
            }
            assert forall|y: Seq<char>| rest.contains(y) implies #[trigger] rest.push(
                v.keyword@,
            ).contains(y) by {
                let q = choose|q: int| 0 <= q < rest.len() && rest[q] == y;
                assert(rest.push(v.keyword@)[q] == y);
            }
        }
    }
}

/// The distinct keywords are pairwise distinct.
pub proof fn lemma_distinct_keywords_distinct(s: Seq<Vote>, ids: Seq<u64>)
    ensures
        forall|p: int, q: int|
            0 <= p < q < distinct_keywords(s, ids).len() ==> distinct_keywords(s, ids)[p]
                != distinct_keywords(s, ids)[q],
    decreases s.len(),
{
    if s.len() > 0 {
        lemma_distinct_keywords_distinct(s.drop_last(), ids);
        let rest = distinct_keywords(s.drop_last(), ids);
        let v = s.last();
        if vote_selected(v, ids) && !rest.contains(v.keyword@) {
            assert forall|p: int, q: int|
                0 <= p < q < rest.push(v.keyword@).len() implies rest.push(v.keyword@)[p]
                != rest.push(v.keyword@)[q] by {
                if q == rest.len() {
                    assert(rest[p] == rest.push(v.keyword@)[p]);
                    assert(rest.contains(rest[p]));
                }
            }
        }
    }
}

/// With no candidate selected, no keyword is collected.
pub proof fn lemma_no_ids_no_keywords(s: Seq<Vote>, ids: Seq<u64>)
    requires
        ids.len() == 0,
    ensures
        distinct_keywords(s, ids).len() == 0,
    decreases s.len(),
{
    if s.len() > 0 {
        lemma_no_ids_no_keywords(s.drop_last(), ids);
    }
}

/// In a sequence of pairwise distinct values, `index_of` returns the one
/// index that holds the value.
pub proof fn lemma_index_of_distinct<T>(s: Seq<T>, j: int)
    requires
        0 <= j < s.len(),
        forall|p: int, q: int| 0 <= p < q < s.len() ==> s[p] != s[q],
    ensures
        s.index_of(s[j]) == j,
{
    assert(s.contains(s[j]));
    let i = s.index_of(s[j]);
    assert(0 <= i < s.len() && s[i] == s[j]);
}

/// One keyword with its occurrence count among the selected votes and its
/// position in the first-occurrence order.
struct KeywordTally {
    keyword: String,
    count: u64,
    rank: usize,
}

impl Clone for KeywordTally {
    fn clone(&self) -> (t: Self)
        ensures
            t == *self,
    {
        KeywordTally { keyword: self.keyword.clone(), count: self.count, rank: self.rank }
    }
}

/// Strict ranking order of two tally entries: higher counts first, ties
/// broken by first occurrence.
spec fn tally_before(a: KeywordTally, b: KeywordTally) -> bool {
    a.count > b.count || (a.count == b.count && a.rank < b.rank)
}

/// The sequence is ordered by `tally_before`.
spec fn tallies_sorted(s: Seq<KeywordTally>) -> bool {
    forall|p: int, q: int| 0 <= p < q < s.len() ==> !tally_before(#[trigger] s[q], #[trigger] s[p])
}

/// Inserting an entry at the position its order key selects keeps the
/// sequence sorted.
proof fn lemma_tally_sorted_insert(s: Seq<KeywordTally>, pos: int, x: KeywordTally)
    requires
        tallies_sorted(s),
        0 <= pos <= s.len(),
        forall|j: int| 0 <= j < pos ==> tally_before(#[trigger] s[j], x),
        pos < s.len() ==> !tally_before(s[pos], x),
    ensures
        tallies_sorted(s.insert(pos, x)),
{
    s.insert_ensures(pos, x);
    let t = s.insert(pos, x);
    assert forall|i: int, j: int| 0 <= i < j < t.len() implies !tally_before(
        #[trigger] t[j],
        #[trigger] t[i],
    ) by {
        if i < pos {
            assert(t[i] == s[i]);
        } else if i > pos {
            assert(t[i] == s[i - 1]);
        }
        if j < pos {
            assert(t[j] == s[j]);
        } else if j > pos {
            assert(t[j] == s[j - 1]);
        }
    }
}

/// Decides membership of an identifier in the selected set.
fn ids_contain(ids: &Vec<u64>, x: u64) -> (b: bool)
    ensures
        b == ids@.contains(x),
{
    let mut i: usize = 0;
    while i < ids.len()
        invariant
            0 <= i <= ids@.len(),
            forall|j: int| 0 <= j < i ==> ids@[j] != x,
        decreases ids@.len() - i,
    {
        if ids[i] == x {
            return true;
        }
        i = i + 1;
    }
    false
}

/// Finds the tally entry that carries the keyword, if one does.
fn find_tally(ts: &Vec<KeywordTally>, kw: &String) -> (r: Option<usize>)
    ensures
        match r {
            Some(j) => j < ts@.len() && ts@[j as int].keyword@ == kw@,
            None => forall|q: int| 0 <= q < ts@.len() ==> (#[trigger] ts@[q].keyword@) != kw@,
        },
{
    let mut j: usize = 0;
    while j < ts.len()
        invariant
            0 <= j <= ts@.len(),
            forall|q: int| 0 <= q < j ==> (#[trigger] ts@[q].keyword@) != kw@,
        decreases ts@.len() - j,
    {
        if ts[j].keyword == *kw {
            return Some(j);
        }
        j = j + 1;
    }
    None
}

/// What a tally vector says about a vote log: one entry per distinct
/// keyword of the selected votes, in first-occurrence order, each with its
/// position and its occurrence count.
spec fn tallies_describe(ts: Seq<KeywordTally>, vs: Seq<Vote>, ids: Seq<u64>) -> bool {
    let d = distinct_keywords(vs, ids);
    &&& ts.len() == d.len()
    &&& forall|j: int| 0 <= j < ts.len() ==> (#[trigger] ts[j].keyword@) == d[j]
    &&& forall|j: int| 0 <= j < ts.len() ==> (#[trigger] ts[j].rank) == j
    &&& forall|j: int| 0 <= j < ts.len() ==> (#[trigger] ts[j].count) == keyword_count(
        vs,
        ids,
        ts[j].keyword@,
    )
}

/// Folds the selected votes into one tally entry per distinct keyword, in
/// first-occurrence order.
fn build_tallies(votes: &Vec<Vote>, ids: &Vec<u64>) -> (ts: Vec<KeywordTally>)
    ensures
        tallies_describe(ts@, votes@, ids@),
{
    let mut ts: Vec<KeywordTally> = Vec::new();
    let mut i: usize = 0;
    while i < votes.len()
        invariant
            0 <= i <= votes@.len(),
            tallies_describe(ts@, votes@.subrange(0, i as int), ids@),
        decreases votes@.len() - i,
    {
        let ghost prefix = votes@.subrange(0, i as int);
        let ghost d = distinct_keywords(prefix, ids@);
        proof {
            lemma_take_push_votes(votes@, i as int);
            lemma_keyword_count_push(prefix, votes@[i as int], ids@);
            lemma_distinct_keywords_push(prefix, votes@[i as int], ids@);
            lemma_distinct_keywords_distinct(prefix, ids@);
        }
        if ids_contain(ids, votes[i].candidate_id) {
            if let Some(j) = find_tally(&ts, &votes[i].keyword) {
                proof {
                    lemma_keyword_count_le_len(prefix, ids@, ts@[j as int].keyword@);
                    assert(d.contains(d[j as int]));
                }
                let kw = ts[j].keyword.clone();
                let c = ts[j].count;
                let rk = ts[j].rank;
                ts.set(j, KeywordTally { keyword: kw, count: c + 1, rank: rk });
            } else {
                proof {
                    let ghost vkw = votes@[i as int].keyword@;
                    assert forall|q: int| 0 <= q < d.len() implies d[q] != vkw by {
                        assert(ts@[q].keyword@ == d[q]);
                    }
                    if d.contains(votes@[i as int].keyword@) {
                        let q = choose|q: int|
                            0 <= q < d.len() && d[q] == votes@[i as int].keyword@;
                        assert(false);
                    }
                    lemma_distinct_iff_counted(prefix, ids@, votes@[i as int].keyword@);
                }
                let kw = votes[i].keyword.clone();
                let rk = ts.len();
                ts.push(KeywordTally { keyword: kw, count: 1, rank: rk });
            }
        }
        i = i + 1;
    }
    proof {
        assert(votes@.subrange(0, votes@.len() as int) =~= votes@);
    }
    ts
}

/// Taking one more vote appends it to the prefix.
proof fn lemma_take_push_votes(s: Seq<Vote>, i: int)
    requires
        0 <= i < s.len(),
    ensures
        s.subrange(0, i + 1) == s.subrange(0, i).push(s[i]),
{
    assert(s.subrange(0, i + 1) =~= s.subrange(0, i).push(s[i]));
}

/// Decides the strict ranking order of two tally entries.
fn tally_comes_before(a: &KeywordTally, b: &KeywordTally) -> (r: bool)
    ensures
        r == tally_before(*a, *b),
{
    a.count > b.count || (a.count == b.count && a.rank < b.rank)
}

/// Sorts the tally entries by `tally_before`, assuming (as `build_tallies`
/// guarantees) that positions in the vector equal the stored ranks.
fn sort_tallies(ts: &Vec<KeywordTally>) -> (s: Vec<KeywordTally>)
    requires
        forall|j: int| 0 <= j < ts@.len() ==> (#[trigger] ts@[j].rank) == j,
    ensures
        s@.len() == ts@.len(),
        forall|p: int|
            0 <= p < s@.len() ==> (#[trigger] s@[p].rank) < ts@.len() && s@[p] == ts@[s@[p].rank as int],
        forall|j: int| 0 <= j < ts@.len() ==> s@.contains(#[trigger] ts@[j]),
        tallies_sorted(s@),
        forall|p: int, q: int| 0 <= p < q < s@.len() ==> (#[trigger] s@[p].rank) != (
        #[trigger] s@[q].rank),
{
    let mut s: Vec<KeywordTally> = Vec::new();
    let mut t: usize = 0;
    while t < ts.len()
        invariant
            0 <= t <= ts@.len(),
            forall|j: int| 0 <= j < ts@.len() ==> (#[trigger] ts@[j].rank) == j,
            s@.len() == t,
            forall|p: int|
                0 <= p < s@.len() ==> (#[trigger] s@[p].rank) < t && s@[p] == ts@[s@[p].rank as int],
            forall|j: int| 0 <= j < t ==> s@.contains(#[trigger] ts@[j]),
            tallies_sorted(s@),
            forall|p: int, q: int| 0 <= p < q < s@.len() ==> (#[trigger] s@[p].rank) != (
            #[trigger] s@[q].rank),
        decreases ts@.len() - t,
    {
        let cur = ts[t].clone();
        let mut pos: usize = 0;
        while pos < s.len() && tally_comes_before(&s[pos], &cur)
            invariant
                0 <= pos <= s@.len(),
                forall|j: int| 0 <= j < pos ==> tally_before(#[trigger] s@[j], cur),
            decreases s@.len() - pos,
        {
            pos = pos + 1;
        }
        let ghost pre = s@;
        proof {
            lemma_tally_sorted_insert(pre, pos as int, cur);
            crate::tally::lemma_insert_contains(pre, pos as int, cur);
            pre.insert_ensures(pos as int, cur);
        }
        s.insert(pos, cur);
        assert forall|p: int|
            0 <= p < s@.len() implies (#[trigger] s@[p].rank) < t + 1 && s@[p] == ts@[s@[p].rank as int] by {
            if p < pos {
                assert(s@[p] == pre[p]);
            } else if p > pos {
                assert(s@[(p - 1) + 1] == pre[p - 1]);
            } else {
                assert(s@[p] == ts@[t as int]);
            }
        }
        assert forall|p: int, q: int| 0 <= p < q < s@.len() implies (#[trigger] s@[p].rank) != (
        #[trigger] s@[q].rank) by {
            if p < pos {
                assert(s@[p] == pre[p]);
            } else if p > pos {
                assert(s@[(p - 1) + 1] == pre[p - 1]);
            }
            if q < pos {
                assert(s@[q] == pre[q]);
            } else if q > pos {
                assert(s@[(q - 1) + 1] == pre[q - 1]);
            }
        }
        t = t + 1;
    }
    s
}

/// Up to `k` distinct keywords of votes cast for the given candidates,
/// most frequent first, ties broken by first occurrence in the vote log.
/// An empty candidate set yields an empty ranking outright.
pub fn top_keywords(votes: &Vec<Vote>, candidate_ids: &Vec<u64>, k: usize) -> (r: Vec<String>)
    ensures
        r@.len() == top_len(distinct_keywords(votes@, candidate_ids@).len(), k as nat),
        r@.len() <= k,
        candidate_ids@.len() == 0 ==> r@.len() == 0,
        forall|p: int| 0 <= p < r@.len() ==> distinct_keywords(votes@, candidate_ids@).contains(
            #[trigger] r@[p]@,
        ),
        forall|p: int, q: int| 0 <= p < q < r@.len() ==> r@[p]@ != r@[q]@,
        forall|p: int, q: int| 0 <= p < q < r@.len() ==> !keyword_before(
            votes@,
            candidate_ids@,
            #[trigger] r@[q]@,
            #[trigger] r@[p]@,
        ),
        forall|p: int, kw: Seq<char>|
            0 <= p < r@.len() && distinct_keywords(votes@, candidate_ids@).contains(kw)
                && !output_contains(r@, kw) ==> !(#[trigger] keyword_before(
                votes@,
                candidate_ids@,
                kw,
                r@[p]@,
            )),
{
    let ghost d = distinct_keywords(votes@, candidate_ids@);
    proof {
        lemma_distinct_keywords_distinct(votes@, candidate_ids@);
    }
    if candidate_ids.is_empty() {
        proof {
            lemma_no_ids_no_keywords(votes@, candidate_ids@);
        }
        return Vec::new();
    }
    let ts = build_tallies(votes, candidate_ids);
    let sorted = sort_tallies(&ts);
    let limit = if k < sorted.len() {
        k
    } else {
        sorted.len()
    };
    let mut r: Vec<String> = Vec::new();
    let mut p: usize = 0;
    while p < limit
        invariant
            0 <= p <= limit,
            limit <= sorted@.len(),
            r@.len() == p,
            forall|q: int| 0 <= q < p ==> (#[trigger] r@[q]@) == sorted@[q].keyword@,
        decreases limit - p,
    {
        r.push(sorted[p].keyword.clone());
        p = p + 1;
    }
    proof {
        lemma_top_keywords_shape(votes@, candidate_ids@, ts@, sorted@, r@, k as nat);
    }
    r
}

/// Carries the facts about the sorted tally vector over to the returned
/// keyword strings.
proof fn lemma_top_keywords_shape(
    vs: Seq<Vote>,
    ids: Seq<u64>,
    ts: Seq<KeywordTally>,
    sorted: Seq<KeywordTally>,
    r: Seq<String>,
    k: nat,
)
    requires
        tallies_describe(ts, vs, ids),
        sorted.len() == ts.len(),
        forall|p: int|
            0 <= p < sorted.len() ==> (#[trigger] sorted[p].rank) < ts.len() && sorted[p]
                == ts[sorted[p].rank as int],
        forall|j: int| 0 <= j < ts.len() ==> sorted.contains(#[trigger] ts[j]),
        tallies_sorted(sorted),
        forall|p: int, q: int| 0 <= p < q < sorted.len() ==> (#[trigger] sorted[p].rank) != (
        #[trigger] sorted[q].rank),
        r.len() == top_len(distinct_keywords(vs, ids).len(), k),
        forall|q: int| 0 <= q < r.len() ==> (#[trigger] r[q]@) == sorted[q].keyword@,
        r.len() <= sorted.len(),
    ensures
        forall|p: int| 0 <= p < r.len() ==> distinct_keywords(vs, ids).contains(#[trigger] r[p]@),
        forall|p: int, q: int| 0 <= p < q < r.len() ==> r[p]@ != r[q]@,
        forall|p: int, q: int| 0 <= p < q < r.len() ==> !keyword_before(
            vs,
            ids,
            #[trigger] r[q]@,
            #[trigger] r[p]@,
        ),
        forall|p: int, kw: Seq<char>|
            0 <= p < r.len() && distinct_keywords(vs, ids).contains(kw) && !output_contains(r, kw)
                ==> !(#[trigger] keyword_before(vs, ids, kw, r[p]@)),
{
    let d = distinct_keywords(vs, ids);
    lemma_distinct_keywords_distinct(vs, ids);
    // Each sorted entry is a tally entry: its keyword is the distinct
    // keyword at its rank, and its count is that keyword's count.
    assert forall|p: int| 0 <= p < sorted.len() implies {
        &&& 0 <= (#[trigger] sorted[p].rank) < d.len()
        &&& sorted[p].keyword@ == d[sorted[p].rank as int]
        &&& sorted[p].count == keyword_count(vs, ids, sorted[p].keyword@)
        &&& keyword_rank(vs, ids, sorted[p].keyword@) == sorted[p].rank
    } by {
        let j = sorted[p].rank as int;
        assert(sorted[p] == ts[j]);
        assert(ts[j].rank == j);
        assert(ts[j].keyword@ == d[j]);
        lemma_index_of_distinct(d, j);
    }
    assert forall|p: int| 0 <= p < r.len() implies d.contains(#[trigger] r[p]@) by {
        assert(r[p]@ == d[sorted[p].rank as int]);
    }
    assert forall|p: int, q: int| 0 <= p < q < r.len() implies r[p]@ != r[q]@ by {
        assert(r[p]@ == d[sorted[p].rank as int]);
        assert(r[q]@ == d[sorted[q].rank as int]);
    }
    assert forall|p: int, q: int| 0 <= p < q < r.len() implies !keyword_before(
        vs,
        ids,
        #[trigger] r[q]@,
        #[trigger] r[p]@,
    ) by {
        assert(sorted[p].rank < d.len());
        assert(sorted[q].rank < d.len());
        assert(!tally_before(sorted[q], sorted[p]));
    }
    assert forall|p: int, kw: Seq<char>|
        0 <= p < r.len() && d.contains(kw) && !output_contains(r, kw) implies !(
    #[trigger] keyword_before(vs, ids, kw, r[p]@)) by {
        assert(sorted[p].rank < d.len());
        let j = choose|j: int| 0 <= j < d.len() && d[j] == kw;
        assert(ts[j].keyword@ == kw);
        assert(sorted.contains(ts[j]));
        let q = choose|q: int| 0 <= q < sorted.len() && sorted[q] == ts[j];
        if q < r.len() {
            assert(r[q]@ == kw);
            assert(output_contains(r, kw));
        }
        assert(q >= r.len());
        if q > p {
            assert(!tally_before(sorted[q], sorted[p]));
        }
        lemma_index_of_distinct(d, j);
        assert(keyword_rank(vs, ids, kw) == j);
        assert(keyword_count(vs, ids, kw) == ts[j].count);
    }
}

} // verus!
