//! Laws of the aggregation: properties that relate the operations to one
//! another, stated over the same spec functions their contracts use.

use vstd::prelude::*;

use crate::keywords::lemma_distinct_iff_counted;
use crate::model::{
    distinct_keywords, election_results_of, filter_party, keyword_count, party_total,
    result_before, result_for, results_sorted, sum_counts, vote_count_for, Candidate,
    ElectionResult, Vote,
};

verus! {

/// In any election result sequence, a candidate's count is absent exactly
/// when it has no votes, and every row with an absent count stands after
/// every row with a present count.
pub proof fn lemma_absent_counts_last(cs: Seq<Candidate>, vs: Seq<Vote>, rs: Seq<ElectionResult>)
    requires
        election_results_of(cs, vs, rs),
    ensures
        forall|p: int|
            0 <= p < rs.len() ==> ((#[trigger] rs[p].count) is None <==> vote_count_for(
                vs,
                rs[p].id,
            ) == 0),
        forall|p: int, q: int|
            0 <= p < rs.len() && 0 <= q < rs.len() && (#[trigger] rs[p].count) is None && (
            #[trigger] rs[q].count) is Some ==> q < p,
{
    assert forall|p: int|
        0 <= p < rs.len() implies ((#[trigger] rs[p].count) is None <==> vote_count_for(
        vs,
        rs[p].id,
    ) == 0) by {
        let j = choose|j: int| 0 <= j < cs.len() && rs[p] == result_for(cs[j], vs);
        assert(rs[p].id == cs[j].id);
    }
    assert forall|p: int, q: int|
        0 <= p < rs.len() && 0 <= q < rs.len() && (#[trigger] rs[p].count) is None && (
    #[trigger] rs[q].count) is Some implies q < p by {
        if p < q {
            assert(result_before(rs[q], rs[p]));
        }
        if p == q {
            assert(false);
        }
    }
}

/// After a reset of the vote log, every candidate's count is absent.
pub proof fn lemma_results_after_reset(cs: Seq<Candidate>, rs: Seq<ElectionResult>)
    requires
        election_results_of(cs, Seq::<Vote>::empty(), rs),
    ensures
        forall|p: int| 0 <= p < rs.len() ==> (#[trigger] rs[p].count) is None,
{
    assert forall|p: int| 0 <= p < rs.len() implies (#[trigger] rs[p].count) is None by {
        let j = choose|j: int|
            0 <= j < cs.len() && rs[p] == result_for(cs[j], Seq::<Vote>::empty());
        assert(vote_count_for(Seq::<Vote>::empty(), cs[j].id) == 0);
    }
}

/// A party's total equals the sum of the counts over the rows the party
/// filter keeps.
pub proof fn lemma_party_total_is_filtered_sum(s: Seq<ElectionResult>, party: Seq<char>)
    ensures
        party_total(s, party) == sum_counts(filter_party(s, party)),
    decreases s.len(),
{
    if s.len() > 0 {
        lemma_party_total_is_filtered_sum(s.drop_last(), party);
        let rest = filter_party(s.drop_last(), party);
        if s.last().political_party@ == party {
            assert(rest.push(s.last()).drop_last() =~= rest);
        }
    }
}

/// A party with no matching rows totals zero.
pub proof fn lemma_party_without_rows_zero(s: Seq<ElectionResult>, party: Seq<char>)
    requires
        forall|i: int| 0 <= i < s.len() ==> (#[trigger] s[i].political_party@) != party,
    ensures
        party_total(s, party) == 0,
    decreases s.len(),
{
    if s.len() > 0 {
        assert forall|i: int|
            0 <= i < s.drop_last().len() implies (#[trigger] s.drop_last()[i].political_party@)
            != party by {
            assert(s.drop_last()[i] == s[i]);
        }
        lemma_party_without_rows_zero(s.drop_last(), party);
    }
}

/// A party of which no candidate is seeded totals zero in any election
/// result sequence of the roster.
pub proof fn lemma_party_without_candidates_zero(
    cs: Seq<Candidate>,
    vs: Seq<Vote>,
    rs: Seq<ElectionResult>,
    party: Seq<char>,
)
    requires
        election_results_of(cs, vs, rs),
        forall|j: int| 0 <= j < cs.len() ==> (#[trigger] cs[j].political_party@) != party,
    ensures
        party_total(rs, party) == 0,
{
    assert forall|i: int|
        0 <= i < rs.len() implies (#[trigger] rs[i].political_party@) != party by {
        let j = choose|j: int| 0 <= j < cs.len() && rs[i] == result_for(cs[j], vs);
        assert(rs[i].political_party == cs[j].political_party);
    }
    lemma_party_without_rows_zero(rs, party);
}

/// Whatever the party filter keeps was a row of its input.
pub proof fn lemma_filter_party_subset(s: Seq<ElectionResult>, party: Seq<char>)
    ensures
        forall|x: ElectionResult| #[trigger] filter_party(s, party).contains(x) ==> s.contains(x),
    decreases s.len(),
{
    if s.len() > 0 {
        lemma_filter_party_subset(s.drop_last(), party);
        let rest = filter_party(s.drop_last(), party);
        let f = filter_party(s, party);
        assert forall|x: ElectionResult| #[trigger] f.contains(x) implies s.contains(x) by {
            let q = choose|q: int| 0 <= q < f.len() && f[q] == x;
            if s.last().political_party@ == party && q == rest.len() {
                assert(s[s.len() - 1] == x);
            } else {
                assert(rest[q] == x);
                assert(rest.contains(x));
                let w = choose|w: int| 0 <= w < s.drop_last().len() && s.drop_last()[w] == x;
                assert(s[w] == x);
            }
        }
    }
}

/// The party filter keeps the count-descending order of its input.
pub proof fn lemma_filter_party_keeps_order(s: Seq<ElectionResult>, party: Seq<char>)
    requires
        results_sorted(s),
    ensures
        results_sorted(filter_party(s, party)),
    decreases s.len(),
{
    if s.len() > 0 {
        let d = s.drop_last();
        assert forall|i: int, j: int| 0 <= i < j < d.len() implies !result_before(
            #[trigger] d[j],
            #[trigger] d[i],
        ) by {
            assert(d[i] == s[i] && d[j] == s[j]);
        }
        lemma_filter_party_keeps_order(d, party);
        lemma_filter_party_subset(d, party);
        let rest = filter_party(d, party);
        let f = filter_party(s, party);
        if s.last().political_party@ == party {
            assert forall|i: int, j: int| 0 <= i < j < f.len() implies !result_before(
                #[trigger] f[j],
                #[trigger] f[i],
            ) by {
                if j == rest.len() {
                    assert(f[i] == rest[i]);
                    assert(rest.contains(rest[i]));
                    assert(d.contains(f[i]));
                    let w = choose|w: int| 0 <= w < d.len() && d[w] == f[i];
                    assert(s[w] == f[i]);
                    assert(!result_before(s[s.len() - 1], s[w]));
                } else {
                    assert(f[i] == rest[i] && f[j] == rest[j]);
                }
            }
        }
    }
}

/// Every keyword the ranking can return is carried by at least one vote
/// for one of the selected candidates.
pub proof fn lemma_ranked_keyword_has_vote(vs: Seq<Vote>, ids: Seq<u64>, kw: Seq<char>)
    requires
        distinct_keywords(vs, ids).contains(kw),
    ensures
        keyword_count(vs, ids, kw) >= 1,
{
    lemma_distinct_iff_counted(vs, ids, kw);
}

} // verus!
