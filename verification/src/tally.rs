//! The aggregation operations over a candidate roster and a vote log:
//! ranked election results, party totals, and the party filter.

use vstd::prelude::*;

use crate::model::{
    count_or_zero, election_results_of, filter_party, party_total, result_before, result_for,
    results_sorted, vote_count_for, Candidate, ElectionResult, Vote,
};

verus! {

/// Taking one more element of a sequence appends that element to the prefix.
pub proof fn lemma_take_push<T>(s: Seq<T>, i: int)
    requires
        0 <= i < s.len(),
    ensures
        s.subrange(0, i + 1) == s.subrange(0, i).push(s[i]),
{
    assert(s.subrange(0, i + 1) =~= s.subrange(0, i).push(s[i]));
}

/// Unfolds `vote_count_for` over a push.
pub proof fn lemma_vote_count_push(s: Seq<Vote>, v: Vote, id: u64)
    ensures
        vote_count_for(s.push(v), id) == vote_count_for(s, id) + (if v.candidate_id == id {
            1nat
        } else {
            0nat
        }),
{
    assert(s.push(v).drop_last() =~= s);
}

/// Unfolds `party_total` over a push.
pub proof fn lemma_party_total_push(s: Seq<ElectionResult>, r: ElectionResult, party: Seq<char>)
    ensures
        party_total(s.push(r), party) == party_total(s, party)
            + (if r.political_party@ == party {
            count_or_zero(r)
        } else {
            0nat
        }),
{
    assert(s.push(r).drop_last() =~= s);
}

/// Unfolds `filter_party` over a push.
pub proof fn lemma_filter_party_push(s: Seq<ElectionResult>, r: ElectionResult, party: Seq<char>)
    ensures
        filter_party(s.push(r), party) == if r.political_party@ == party {
            filter_party(s, party).push(r)
        } else {
            filter_party(s, party)
        },
{
    assert(s.push(r).drop_last() =~= s);
}

/// A prefix of the sequence contributes at most the whole sequence's total.
pub proof fn lemma_party_total_take_le(s: Seq<ElectionResult>, party: Seq<char>, i: int)
    requires
        0 <= i <= s.len(),
    ensures
        party_total(s.subrange(0, i), party) <= party_total(s, party),
    decreases s.len() - i,
{
    if i == s.len() {
        assert(s.subrange(0, i) =~= s);
    } else {
        lemma_take_push(s, i);
        lemma_party_total_push(s.subrange(0, i), s[i], party);
        lemma_party_total_take_le(s, party, i + 1);
    }
}

/// Inserting adds exactly one value to the members of a sequence.
pub proof fn lemma_insert_contains<T>(s: Seq<T>, pos: int, x: T)
    requires
        0 <= pos <= s.len(),
    ensures
        forall|y: T| #[trigger] s.insert(pos, x).contains(y) <==> (s.contains(y) || y == x),
{
    s.insert_ensures(pos, x);
    let t = s.insert(pos, x);
    assert forall|y: T| #[trigger] t.contains(y) implies (s.contains(y) || y == x) by {
        let q = choose|q: int| 0 <= q < t.len() && t[q] == y;
        if q < pos {
            assert(s[q] == y);
        } else if q > pos {
            assert(t[(q - 1) + 1] == s[q - 1]);
            assert(s[q - 1] == y);
        }
    }
    assert forall|y: T| s.contains(y) || y == x implies #[trigger] t.contains(y) by {
        if y == x {
            assert(t[pos] == y);
        } else {
            let q = choose|q: int| 0 <= q < s.len() && s[q] == y;
            if q < pos {
                assert(t[q] == y);
            } else {
                assert(t[q + 1] == y);
            }
        }
    }
}

/// Inserting a row at the position its order key selects keeps the
/// sequence sorted.
pub proof fn lemma_sorted_insert(s: Seq<ElectionResult>, pos: int, r: ElectionResult)
    requires
        results_sorted(s),
        0 <= pos <= s.len(),
        forall|j: int| 0 <= j < pos ==> result_before(#[trigger] s[j], r),
        pos < s.len() ==> !result_before(s[pos], r),
    ensures
        results_sorted(s.insert(pos, r)),
{
    s.insert_ensures(pos, r);
    let t = s.insert(pos, r);
    assert forall|i: int, j: int| 0 <= i < j < t.len() implies !result_before(
        #[trigger] t[j],
        #[trigger] t[i],
    ) by {
        if i < pos {
            assert(t[i] == s[i]);
        } else if i > pos {
            assert(t[i] == s[i - 1]);
        }
        if j < pos {
            assert(t[j] == s[j]);
        } else if j > pos {
            assert(t[j] == s[j - 1]);
        }
    }
}

/// Counts the votes cast for the candidate with the given identifier.
pub fn count_votes(votes: &Vec<Vote>, id: u64) -> (n: u64)
    ensures
        n == vote_count_for(votes@, id),
{
    let mut n: u64 = 0;
    let mut i: usize = 0;
    while i < votes.len()
        invariant
            0 <= i <= votes@.len(),
            n == vote_count_for(votes@.subrange(0, i as int), id),
            n <= i,
        decreases votes@.len() - i,
    {
        proof {
            lemma_take_push(votes@, i as int);
            lemma_vote_count_push(votes@.subrange(0, i as int), votes@[i as int], id);
        }
        if votes[i].candidate_id == id {
            n = n + 1;
        }
        i = i + 1;
    }
    proof {
        assert(votes@.subrange(0, votes@.len() as int) =~= votes@);
    }
    n
}

/// Decides the strict display order of two result rows: higher counts
/// first, absent counts last, ties by candidate identifier ascending.
pub fn comes_before(a: &ElectionResult, b: &ElectionResult) -> (r: bool)
    ensures
        r == result_before(*a, *b),
{
    match (a.count, b.count) {
        (Some(x), Some(y)) => x > y || (x == y && a.id < b.id),
        (Some(_), None) => true,
        (None, Some(_)) => false,
        (None, None) => a.id < b.id,
    }
}

/// Builds the derived row for one candidate, with an absent count when no
/// vote was cast for it.
fn make_result(c: &Candidate, votes: &Vec<Vote>) -> (r: ElectionResult)
    ensures
        r == result_for(*c, votes@),
{
    let n = count_votes(votes, c.id);
    ElectionResult {
        id: c.id,
        name: c.name.clone(),
        political_party: c.political_party.clone(),
        sex: c.sex.clone(),
        count: if n == 0 {
            None
        } else {
            Some(n)
        },
    }
}

/// For every candidate of the roster, its attributes joined with its vote
/// count (absent when zero), ordered by count descending; candidates
/// without votes come last, and ties are broken by identifier ascending.
pub fn compute_election_results(candidates: &Vec<Candidate>, votes: &Vec<Vote>) -> (r: Vec<
    ElectionResult,
>)
    ensures
        election_results_of(candidates@, votes@, r@),
{
    let mut out: Vec<ElectionResult> = Vec::new();
    let mut i: usize = 0;
    while i < candidates.len()
        invariant
            0 <= i <= candidates@.len(),
            out@.len() == i,
            forall|j: int| 0 <= j < i ==> out@.contains(#[trigger] result_for(
                candidates@[j],
                votes@,
            )),
            forall|p: int| 0 <= p < out@.len() ==> exists|j: int|
                0 <= j < i && #[trigger] out@[p] == result_for(candidates@[j], votes@),
            results_sorted(out@),
        decreases candidates@.len() - i,
    {
        let r = make_result(&candidates[i], votes);
        let mut pos: usize = 0;
        while pos < out.len() && comes_before(&out[pos], &r)
            invariant
                0 <= pos <= out@.len(),
                forall|j: int| 0 <= j < pos ==> result_before(#[trigger] out@[j], r),
            decreases out@.len() - pos,
        {
            pos = pos + 1;
        }
        let ghost pre = out@;
        proof {
            lemma_sorted_insert(pre, pos as int, r);
            lemma_insert_contains(pre, pos as int, r);
            pre.insert_ensures(pos as int, r);
        }
        out.insert(pos, r);
        assert forall|p: int| 0 <= p < out@.len() implies exists|j: int|
            0 <= j <= i && #[trigger] out@[p] == result_for(candidates@[j], votes@) by {
            if p < pos {
                assert(out@[p] == pre[p]);
            } else if p > pos {
                assert(out@[(p - 1) + 1] == pre[p - 1]);
            } else {
                assert(out@[p] == result_for(candidates@[i as int], votes@));
            }
        }
        i = i + 1;
    }
    assert forall|p: int| 0 <= p < out@.len() implies exists|j: int|
        0 <= j < candidates@.len() && #[trigger] out@[p] == result_for(candidates@[j], votes@) by {
        let j = choose|j: int| 0 <= j < i && out@[p] == result_for(candidates@[j], votes@);
        assert(0 <= j < candidates@.len() && out@[p] == result_for(candidates@[j], votes@));
    }
    out
}

/// Sums the counts (absent read as zero) of all rows whose party matches
/// the given name exactly.
pub fn compute_party_totals(results: &Vec<ElectionResult>, party: &String) -> (t: u64)
    requires
        party_total(results@, party@) <= u64::MAX,
    ensures
        t == party_total(results@, party@),
{
    let mut t: u64 = 0;
    let mut i: usize = 0;
    while i < results.len()
        invariant
            0 <= i <= results@.len(),
            t == party_total(results@.subrange(0, i as int), party@),
            party_total(results@, party@) <= u64::MAX,
        decreases results@.len() - i,
    {
        proof {
            lemma_take_push(results@, i as int);
            lemma_party_total_push(results@.subrange(0, i as int), results@[i as int], party@);
            lemma_party_total_take_le(results@, party@, i as int + 1);
        }
        if results[i].political_party == *party {
            match results[i].count {
                Some(c) => {
                    t = t + c;
                },
                None => {},
            }
        }
        i = i + 1;
    }
    proof {
        assert(results@.subrange(0, results@.len() as int) =~= results@);
    }
    t
}

/// Like `compute_party_totals`, but detects instead of precluding an
/// overflowing total: `None` exactly when the sum does not fit in a `u64`.
pub fn checked_party_totals(results: &Vec<ElectionResult>, party: &String) -> (t: Option<u64>)
    ensures
        t is Some <==> party_total(results@, party@) <= u64::MAX,
        t matches Some(v) ==> v == party_total(results@, party@),
{
    let mut t: u64 = 0;
    let mut i: usize = 0;
    while i < results.len()
        invariant
            0 <= i <= results@.len(),
            t == party_total(results@.subrange(0, i as int), party@),
        decreases results@.len() - i,
    {
        proof {
            lemma_take_push(results@, i as int);
            lemma_party_total_push(results@.subrange(0, i as int), results@[i as int], party@);
        }
        if results[i].political_party == *party {
            match results[i].count {
                Some(c) => {
                    match t.checked_add(c) {
                        Some(sum) => {
                            t = sum;
                        },
                        None => {
                            proof {
                                lemma_party_total_take_le(results@, party@, i as int + 1);
                            }
                            return None;
                        },
                    }
                },
                None => {},
            }
        }
        i = i + 1;
    }
    proof {
        assert(results@.subrange(0, results@.len() as int) =~= results@);
    }
    Some(t)
}

/// The rows whose party matches the given name exactly, keeping the order
/// of the input sequence.
pub fn filter_by_party(results: &Vec<ElectionResult>, party: &String) -> (r: Vec<ElectionResult>)
    ensures
        r@ == filter_party(results@, party@),
{
    let mut out: Vec<ElectionResult> = Vec::new();
    let mut i: usize = 0;
    while i < results.len()
        invariant
            0 <= i <= results@.len(),
            out@ == filter_party(results@.subrange(0, i as int), party@),
        decreases results@.len() - i,
    {
        proof {
            lemma_take_push(results@, i as int);
            lemma_filter_party_push(results@.subrange(0, i as int), results@[i as int], party@);
        }
        if results[i].political_party == *party {
            out.push(results[i].clone());
        }
        i = i + 1;
    }
    proof {
        assert(results@.subrange(0, results@.len() as int) =~= results@);
    }
    out
}

} // verus!
