//! The data model: candidates, votes, derived election results, and the
//! spec-level functions that say what the aggregation operations compute.

use vstd::prelude::*;

verus! {

/// An electable entry of the candidate roster.
#[derive(Debug, PartialEq, Eq)]
pub struct Candidate {
    pub id: u64,
    pub name: String,
    pub political_party: String,
    pub sex: String,
}

/// One ballot: a voter backs a candidate and adds a free-text keyword.
#[derive(Debug, PartialEq, Eq)]
pub struct Vote {
    pub id: u64,
    pub user_id: u64,
    pub candidate_id: u64,
    pub keyword: String,
}

/// A candidate joined with its aggregate vote count. `count` is absent
/// (rather than zero) when no vote at all was cast for the candidate.
#[derive(Debug, PartialEq, Eq)]
pub struct ElectionResult {
    pub id: u64,
    pub name: String,
    pub political_party: String,
    pub sex: String,
    pub count: Option<u64>,
}

/// The error taxonomy of the aggregation operations. `StorageUnavailable`
/// is reserved for callers that put the store behind a fallible backend;
/// the in-memory operations themselves never produce it.
#[derive(Debug, Clone, Copy, PartialEq, Eq, Structural)]
pub enum AggregateError {
    StorageUnavailable,
    InvalidReference,
    NotFound,
}

impl Clone for Candidate {
    fn clone(&self) -> (c: Self)
        ensures
            c == *self,
    {
        Candidate {
            id: self.id,
            name: self.name.clone(),
            political_party: self.political_party.clone(),
            sex: self.sex.clone(),
        }
    }
}

impl Clone for Vote {
    fn clone(&self) -> (v: Self)
        ensures
            v == *self,
    {
        Vote {
            id: self.id,
            user_id: self.user_id,
            candidate_id: self.candidate_id,
            keyword: self.keyword.clone(),
        }
    }
}

impl Clone for ElectionResult {
    fn clone(&self) -> (r: Self)
        ensures
            r == *self,
    {
        ElectionResult {
            id: self.id,
            name: self.name.clone(),
            political_party: self.political_party.clone(),
            sex: self.sex.clone(),
            count: self.count,
        }
    }
}

/// No two candidates share an identifier.
pub open spec fn candidate_ids_unique(cs: Seq<Candidate>) -> bool {
    forall|i: int, j: int| 0 <= i < j < cs.len() ==> cs[i].id != cs[j].id
}

/// Some candidate of the roster carries the identifier.
pub open spec fn has_candidate(cs: Seq<Candidate>, id: u64) -> bool {
    exists|i: int| 0 <= i < cs.len() && cs[i].id == id
}

/// Every vote references an existing candidate.
pub open spec fn votes_reference_candidates(vs: Seq<Vote>, cs: Seq<Candidate>) -> bool {
    forall|i: int| 0 <= i < vs.len() ==> has_candidate(cs, #[trigger] vs[i].candidate_id)
}

/// How many votes of the log were cast for the candidate.
pub open spec fn vote_count_for(vs: Seq<Vote>, id: u64) -> nat
    decreases vs.len(),
{
    if vs.len() == 0 {
        0
    } else {
        vote_count_for(vs.drop_last(), id) + (if vs.last().candidate_id == id {
            1nat
        } else {
            0nat
        })
    }
}

/// The derived row for one candidate: its attributes plus its vote count,
/// absent when the candidate has no votes.
pub open spec fn result_for(c: Candidate, vs: Seq<Vote>) -> ElectionResult {
    ElectionResult {
        id: c.id,
        name: c.name,
        political_party: c.political_party,
        sex: c.sex,
        count: if vote_count_for(vs, c.id) == 0 {
            None
        } else {
            Some(vote_count_for(vs, c.id) as u64)
        },
    }
}

/// The sort key of a result row: its count, with an absent count below
/// every present one.
pub open spec fn result_rank(r: ElectionResult) -> int {
    match r.count {
        Some(c) => c as int,
        None => -1,
    }
}

/// Strict order of result rows: higher counts first, absent counts last,
/// ties broken by candidate identifier ascending.
pub open spec fn result_before(a: ElectionResult, b: ElectionResult) -> bool {
    result_rank(a) > result_rank(b) || (result_rank(a) == result_rank(b) && a.id < b.id)
}

/// The sequence is ordered by `result_before`: no later row strictly
/// precedes an earlier one.
pub open spec fn results_sorted(s: Seq<ElectionResult>) -> bool {
    forall|i: int, j: int| 0 <= i < j < s.len() ==> !result_before(#[trigger] s[j], #[trigger] s[i])
}

/// What `compute_election_results` returns for a roster and a vote log:
/// one derived row per candidate, nothing else, ordered by `result_before`.
pub open spec fn election_results_of(cs: Seq<Candidate>, vs: Seq<Vote>, rs: Seq<ElectionResult>) -> bool {
    &&& rs.len() == cs.len()
    &&& forall|j: int| 0 <= j < cs.len() ==> rs.contains(#[trigger] result_for(cs[j], vs))
    &&& forall|p: int| 0 <= p < rs.len() ==> exists|j: int|
        0 <= j < cs.len() && #[trigger] rs[p] == result_for(cs[j], vs)
    &&& results_sorted(rs)
}

/// The count of a result row with an absent count read as zero.
pub open spec fn count_or_zero(r: ElectionResult) -> nat {
    match r.count {
        Some(c) => c as nat,
        None => 0,
    }
}

/// Sum of the counts of all rows whose party matches, absent read as zero.
pub open spec fn party_total(s: Seq<ElectionResult>, party: Seq<char>) -> nat
    decreases s.len(),
{
    if s.len() == 0 {
        0
    } else {
        party_total(s.drop_last(), party) + (if s.last().political_party@ == party {
            count_or_zero(s.last())
        } else {
            0nat
        })
    }
}

/// The subsequence of rows whose party matches, in their input order.
pub open spec fn filter_party(s: Seq<ElectionResult>, party: Seq<char>) -> Seq<ElectionResult>
    decreases s.len(),
{
    if s.len() == 0 {
        Seq::empty()
    } else {
        let rest = filter_party(s.drop_last(), party);
        if s.last().political_party@ == party {
            rest.push(s.last())
        } else {
            rest
        }
    }
}

/// Sum of the counts of all rows of the sequence, absent read as zero.
pub open spec fn sum_counts(s: Seq<ElectionResult>) -> nat
    decreases s.len(),
{
    if s.len() == 0 {
        0
    } else {
        sum_counts(s.drop_last()) + count_or_zero(s.last())
    }
}

/// The vote was cast for one of the given candidates.
pub open spec fn vote_selected(v: Vote, ids: Seq<u64>) -> bool {
    ids.contains(v.candidate_id)
}

/// How often the keyword occurs among votes for the given candidates.
pub open spec fn keyword_count(vs: Seq<Vote>, ids: Seq<u64>, kw: Seq<char>) -> nat
    decreases vs.len(),
{
    if vs.len() == 0 {
        0
    } else {
        keyword_count(vs.drop_last(), ids, kw) + (if vote_selected(vs.last(), ids)
            && vs.last().keyword@ == kw {
            1nat
        } else {
            0nat
        })
    }
}

/// The distinct keywords of votes for the given candidates, in order of
/// first occurrence in the vote log.
pub open spec fn distinct_keywords(vs: Seq<Vote>, ids: Seq<u64>) -> Seq<Seq<char>>
    decreases vs.len(),
{
    if vs.len() == 0 {
        Seq::empty()
    } else {
        let rest = distinct_keywords(vs.drop_last(), ids);
        if vote_selected(vs.last(), ids) && !rest.contains(vs.last().keyword@) {
            rest.push(vs.last().keyword@)
        } else {
            rest
        }
    }
}

/// Where the keyword stands in the first-occurrence order of the distinct
/// keywords; meaningful only for keywords that occur at all.
pub open spec fn keyword_rank(vs: Seq<Vote>, ids: Seq<u64>, kw: Seq<char>) -> int {
    distinct_keywords(vs, ids).index_of(kw)
}

/// Strict ranking order of two keywords: more frequent first, ties broken
/// by first occurrence in the vote log.
pub open spec fn keyword_before(vs: Seq<Vote>, ids: Seq<u64>, a: Seq<char>, b: Seq<char>) -> bool {
    keyword_count(vs, ids, a) > keyword_count(vs, ids, b) || (keyword_count(vs, ids, a)
        == keyword_count(vs, ids, b) && keyword_rank(vs, ids, a) < keyword_rank(vs, ids, b))
}

/// The keyword occurs among the returned strings.
pub open spec fn output_contains(s: Seq<String>, kw: Seq<char>) -> bool {
    exists|q: int| 0 <= q < s.len() && s[q]@ == kw
}

/// How many entries a ranking cut off at `k` returns.
pub open spec fn top_len(total: nat, k: nat) -> nat {
    if total <= k {
        total
    } else {
        k
    }
}

} // verus!
