//! An in-memory model of the two tables the aggregator reads: the
//! candidate roster and the append-only vote log. Each read operation is a
//! stateless transform over the current contents.

use vstd::prelude::*;

use crate::keywords::top_keywords;
use crate::model::{
    candidate_ids_unique, distinct_keywords, election_results_of, has_candidate, keyword_before,
    output_contains, top_len, votes_reference_candidates, AggregateError, Candidate,
    ElectionResult, Vote,
};
use crate::tally::compute_election_results;

verus! {

/// How many keywords a party page shows at most.
pub const DEFAULT_KEYWORD_LIMIT: usize = 10;

/// The candidate roster and the vote log. Candidates are immutable after
/// seeding; votes are appended one at a time and only removed by a bulk
/// reset.
pub struct VoteStore {
    candidates: Vec<Candidate>,
    votes: Vec<Vote>,
}

impl VoteStore {
    /// The roster as the specifications see it.
    pub closed spec fn candidates(&self) -> Seq<Candidate> {
        self.candidates@
    }

    /// The vote log as the specifications see it.
    pub closed spec fn votes(&self) -> Seq<Vote> {
        self.votes@
    }

    /// Well-formedness: identifiers are positive and unique, every vote
    /// references a seeded candidate, and vote identifiers number the log
    /// from one upward.
    pub open spec fn wf(&self) -> bool {
        &&& candidate_ids_unique(self.candidates())
        &&& forall|i: int|
            0 <= i < self.candidates().len() ==> (#[trigger] self.candidates()[i].id) != 0
        &&& votes_reference_candidates(self.votes(), self.candidates())
        &&& forall|i: int| 0 <= i < self.votes().len() ==> (#[trigger] self.votes()[i].id) == i + 1
    }

    /// An empty store: no candidates, no votes.
    pub fn new() -> (s: Self)
        ensures
            s.candidates() == Seq::<Candidate>::empty(),
            s.votes() == Seq::<Vote>::empty(),
            s.wf(),
    {
        VoteStore { candidates: Vec::new(), votes: Vec::new() }
    }

    /// Seeds one candidate. Succeeds exactly when the identifier is
    /// positive and not yet taken; a failed seeding changes nothing.
    pub fn add_candidate(&mut self, c: Candidate) -> (ok: bool)
        requires
            old(self).wf(),
        ensures
            final(self).wf(),
            final(self).votes() == old(self).votes(),
            ok == (c.id != 0 && !has_candidate(old(self).candidates(), c.id)),
            ok ==> final(self).candidates() == old(self).candidates().push(c),
            !ok ==> final(self).candidates() == old(self).candidates(),
    {
        if c.id == 0 || self.find_candidate(c.id).is_some() {
            return false;
        }
        let ghost pre = self.candidates();
        let ghost vs = self.votes();
        self.candidates.push(c);
        proof {
            assert forall|i: int, j: int|
                0 <= i < j < self.candidates().len() implies self.candidates()[i].id
                != self.candidates()[j].id by {
                if j == pre.len() {
                    assert(self.candidates()[i] == pre[i]);
                    if pre[i].id == c.id {
                        assert(has_candidate(pre, c.id));
                    }
                }
            }
            assert forall|i: int| 0 <= i < vs.len() implies has_candidate(
                self.candidates(),
                #[trigger] vs[i].candidate_id,
            ) by {
                let w = choose|w: int| 0 <= w < pre.len() && pre[w].id == vs[i].candidate_id;
                assert(self.candidates()[w].id == vs[i].candidate_id);
            }
        }
        true
    }

    /// All candidates, in the order they were seeded.
    pub fn list_candidates(&self) -> (r: &Vec<Candidate>)
        ensures
            r@ == self.candidates(),
    {
        &self.candidates
    }

    /// The number of votes in the log.
    pub fn vote_count(&self) -> (n: usize)
        ensures
            n == self.votes().len(),
    {
        self.votes.len()
    }

    /// The position of the candidate with the identifier, if one is seeded.
    fn find_candidate(&self, id: u64) -> (r: Option<usize>)
        ensures
            match r {
                Some(i) => i < self.candidates().len() && self.candidates()[i as int].id == id,
                None => !has_candidate(self.candidates(), id),
            },
    {
        let mut i: usize = 0;
        while i < self.candidates.len()
            invariant
                0 <= i <= self.candidates().len(),
                forall|j: int| 0 <= j < i ==> (#[trigger] self.candidates()[j].id) != id,
            decreases self.candidates().len() - i,
        {
            if self.candidates[i].id == id {
                return Some(i);
            }
            i = i + 1;
        }
        None
    }

    /// Looks one candidate up by identifier. Returns the candidate exactly
    /// when one with that identifier is seeded, and `NotFound` otherwise.
    pub fn get_candidate(&self, id: u64) -> (r: Result<Candidate, AggregateError>)
        ensures
            r is Ok <==> has_candidate(self.candidates(), id),
            r matches Ok(c) ==> self.candidates().contains(c) && c.id == id,
            r is Err ==> r == Result::<Candidate, AggregateError>::Err(AggregateError::NotFound),
    {
        match self.find_candidate(id) {
            Some(i) => {
                let c = self.candidates[i].clone();
                assert(self.candidates().contains(self.candidates()[i as int]));
                Ok(c)
            },
            None => Err(AggregateError::NotFound),
        }
    }

    /// Appends one vote. Succeeds exactly when the candidate exists;
    /// rejecting a vote for an unknown candidate leaves the log unchanged
    /// and reports `InvalidReference`.
    pub fn record_vote(&mut self, user_id: u64, candidate_id: u64, keyword: String) -> (r: Result<
        (),
        AggregateError,
    >)
        requires
            old(self).wf(),
            old(self).votes().len() < u64::MAX,
        ensures
            final(self).wf(),
            final(self).candidates() == old(self).candidates(),
            r is Ok <==> has_candidate(old(self).candidates(), candidate_id),
            r is Ok ==> final(self).votes() == old(self).votes().push(
                Vote {
                    id: (old(self).votes().len() + 1) as u64,
                    user_id,
                    candidate_id,
                    keyword,
                },
            ),
            r is Err ==> final(self).votes() == old(self).votes() && r == Result::<
                (),
                AggregateError,
            >::Err(AggregateError::InvalidReference),
    {
        if self.find_candidate(candidate_id).is_none() {
            return Err(AggregateError::InvalidReference);
        }
        let id = (self.votes.len() as u64) + 1;
        self.votes.push(Vote { id, user_id, candidate_id, keyword });
        Ok(())
    }

    /// Clears the vote log; the roster stays. Repeating it changes
    /// nothing further.
    pub fn reset_votes(&mut self)
        requires
            old(self).wf(),
        ensures
            final(self).wf(),
            final(self).candidates() == old(self).candidates(),
            final(self).votes() == Seq::<Vote>::empty(),
    {
        self.votes.clear();
    }

    /// The derived row of every candidate, ordered by vote count
    /// descending; candidates without votes come last, ties go to the
    /// smaller identifier.
    pub fn election_results(&self) -> (r: Vec<ElectionResult>)
        ensures
            election_results_of(self.candidates(), self.votes(), r@),
    {
        compute_election_results(&self.candidates, &self.votes)
    }

    /// Up to `k` keywords of the votes for the given candidates, most
    /// frequent first, ties broken by first occurrence in the log.
    pub fn top_keywords(&self, candidate_ids: &Vec<u64>, k: usize) -> (r: Vec<String>)
        ensures
            r@.len() == top_len(distinct_keywords(self.votes(), candidate_ids@).len(), k as nat),
            r@.len() <= k,
            candidate_ids@.len() == 0 ==> r@.len() == 0,
            forall|p: int|
                0 <= p < r@.len() ==> distinct_keywords(self.votes(), candidate_ids@).contains(
                    #[trigger] r@[p]@,
                ),
            forall|p: int, q: int| 0 <= p < q < r@.len() ==> r@[p]@ != r@[q]@,
            forall|p: int, q: int| 0 <= p < q < r@.len() ==> !keyword_before(
                self.votes(),
                candidate_ids@,
                #[trigger] r@[q]@,
                #[trigger] r@[p]@,
            ),
            forall|p: int, kw: Seq<char>|
                0 <= p < r@.len() && distinct_keywords(self.votes(), candidate_ids@).contains(kw)
                    && !output_contains(r@, kw) ==> !(#[trigger] keyword_before(
                    self.votes(),
                    candidate_ids@,
                    kw,
                    r@[p]@,
                )),
    {
        top_keywords(&self.votes, candidate_ids, k)
    }
}

} // verus!
