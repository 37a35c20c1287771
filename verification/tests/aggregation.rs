use vote_tally::model::{AggregateError, Candidate, ElectionResult};
use vote_tally::store::VoteStore;
use vote_tally::tally::{checked_party_totals, compute_party_totals, filter_by_party};

fn candidate(id: u64, name: &str, party: &str, sex: &str) -> Candidate {
    Candidate {
        id,
        name: String::from(name),
        political_party: String::from(party),
        sex: String::from(sex),
    }
}

fn seeded_store() -> VoteStore {
    let mut store = VoteStore::new();
    assert!(store.add_candidate(candidate(1, "Alice", "Blue", "F")));
    assert!(store.add_candidate(candidate(2, "Bob", "Red", "M")));
    store
}

#[test]
fn end_to_end_two_parties() {
    let mut store = seeded_store();
    assert!(store.record_vote(1, 1, String::from("go")).is_ok());
    assert!(store.record_vote(2, 1, String::from("go")).is_ok());
    assert!(store.record_vote(3, 2, String::from("stop")).is_ok());

    let results = store.election_results();
    assert_eq!(results.len(), 2);
    assert_eq!(results[0].id, 1);
    assert_eq!(results[0].name, String::from("Alice"));
    assert_eq!(results[0].count, Some(2));
    assert_eq!(results[1].id, 2);
    assert_eq!(results[1].count, Some(1));

    assert_eq!(compute_party_totals(&results, &String::from("Blue")), 2);
    assert_eq!(compute_party_totals(&results, &String::from("Red")), 1);

    let keywords = store.top_keywords(&vec![1], 10);
    assert_eq!(keywords, vec![String::from("go")]);
}

#[test]
fn zero_vote_candidates_report_absent_and_sort_last() {
    let mut store = seeded_store();
    assert!(store.add_candidate(candidate(3, "Carol", "Blue", "F")));
    assert!(store.record_vote(1, 2, String::from("yes")).is_ok());

    let results = store.election_results();
    assert_eq!(results.len(), 3);
    assert_eq!(results[0].id, 2);
    assert_eq!(results[0].count, Some(1));
    // Candidates without votes carry no count and come after every
    // candidate with one, ordered among themselves by identifier.
    assert_eq!(results[1].id, 1);
    assert_eq!(results[1].count, None);
    assert_eq!(results[2].id, 3);
    assert_eq!(results[2].count, None);
}

#[test]
fn ties_break_by_candidate_id_ascending() {
    let mut store = seeded_store();
    assert!(store.add_candidate(candidate(3, "Carol", "Blue", "F")));
    assert!(store.record_vote(1, 3, String::from("a")).is_ok());
    assert!(store.record_vote(2, 1, String::from("b")).is_ok());

    let results = store.election_results();
    assert_eq!(results[0].id, 1);
    assert_eq!(results[1].id, 3);
    assert_eq!(results[2].id, 2);
    assert_eq!(results[2].count, None);
}

#[test]
fn party_total_equals_sum_over_filtered_rows() {
    let mut store = seeded_store();
    assert!(store.add_candidate(candidate(3, "Carol", "Blue", "F")));
    assert!(store.record_vote(1, 1, String::from("go")).is_ok());
    assert!(store.record_vote(2, 3, String::from("ahead")).is_ok());
    assert!(store.record_vote(3, 3, String::from("ahead")).is_ok());

    let results = store.election_results();
    let blue = String::from("Blue");
    let filtered = filter_by_party(&results, &blue);
    let summed: u64 = filtered.iter().map(|r| r.count.unwrap_or(0)).sum();
    assert_eq!(compute_party_totals(&results, &blue), summed);
    assert_eq!(summed, 3);
    // A party with no candidates totals zero.
    assert_eq!(compute_party_totals(&results, &String::from("Green")), 0);
}

#[test]
fn filter_by_party_keeps_members_and_order() {
    let mut store = seeded_store();
    assert!(store.add_candidate(candidate(3, "Carol", "Blue", "F")));
    assert!(store.record_vote(1, 3, String::from("x")).is_ok());
    assert!(store.record_vote(2, 3, String::from("x")).is_ok());
    assert!(store.record_vote(3, 1, String::from("x")).is_ok());

    let results = store.election_results();
    let filtered = filter_by_party(&results, &String::from("Blue"));
    assert_eq!(filtered.len(), 2);
    assert_eq!(filtered[0].id, 3);
    assert_eq!(filtered[0].count, Some(2));
    assert_eq!(filtered[1].id, 1);
    assert_eq!(filtered[1].count, Some(1));
}

#[test]
fn party_totals_on_hand_built_rows() {
    let rows = vec![
        ElectionResult {
            id: 7,
            name: String::from("Dan"),
            political_party: String::from("Teal"),
            sex: String::from("M"),
            count: Some(5),
        },
        ElectionResult {
            id: 8,
            name: String::from("Eve"),
            political_party: String::from("Teal"),
            sex: String::from("F"),
            count: None,
        },
        ElectionResult {
            id: 9,
            name: String::from("Fay"),
            political_party: String::from("Pink"),
            sex: String::from("F"),
            count: Some(4),
        },
    ];
    // An absent count adds zero; the match on the party name is exact.
    assert_eq!(compute_party_totals(&rows, &String::from("Teal")), 5);
    assert_eq!(compute_party_totals(&rows, &String::from("Pink")), 4);
    assert_eq!(compute_party_totals(&rows, &String::from("teal")), 0);
}

#[test]
fn checked_totals_detect_overflow() {
    let row = |id: u64, count: Option<u64>| ElectionResult {
        id,
        name: String::from("x"),
        political_party: String::from("Teal"),
        sex: String::from("F"),
        count,
    };
    let teal = String::from("Teal");
    let fits = vec![row(1, Some(3)), row(2, None), row(3, Some(4))];
    assert_eq!(checked_party_totals(&fits, &teal), Some(7));
    let too_much = vec![row(1, Some(u64::MAX)), row(2, Some(1))];
    assert_eq!(checked_party_totals(&too_much, &teal), None);
}

#[test]
fn top_keywords_with_zero_limit_is_empty() {
    let mut store = seeded_store();
    assert!(store.record_vote(1, 1, String::from("go")).is_ok());
    assert!(store.top_keywords(&vec![1], 0).is_empty());
}

#[test]
fn top_keywords_of_empty_candidate_set_is_empty() {
    let mut store = seeded_store();
    assert!(store.record_vote(1, 1, String::from("go")).is_ok());
    let keywords = store.top_keywords(&vec![], 10);
    assert!(keywords.is_empty());
}

#[test]
fn top_keywords_never_exceeds_limit_and_only_voted_words() {
    let mut store = seeded_store();
    assert!(store.record_vote(1, 1, String::from("one")).is_ok());
    assert!(store.record_vote(2, 1, String::from("two")).is_ok());
    assert!(store.record_vote(3, 1, String::from("three")).is_ok());
    assert!(store.record_vote(4, 2, String::from("other")).is_ok());

    let keywords = store.top_keywords(&vec![1], 2);
    assert_eq!(keywords.len(), 2);
    for kw in &keywords {
        let word = kw.as_str();
        assert!(word == "one" || word == "two" || word == "three");
    }
    // A keyword of a vote for a candidate outside the set never appears.
    let all = store.top_keywords(&vec![1], 10);
    assert_eq!(all.len(), 3);
    assert!(!all.contains(&String::from("other")));
}

#[test]
fn top_keywords_orders_by_frequency_then_first_occurrence() {
    let mut store = seeded_store();
    assert!(store.record_vote(1, 1, String::from("late")).is_ok());
    assert!(store.record_vote(2, 1, String::from("often")).is_ok());
    assert!(store.record_vote(3, 1, String::from("often")).is_ok());
    assert!(store.record_vote(4, 1, String::from("early")).is_ok());
    assert!(store.record_vote(5, 2, String::from("late")).is_ok());

    // Votes for candidate 2 are out of the set: "late" counts once.
    let keywords = store.top_keywords(&vec![1], 10);
    assert_eq!(
        keywords,
        vec![String::from("often"), String::from("late"), String::from("early")]
    );
}

#[test]
fn reset_votes_leaves_every_count_absent() {
    let mut store = seeded_store();
    assert!(store.record_vote(1, 1, String::from("go")).is_ok());
    assert!(store.record_vote(2, 2, String::from("stop")).is_ok());
    store.reset_votes();
    assert_eq!(store.vote_count(), 0);

    let results = store.election_results();
    assert_eq!(results.len(), 2);
    assert_eq!(results[0].count, None);
    assert_eq!(results[1].count, None);
    // A second reset is a no-op.
    store.reset_votes();
    assert_eq!(store.vote_count(), 0);
}

#[test]
fn vote_for_unknown_candidate_is_invalid_reference_and_changes_nothing() {
    let mut store = seeded_store();
    assert!(store.record_vote(1, 1, String::from("go")).is_ok());
    let before = store.vote_count();
    let r = store.record_vote(2, 99, String::from("nope"));
    assert_eq!(r, Err(AggregateError::InvalidReference));
    assert_eq!(store.vote_count(), before);

    let results = store.election_results();
    assert_eq!(results[0].id, 1);
    assert_eq!(results[0].count, Some(1));
}

#[test]
fn get_candidate_finds_seeded_and_reports_missing() {
    let store = seeded_store();
    let found = store.get_candidate(2).unwrap();
    assert_eq!(found.id, 2);
    assert_eq!(found.name, String::from("Bob"));
    assert_eq!(found.political_party, String::from("Red"));
    assert_eq!(store.get_candidate(42), Err(AggregateError::NotFound));
}

#[test]
fn seeding_rejects_duplicate_or_zero_identifiers() {
    let mut store = seeded_store();
    assert!(!store.add_candidate(candidate(1, "Alia", "Green", "F")));
    assert!(!store.add_candidate(candidate(0, "Zero", "Green", "F")));
    assert_eq!(store.list_candidates().len(), 2);
}

#[test]
fn list_candidates_keeps_seeding_order() {
    let store = seeded_store();
    let listed = store.list_candidates();
    assert_eq!(listed[0].name, String::from("Alice"));
    assert_eq!(listed[1].name, String::from("Bob"));
}
