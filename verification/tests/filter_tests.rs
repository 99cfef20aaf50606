use solver_backend::engine::filter;
use solver_backend::engine::handle_request;
use solver_backend::request::FilterError;
use solver_backend::request::LetterConstraintRequest;

fn b(s: &str) -> Vec<u8> {
    s.as_bytes().to_vec()
}

fn words(list: &[&str]) -> Vec<Vec<u8>> {
    list.iter().map(|w| b(w)).collect()
}

fn req(exact: &str, required: &str, excluded: &str) -> LetterConstraintRequest {
    LetterConstraintRequest { exact: b(exact), required: b(required), excluded: b(excluded) }
}

#[test]
fn scenario_five_letter_words() {
    let corpus = words(&["apple", "angle", "ankle", "amble"]);
    let res = filter(&corpus, &req("a???e", "l", "p")).unwrap();
    assert_eq!(res, words(&["angle", "ankle", "amble"]));
}

#[test]
fn scenario_all_wildcards_selects_by_length() {
    let corpus = words(&["tree", "stone", "gram", "pea", "word"]);
    let res = filter(&corpus, &req("????", "", "")).unwrap();
    assert_eq!(res, words(&["tree", "gram", "word"]));
}

#[test]
fn scenario_required_letter_absent_gives_empty_result() {
    let corpus = words(&["tree", "gram", "word"]);
    let res = filter(&corpus, &req("????", "z", "")).unwrap();
    assert_eq!(res, Vec::<Vec<u8>>::new());
}

#[test]
fn result_words_satisfy_all_three_predicates() {
    let corpus = words(&["apple", "angle", "ankle", "amble", "eagle"]);
    let r = req("a???e", "l", "p");
    let res = filter(&corpus, &r).unwrap();
    assert!(!res.is_empty());
    for w in &res {
        assert!(r.matches_positional(w));
        assert!(r.matches_required(w));
        assert!(r.matches_excluded(w));
        assert!(r.matches_word(w));
    }
}

#[test]
fn left_out_words_of_matching_length_fail_a_predicate() {
    let corpus = words(&["apple", "angle", "ankle", "amble", "eagle"]);
    let r = req("a???e", "l", "p");
    let res = filter(&corpus, &r).unwrap();
    for w in &corpus {
        if w.len() == 5 && !res.contains(w) {
            assert!(
                !r.matches_positional(w) || !r.matches_required(w) || !r.matches_excluded(w)
            );
        }
    }
}

#[test]
fn duplicate_free_corpus_gives_duplicate_free_result() {
    let corpus = words(&["angle", "ankle", "amble", "apple"]);
    let res = filter(&corpus, &req("a???e", "", "")).unwrap();
    for i in 0..res.len() {
        for j in (i + 1)..res.len() {
            assert_ne!(res[i], res[j]);
        }
    }
    assert_eq!(res.len(), 4);
}

#[test]
fn filter_is_idempotent() {
    let corpus = words(&["apple", "angle", "ankle", "amble"]);
    let r = req("a???e", "l", "p");
    let first = filter(&corpus, &r).unwrap();
    let second = filter(&corpus, &r).unwrap();
    assert_eq!(first, second);
}

#[test]
fn empty_pattern_is_invalid() {
    let corpus = words(&["apple"]);
    let res = filter(&corpus, &req("", "", ""));
    assert_eq!(res, Err(FilterError::InvalidConstraint));
}

#[test]
fn required_and_excluded_sharing_a_letter_is_invalid() {
    let corpus = words(&["apple"]);
    let res = filter(&corpus, &req("a???e", "l", "l"));
    assert_eq!(res, Err(FilterError::InvalidConstraint));
}

#[test]
fn pinned_pattern_letter_in_excluded_is_invalid() {
    let corpus = words(&["apple"]);
    let res = filter(&corpus, &req("a???e", "", "a"));
    assert_eq!(res, Err(FilterError::InvalidConstraint));
}

#[test]
fn constructor_rejects_contradictions() {
    assert_eq!(
        LetterConstraintRequest::new(&b("a???e"), &b("l"), &b("l")).unwrap_err(),
        FilterError::InvalidConstraint
    );
    assert_eq!(
        LetterConstraintRequest::new(&b(""), &b(""), &b("")).unwrap_err(),
        FilterError::InvalidConstraint
    );
    assert_eq!(
        LetterConstraintRequest::new(&b("a1?"), &b(""), &b("")).unwrap_err(),
        FilterError::InvalidConstraint
    );
    assert_eq!(
        LetterConstraintRequest::new(&b("a??"), &b("l2"), &b("")).unwrap_err(),
        FilterError::InvalidConstraint
    );
}

#[test]
fn constructor_lower_cases_and_deduplicates() {
    let r = LetterConstraintRequest::new(&b("A??E"), &b("LlL"), &b("XY")).unwrap();
    assert_eq!(r.exact, b("a??e"));
    assert_eq!(r.required, b("l"));
    assert_eq!(r.excluded, b("xy"));
}

#[test]
fn matching_is_case_insensitive_over_corpus_words() {
    let corpus = words(&["GRAPE", "grape", "BRAVE"]);
    let r = LetterConstraintRequest::new(&b("?????"), &b("G"), &b("")).unwrap();
    let res = filter(&corpus, &r).unwrap();
    assert_eq!(res, words(&["GRAPE", "grape"]));
}

#[test]
fn positional_predicate_alone() {
    let r = req("a?p?e", "", "");
    assert!(r.matches_positional(&b("apple")));
    assert!(!r.matches_positional(&b("angle")));
    assert!(!r.matches_positional(&b("ankle")));
    assert!(!r.matches_positional(&b("app")));
}

#[test]
fn required_predicate_alone() {
    let r = req("?????", "lp", "");
    assert!(r.matches_required(&b("apple")));
    assert!(!r.matches_required(&b("angle")));
}

#[test]
fn excluded_predicate_alone() {
    let r = req("?????", "", "pz");
    assert!(!r.matches_excluded(&b("apple")));
    assert!(r.matches_excluded(&b("angle")));
}

#[test]
fn validity_check_matches_policy() {
    assert!(req("a???e", "l", "p").is_valid());
    assert!(!req("", "", "").is_valid());
    assert!(!req("a???e", "ll", "p").is_valid());
    assert!(!req("A???e", "l", "p").is_valid());
}

#[test]
fn unauthorized_caller_never_reaches_the_filter() {
    let corpus = words(&["apple"]);
    let res = handle_request(false, Some(&corpus), &req("a???e", "l", "p"));
    assert_eq!(res, Err(FilterError::Unauthorized));
    let also = handle_request(false, None, &req("", "", ""));
    assert_eq!(also, Err(FilterError::Unauthorized));
}

#[test]
fn unavailable_corpus_is_a_server_side_failure() {
    let res = handle_request(true, None, &req("a???e", "l", "p"));
    assert_eq!(res, Err(FilterError::CorpusUnavailable));
}

#[test]
fn authorized_request_over_available_corpus_filters() {
    let corpus = words(&["apple", "angle", "ankle", "amble"]);
    let res = handle_request(true, Some(&corpus), &req("a???e", "l", "p"));
    assert_eq!(res, Ok(words(&["angle", "ankle", "amble"])));
}

#[test]
fn invalid_request_is_rejected_before_the_corpus_is_consulted() {
    let corpus = words(&["apple"]);
    let res = handle_request(true, Some(&corpus), &req("a???e", "l", "l"));
    assert_eq!(res, Err(FilterError::InvalidConstraint));
    let same_without_corpus = handle_request(true, None, &req("a???e", "l", "l"));
    assert_eq!(same_without_corpus, Err(FilterError::InvalidConstraint));
}
