//! The matching engine: the three constraint predicates, the filter over a
//! corpus snapshot, and the authorization-gated entry point.

use vstd::prelude::*;
use crate::WILDCARD;
use crate::lower_byte;
use crate::lower_seq;
use crate::byte_to_lower;
use crate::word_to_lower;
use crate::word_contains;
use crate::copy_word;
use crate::request::FilterError;
use crate::request::LetterConstraintRequest;

verus! {

/// Predicate 1 — positional match: the word has the pattern's length, and
/// agrees with the pattern at every pinned (non-wildcard) position.
pub open spec fn positional_match(w: Seq<u8>, exact: Seq<u8>) -> bool {
    &&& w.len() == exact.len()
    &&& forall|i: int| 0 <= i < exact.len() && #[trigger] exact[i] != WILDCARD ==> w[i] == exact[i]
}

/// Predicate 2 — required letters: every required letter occurs somewhere in
/// the word.
pub open spec fn required_match(w: Seq<u8>, required: Seq<u8>) -> bool {
    forall|j: int| 0 <= j < required.len() ==> w.contains(#[trigger] required[j])
}

/// Predicate 3 — excluded letters: no excluded letter occurs anywhere in the
/// word.
pub open spec fn excluded_match(w: Seq<u8>, excluded: Seq<u8>) -> bool {
    forall|j: int| 0 <= j < excluded.len() ==> !w.contains(#[trigger] excluded[j])
}

impl LetterConstraintRequest {
    /// All three predicates of this request hold of the (already
    /// lower-cased) word `w`.
    pub open spec fn spec_matches(self, w: Seq<u8>) -> bool {
        &&& positional_match(w, self.exact@)
        &&& required_match(w, self.required@)
        &&& excluded_match(w, self.excluded@)
    }

    /// Predicate 1 of this request, on the lower-case form of `w`.
    pub fn matches_positional(&self, w: &Vec<u8>) -> (r: bool)
        ensures
            r == positional_match(lower_seq(w@), self.exact@),
    {
        assert(lower_seq(w@).len() == w@.len());
        if w.len() != self.exact.len() {
            return false;
        }
        let mut i: usize = 0;
        while i < self.exact.len()
            invariant
                w@.len() == self.exact@.len(),
                i <= self.exact@.len(),
                forall|k: int| 0 <= k < i && #[trigger] self.exact@[k] != WILDCARD
                    ==> lower_seq(w@)[k] == self.exact@[k],
            decreases self.exact@.len() - i,
        {
            let e = self.exact[i];
            if e != WILDCARD {
                let lb = byte_to_lower(w[i]);
                assert(lower_seq(w@)[i as int] == lower_byte(w@[i as int]));
                if lb != e {
                    return false;
                }
            }
            i = i + 1;
        }
        true
    }

    /// Predicate 2 of this request, on the lower-case form of `w`.
    pub fn matches_required(&self, w: &Vec<u8>) -> (r: bool)
        ensures
            r == required_match(lower_seq(w@), self.required@),
    {
        let lw = word_to_lower(w);
        let mut j: usize = 0;
        while j < self.required.len()
            invariant
                lw@ == lower_seq(w@),
                j <= self.required@.len(),
                forall|k: int| 0 <= k < j ==> lower_seq(w@).contains(#[trigger] self.required@[k]),
            decreases self.required@.len() - j,
        {
            if !word_contains(&lw, self.required[j]) {
                return false;
            }
            j = j + 1;
        }
        true
    }

    /// Predicate 3 of this request, on the lower-case form of `w`.
    pub fn matches_excluded(&self, w: &Vec<u8>) -> (r: bool)
        ensures
            r == excluded_match(lower_seq(w@), self.excluded@),
    {
        let lw = word_to_lower(w);
        let mut j: usize = 0;
        while j < self.excluded.len()
            invariant
                lw@ == lower_seq(w@),
                j <= self.excluded@.len(),
                forall|k: int| 0 <= k < j ==> !lower_seq(w@).contains(#[trigger] self.excluded@[k]),
            decreases self.excluded@.len() - j,
        {
            if word_contains(&lw, self.excluded[j]) {
                return false;
            }
            j = j + 1;
        }
        true
    }

    /// All three predicates at once, on the lower-case form of `w`.
    pub fn matches_word(&self, w: &Vec<u8>) -> (r: bool)
        ensures
            r == self.spec_matches(lower_seq(w@)),
    {
        self.matches_positional(w) && self.matches_required(w) && self.matches_excluded(w)
    }
}

/// The mathematical view of a list of words: each word as its byte sequence.
pub open spec fn views_of(words: Seq<Vec<u8>>) -> Seq<Seq<u8>> {
    words.map_values(|w: Vec<u8>| w@)
}

/// The words of `corpus`, in corpus order, whose lower-case form satisfies
/// the request `r`.
pub open spec fn matching_words(corpus: Seq<Seq<u8>>, r: LetterConstraintRequest) -> Seq<Seq<u8>>
    decreases corpus.len(),
{
    if corpus.len() == 0 {
        Seq::empty()
    } else if r.spec_matches(lower_seq(corpus.last())) {
        matching_words(corpus.drop_last(), r).push(corpus.last())
    } else {
        matching_words(corpus.drop_last(), r)
    }
}

/// The filter proper: the subset of the corpus satisfying the request, in
/// corpus order. Fails with `InvalidConstraint` exactly when the request is
/// not well formed.
pub fn filter(corpus: &Vec<Vec<u8>>, request: &LetterConstraintRequest) -> (res: Result<
    Vec<Vec<u8>>,
    FilterError,
>)
    ensures
        request.wf() ==> res is Ok && views_of(res->Ok_0@) == matching_words(
            views_of(corpus@),
            *request,
        ),
        !request.wf() ==> res is Err && res->Err_0 == FilterError::InvalidConstraint,
{
    if !request.is_valid() {
        return Err(FilterError::InvalidConstraint);
    }
    let mut out: Vec<Vec<u8>> = Vec::new();
    let mut i: usize = 0;
    while i < corpus.len()
        invariant
            i <= corpus@.len(),
            views_of(out@) == matching_words(views_of(corpus@).subrange(0, i as int), *request),
        decreases corpus@.len() - i,
    {
        let keep = request.matches_word(&corpus[i]);
        proof {
            let s = views_of(corpus@);
            assert(s.subrange(0, i + 1).drop_last() =~= s.subrange(0, i as int));
            assert(s.subrange(0, i + 1).last() == corpus@[i as int]@);
        }
        if keep {
            let wc = copy_word(&corpus[i]);
            let ghost prev = out@;
            out.push(wc);
            proof {
                assert(views_of(out@) =~= views_of(prev).push(corpus@[i as int]@));
            }
        }
        i = i + 1;
    }
    proof {
        assert(views_of(corpus@).subrange(0, corpus@.len() as int) =~= views_of(corpus@));
    }
    Ok(out)
}

/// Soundness and completeness of the result set: every word of
/// `matching_words` comes from the corpus and its lower-case form satisfies
/// all three predicates at once; and every corpus word whose lower-case form
/// satisfies them is in the result. In particular, a corpus word left out of
/// the result fails at least one predicate.
pub proof fn lemma_matching_words_membership(corpus: Seq<Seq<u8>>, r: LetterConstraintRequest)
    ensures
        forall|k: int| 0 <= k < matching_words(corpus, r).len()
            ==> corpus.contains(#[trigger] matching_words(corpus, r)[k]) && r.spec_matches(
                lower_seq(matching_words(corpus, r)[k]),
            ),
        forall|i: int| 0 <= i < corpus.len() && r.spec_matches(lower_seq(#[trigger] corpus[i]))
            ==> matching_words(corpus, r).contains(corpus[i]),
    decreases corpus.len(),
{
    if corpus.len() > 0 {
        let prefix = corpus.drop_last();
        let out = matching_words(corpus, r);
        let sub = matching_words(prefix, r);
        lemma_matching_words_membership(prefix, r);
        assert forall|k: int| 0 <= k < out.len() implies corpus.contains(out[k])
            && r.spec_matches(lower_seq(out[k])) by {
            if k < sub.len() {
                assert(out[k] == sub[k]);
                let idx = choose|idx: int| 0 <= idx < prefix.len() && prefix[idx] == sub[k];
                assert(corpus[idx] == prefix[idx]);
                assert(corpus.contains(out[k]));
            } else {
                assert(out[k] == corpus.last());
                assert(corpus[corpus.len() - 1] == corpus.last());
                assert(corpus.contains(out[k]));
            }
        }
        assert forall|i: int| 0 <= i < corpus.len() && r.spec_matches(lower_seq(corpus[i]))
            implies out.contains(corpus[i]) by {
            if i == corpus.len() - 1 {
                assert(corpus.last() == corpus[i]);
                assert(out[out.len() - 1] == corpus[i]);
                assert(out.contains(corpus[i]));
            } else {
                assert(prefix[i] == corpus[i]);
                assert(sub.contains(corpus[i]));
                let j = choose|j: int| 0 <= j < sub.len() && sub[j] == corpus[i];
                assert(out[j] == sub[j]);
                assert(out.contains(corpus[i]));
            }
        }
    }
}

/// The words of `corpus`, in corpus order, of length `n`.
pub open spec fn words_of_length(corpus: Seq<Seq<u8>>, n: nat) -> Seq<Seq<u8>>
    decreases corpus.len(),
{
    if corpus.len() == 0 {
        Seq::empty()
    } else if corpus.last().len() == n {
        words_of_length(corpus.drop_last(), n).push(corpus.last())
    } else {
        words_of_length(corpus.drop_last(), n)
    }
}

/// A fully permissive request — an all-wildcard pattern, no required letters
/// and no excluded letters — selects exactly the corpus words of the
/// pattern's length, in corpus order.
pub proof fn lemma_permissive_request(corpus: Seq<Seq<u8>>, r: LetterConstraintRequest)
    requires
        forall|i: int| 0 <= i < r.exact@.len() ==> #[trigger] r.exact@[i] == WILDCARD,
        r.required@.len() == 0,
        r.excluded@.len() == 0,
    ensures
        matching_words(corpus, r) == words_of_length(corpus, r.exact@.len()),
        forall|w: Seq<u8>|
            #![trigger matching_words(corpus, r).contains(w)]
            #![trigger corpus.contains(w)]
            matching_words(corpus, r).contains(w) <==> corpus.contains(w) && w.len()
                == r.exact@.len(),
    decreases corpus.len(),
{
    if corpus.len() > 0 {
        lemma_permissive_request(corpus.drop_last(), r);
        assert(lower_seq(corpus.last()).len() == corpus.last().len());
        if corpus.last().len() == r.exact@.len() {
            assert(r.spec_matches(lower_seq(corpus.last())));
        }
    }
    lemma_matching_words_membership(corpus, r);
    let out = matching_words(corpus, r);
    assert forall|w: Seq<u8>| out.contains(w) implies corpus.contains(w) && w.len()
        == r.exact@.len() by {
        let k = choose|k: int| 0 <= k < out.len() && out[k] == w;
        assert(corpus.contains(out[k]));
        assert(r.spec_matches(lower_seq(out[k])));
        assert(lower_seq(w).len() == w.len());
    }
    assert forall|w: Seq<u8>| corpus.contains(w) && w.len() == r.exact@.len() implies out.contains(
        w,
    ) by {
        let i = choose|i: int| 0 <= i < corpus.len() && corpus[i] == w;
        assert(lower_seq(w).len() == w.len());
        assert(r.spec_matches(lower_seq(corpus[i])));
        assert(out.contains(corpus[i]));
    }
}

/// Idempotence: the result is a pure function of the corpus snapshot and the
/// request, so two invocations of the filter on the same arguments return
/// identical result sequences.
pub proof fn lemma_filter_idempotent(
    corpus: Seq<Seq<u8>>,
    r: LetterConstraintRequest,
    first: Seq<Seq<u8>>,
    second: Seq<Seq<u8>>,
)
    requires
        first == matching_words(corpus, r),
        second == matching_words(corpus, r),
    ensures
        first == second,
{
}

/// A required letter that no corpus word of the pattern's length contains
/// empties the result: the filter answers with an empty sequence, never an
/// error, on such a request.
pub proof fn lemma_required_letter_absent(
    corpus: Seq<Seq<u8>>,
    r: LetterConstraintRequest,
    c: u8,
)
    requires
        r.required@.contains(c),
        forall|i: int| 0 <= i < corpus.len() && (#[trigger] corpus[i]).len() == r.exact@.len()
            ==> !lower_seq(corpus[i]).contains(c),
    ensures
        matching_words(corpus, r).len() == 0,
{
    lemma_matching_words_membership(corpus, r);
    let out = matching_words(corpus, r);
    if out.len() > 0 {
        let w = out[0];
        assert(corpus.contains(w) && r.spec_matches(lower_seq(w)));
        let idx = choose|idx: int| 0 <= idx < corpus.len() && corpus[idx] == w;
        let j = choose|j: int| 0 <= j < r.required@.len() && r.required@[j] == c;
        assert(lower_seq(w).contains(r.required@[j]));
        assert(lower_seq(w).len() == w.len());
        assert(!lower_seq(corpus[idx]).contains(c));
        assert(false);
    }
}

/// A duplicate-free corpus yields a duplicate-free result: the filter never
/// introduces a word twice on its own.
pub proof fn lemma_distinct_corpus_distinct_result(
    corpus: Seq<Seq<u8>>,
    r: LetterConstraintRequest,
)
    requires
        forall|i: int, j: int| 0 <= i < j < corpus.len() ==> corpus[i] != corpus[j],
    ensures
        forall|i: int, j: int| 0 <= i < j < matching_words(corpus, r).len()
            ==> matching_words(corpus, r)[i] != matching_words(corpus, r)[j],
    decreases corpus.len(),
{
    if corpus.len() > 0 {
        let prefix = corpus.drop_last();
        let out = matching_words(corpus, r);
        let sub = matching_words(prefix, r);
        assert forall|i: int, j: int| 0 <= i < j < prefix.len() implies prefix[i] != prefix[j] by {
            assert(prefix[i] == corpus[i] && prefix[j] == corpus[j]);
        }
        lemma_distinct_corpus_distinct_result(prefix, r);
        lemma_matching_words_membership(prefix, r);
        assert forall|i: int, j: int| 0 <= i < j < out.len() implies out[i] != out[j] by {
            if j < sub.len() {
                assert(out[i] == sub[i] && out[j] == sub[j]);
            } else {
                assert(out[i] == sub[i] && out[j] == corpus.last());
                assert(prefix.contains(sub[i]));
                let idx = choose|idx: int| 0 <= idx < prefix.len() && prefix[idx] == sub[i];
                assert(corpus[idx] == prefix[idx]);
                assert(corpus[idx] != corpus[corpus.len() - 1]);
            }
        }
    }
}

/// The whole invocation as the caller sees it: the auth gate's verdict, the
/// corpus snapshot (`None` when the corpus could not be queried), and the
/// request. The filter runs only for an authorized caller, on a well-formed
/// request, over an available corpus; each failure is reported in that
/// order of precedence.
pub fn handle_request(
    authorized: bool,
    corpus: Option<&Vec<Vec<u8>>>,
    request: &LetterConstraintRequest,
) -> (res: Result<Vec<Vec<u8>>, FilterError>)
    ensures
        !authorized ==> res is Err && res->Err_0 == FilterError::Unauthorized,
        authorized && !request.wf() ==> res is Err && res->Err_0
            == FilterError::InvalidConstraint,
        authorized && request.wf() && corpus is None ==> res is Err && res->Err_0
            == FilterError::CorpusUnavailable,
        authorized && request.wf() && corpus is Some ==> res is Ok && views_of(res->Ok_0@)
            == matching_words(views_of(corpus->Some_0@), *request),
{
    if !authorized {
        return Err(FilterError::Unauthorized);
    }
    if !request.is_valid() {
        return Err(FilterError::InvalidConstraint);
    }
    match corpus {
        None => Err(FilterError::CorpusUnavailable),
        Some(c) => filter(c, request),
    }
}

} // verus!
