//! The constraint data model: what a caller may ask of the word filter, and
//! when such a request is well formed.

use vstd::prelude::*;
use crate::WILDCARD;
use crate::is_lower_letter;
use crate::lower_seq;
use crate::word_to_lower;
use crate::word_contains;

verus! {

/// Why a request was refused or could not be answered.
#[derive(Clone, Copy, Debug, PartialEq, Eq, Structural)]
pub enum FilterError {
    /// The caller's credential was missing or rejected by the auth gate.
    Unauthorized,
    /// The constraint request is malformed or self-contradictory.
    InvalidConstraint,
    /// The word corpus could not be queried.
    CorpusUnavailable,
}

/// Every byte of `s` is a lower-case ASCII letter.
pub open spec fn all_lower_letters(s: Seq<u8>) -> bool {
    forall|i: int| 0 <= i < s.len() ==> is_lower_letter(#[trigger] s[i])
}

/// Every byte of `s` is a lower-case ASCII letter or the wildcard marker.
pub open spec fn pattern_wf(s: Seq<u8>) -> bool {
    forall|i: int| 0 <= i < s.len() ==> is_lower_letter(#[trigger] s[i]) || s[i] == WILDCARD
}

/// No byte occurs twice in `s`.
pub open spec fn no_dups(s: Seq<u8>) -> bool {
    forall|i: int, j: int| 0 <= i < j < s.len() ==> s[i] != s[j]
}

/// No byte of `a` occurs in `b`.
pub open spec fn disjoint_letters(a: Seq<u8>, b: Seq<u8>) -> bool {
    forall|i: int| 0 <= i < a.len() ==> !b.contains(#[trigger] a[i])
}

/// No pinned (non-wildcard) letter of the pattern `exact` occurs in
/// `excluded`: a position cannot demand a letter that is forbidden.
pub open spec fn pins_outside(exact: Seq<u8>, excluded: Seq<u8>) -> bool {
    forall|i: int| 0 <= i < exact.len() && #[trigger] exact[i] != WILDCARD
        ==> !excluded.contains(exact[i])
}

/// The unit of work submitted to the filter.
///
/// A value is well formed (`wf`) when the pattern is non-empty and made of
/// lower-case letters and wildcards, the letter sets hold lower-case letters,
/// `required` is duplicate-free, and the request is free of contradictions:
/// no letter is both required and excluded, and no pinned pattern letter is
/// excluded.
#[derive(Debug)]
pub struct LetterConstraintRequest {
    /// One byte per word position: a lower-case letter pins that position,
    /// `WILDCARD` leaves it free. Its length is the required word length.
    pub exact: Vec<u8>,
    /// Letters that must each occur somewhere in the word.
    pub required: Vec<u8>,
    /// Letters that must occur nowhere in the word.
    pub excluded: Vec<u8>,
}

impl LetterConstraintRequest {
    /// Well-formedness of the request.
    pub open spec fn wf(self) -> bool {
        &&& self.exact@.len() >= 1
        &&& pattern_wf(self.exact@)
        &&& all_lower_letters(self.required@)
        &&& all_lower_letters(self.excluded@)
        &&& no_dups(self.required@)
        &&& disjoint_letters(self.required@, self.excluded@)
        &&& pins_outside(self.exact@, self.excluded@)
    }

    /// Runtime check of well-formedness, exactly `wf`.
    pub fn is_valid(&self) -> (r: bool)
        ensures
            r == self.wf(),
    {
        self.exact.len() >= 1
            && check_pattern(&self.exact)
            && check_all_lower(&self.required)
            && check_all_lower(&self.excluded)
            && check_no_dups(&self.required)
            && check_disjoint(&self.required, &self.excluded)
            && check_pins_outside(&self.exact, &self.excluded)
    }
}

/// Acceptability of raw caller input, after lower-case canonicalization: a
/// non-empty pattern of letters and wildcards, letter-only required and
/// excluded sets, and no contradiction between them (no letter both required
/// and excluded, no pinned pattern letter excluded).
pub open spec fn request_acceptable(exact: Seq<u8>, required: Seq<u8>, excluded: Seq<u8>) -> bool {
    &&& lower_seq(exact).len() >= 1
    &&& pattern_wf(lower_seq(exact))
    &&& all_lower_letters(lower_seq(required))
    &&& all_lower_letters(lower_seq(excluded))
    &&& disjoint_letters(lower_seq(required), lower_seq(excluded))
    &&& pins_outside(lower_seq(exact), lower_seq(excluded))
}

impl LetterConstraintRequest {
    /// Canonicalizing constructor: lower-cases every letter, drops duplicate
    /// required letters, and rejects a malformed or self-contradictory
    /// request as `InvalidConstraint`.
    pub fn new(exact: &Vec<u8>, required: &Vec<u8>, excluded: &Vec<u8>) -> (res: Result<
        LetterConstraintRequest,
        FilterError,
    >)
        ensures
            res is Ok <==> request_acceptable(exact@, required@, excluded@),
            res is Err ==> res->Err_0 == FilterError::InvalidConstraint,
            res is Ok ==> ({
                let r = res->Ok_0;
                &&& r.wf()
                &&& r.exact@ == lower_seq(exact@)
                &&& r.excluded@ == lower_seq(excluded@)
                &&& forall|c: u8|
                    #![trigger r.required@.contains(c)]
                    #![trigger lower_seq(required@).contains(c)]
                    r.required@.contains(c) <==> lower_seq(required@).contains(c)
            }),
    {
        let lex = word_to_lower(exact);
        let lreq_all = word_to_lower(required);
        let lreq = dedup_bytes(&lreq_all);
        let lexc = word_to_lower(excluded);
        let cand = LetterConstraintRequest { exact: lex, required: lreq, excluded: lexc };
        if cand.is_valid() {
            proof {
                lemma_letters_transfer(cand.required@, lower_seq(required@));
                lemma_disjoint_transfer(cand.required@, lower_seq(required@), cand.excluded@);
                assert(request_acceptable(exact@, required@, excluded@));
            }
            Ok(cand)
        } else {
            proof {
                if request_acceptable(exact@, required@, excluded@) {
                    lemma_letters_transfer(lower_seq(required@), cand.required@);
                    lemma_disjoint_transfer(lower_seq(required@), cand.required@, cand.excluded@);
                    assert(cand.wf());
                    assert(false);
                }
            }
            Err(FilterError::InvalidConstraint)
        }
    }
}

/// `push` changes membership by exactly the pushed element.
proof fn lemma_contains_push(s: Seq<u8>, x: u8, c: u8)
    ensures
        s.push(x).contains(c) <==> c == x || s.contains(c),
{
    if s.push(x).contains(c) {
        let k = choose|k: int| 0 <= k < s.push(x).len() && s.push(x)[k] == c;
        if k < s.len() {
            assert(s[k] == c);
        }
    }
    if c == x {
        assert(s.push(x)[s.len() as int] == x);
    }
    if s.contains(c) {
        let k = choose|k: int| 0 <= k < s.len() && s[k] == c;
        assert(s.push(x)[k] == c);
    }
}

/// Two letter sets with the same members are letters-only together.
proof fn lemma_letters_transfer(a: Seq<u8>, b: Seq<u8>)
    requires
        forall|c: u8|
            #![trigger a.contains(c)]
            #![trigger b.contains(c)]
            a.contains(c) <==> b.contains(c),
        all_lower_letters(a),
    ensures
        all_lower_letters(b),
{
    assert forall|i: int| 0 <= i < b.len() implies is_lower_letter(#[trigger] b[i]) by {
        assert(b.contains(b[i]));
        let j = choose|j: int| 0 <= j < a.len() && a[j] == b[i];
        assert(is_lower_letter(a[j]));
    }
}

/// Two letter sets with the same members are disjoint from the same sets.
proof fn lemma_disjoint_transfer(a: Seq<u8>, b: Seq<u8>, excl: Seq<u8>)
    requires
        forall|c: u8|
            #![trigger a.contains(c)]
            #![trigger b.contains(c)]
            a.contains(c) <==> b.contains(c),
        disjoint_letters(a, excl),
    ensures
        disjoint_letters(b, excl),
{
    assert forall|i: int| 0 <= i < b.len() implies !excl.contains(#[trigger] b[i]) by {
        assert(b.contains(b[i]));
        let j = choose|j: int| 0 <= j < a.len() && a[j] == b[i];
        assert(!excl.contains(a[j]));
    }
}

/// Drops repeated bytes, keeping first occurrences: the result has no
/// duplicates and exactly the members of the input.
fn dedup_bytes(v: &Vec<u8>) -> (r: Vec<u8>)
    ensures
        no_dups(r@),
        forall|c: u8|
            #![trigger r@.contains(c)]
            #![trigger v@.contains(c)]
            r@.contains(c) <==> v@.contains(c),
{
    let mut out: Vec<u8> = Vec::new();
    let mut i: usize = 0;
    while i < v.len()
        invariant
            i <= v@.len(),
            no_dups(out@),
            forall|c: u8|
                #![trigger out@.contains(c)]
                #![trigger v@.contains(c)]
                out@.contains(c) <==> v@.subrange(0, i as int).contains(c),
        decreases v@.len() - i,
    {
        let b = v[i];
        let ghost pre = out@;
        if !word_contains(&out, b) {
            proof {
                assert forall|a: int| 0 <= a < pre.len() implies #[trigger] pre[a]
                    != v@[i as int] by {
                    if pre[a] == v@[i as int] {
                        assert(pre.contains(v@[i as int]));
                    }
                }
            }
            out.push(b);
            proof {
                assert forall|a: int, bb: int| 0 <= a < bb < out@.len() implies out@[a]
                    != out@[bb] by {
                    assert(out@[a] == pre[a]);
                    if bb < pre.len() {
                        assert(out@[bb] == pre[bb]);
                    } else {
                        assert(out@[bb] == v@[i as int]);
                    }
                }
            }
        }
        proof {
            assert(v@.subrange(0, i + 1) =~= v@.subrange(0, i as int).push(v@[i as int]));
            assert forall|c: u8|
                #![trigger out@.contains(c)]
                #![trigger v@.contains(c)]
                out@.contains(c) <==> v@.subrange(0, i + 1).contains(c) by {
                lemma_contains_push(pre, v@[i as int], c);
                lemma_contains_push(v@.subrange(0, i as int), v@[i as int], c);
                if !pre.contains(v@[i as int]) {
                    assert(out@ == pre.push(v@[i as int]));
                }
            }
        }
        i = i + 1;
    }
    proof {
        assert(v@.subrange(0, v@.len() as int) =~= v@);
    }
    out
}

/// Runtime check of `all_lower_letters`.
fn check_all_lower(v: &Vec<u8>) -> (r: bool)
    ensures
        r == all_lower_letters(v@),
{
    let mut i: usize = 0;
    while i < v.len()
        invariant
            i <= v@.len(),
            forall|k: int| 0 <= k < i ==> is_lower_letter(#[trigger] v@[k]),
        decreases v@.len() - i,
    {
        let b = v[i];
        if !(97 <= b && b <= 122) {
            assert(!is_lower_letter(v@[i as int]));
            return false;
        }
        i = i + 1;
    }
    true
}

/// Runtime check of `pattern_wf`.
fn check_pattern(v: &Vec<u8>) -> (r: bool)
    ensures
        r == pattern_wf(v@),
{
    let mut i: usize = 0;
    while i < v.len()
        invariant
            i <= v@.len(),
            forall|k: int| 0 <= k < i ==> is_lower_letter(#[trigger] v@[k]) || v@[k] == WILDCARD,
        decreases v@.len() - i,
    {
        let b = v[i];
        if !((97 <= b && b <= 122) || b == WILDCARD) {
            assert(!(is_lower_letter(v@[i as int]) || v@[i as int] == WILDCARD));
            return false;
        }
        i = i + 1;
    }
    true
}

/// Runtime check of `no_dups`.
fn check_no_dups(v: &Vec<u8>) -> (r: bool)
    ensures
        r == no_dups(v@),
{
    let mut j: usize = 0;
    while j < v.len()
        invariant
            j <= v@.len(),
            forall|a: int, b: int| 0 <= a < b < j ==> v@[a] != v@[b],
        decreases v@.len() - j,
    {
        let mut k: usize = 0;
        while k < j
            invariant
                j < v@.len(),
                k <= j,
                forall|a: int| 0 <= a < k ==> v@[a] != v@[j as int],
                forall|a: int, b: int| 0 <= a < b < j ==> v@[a] != v@[b],
            decreases j - k,
        {
            if v[k] == v[j] {
                assert(v@[k as int] == v@[j as int]);
                return false;
            }
            k = k + 1;
        }
        j = j + 1;
    }
    true
}

/// Runtime check of `disjoint_letters`.
fn check_disjoint(a: &Vec<u8>, b: &Vec<u8>) -> (r: bool)
    ensures
        r == disjoint_letters(a@, b@),
{
    let mut i: usize = 0;
    while i < a.len()
        invariant
            i <= a@.len(),
            forall|k: int| 0 <= k < i ==> !b@.contains(#[trigger] a@[k]),
        decreases a@.len() - i,
    {
        if word_contains(b, a[i]) {
            return false;
        }
        i = i + 1;
    }
    true
}

/// Runtime check of `pins_outside`.
fn check_pins_outside(exact: &Vec<u8>, excluded: &Vec<u8>) -> (r: bool)
    ensures
        r == pins_outside(exact@, excluded@),
{
    let mut i: usize = 0;
    while i < exact.len()
        invariant
            i <= exact@.len(),
            forall|k: int| 0 <= k < i && #[trigger] exact@[k] != WILDCARD
                ==> !excluded@.contains(exact@[k]),
        decreases exact@.len() - i,
    {
        let e = exact[i];
        if e != WILDCARD {
            if word_contains(excluded, e) {
                return false;
            }
        }
        i = i + 1;
    }
    true
}

} // verus!
