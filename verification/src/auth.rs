//! Bearer-credential extraction: the computational part of reading an
//! `Authorization` header. Whether the extracted token is valid is the auth
//! gate's decision, not made here.

use vstd::prelude::*;

verus! {

/// The scheme prefix of a bearer header value: the bytes of `"Bearer "`.
pub open spec fn bearer_prefix() -> Seq<u8> {
    seq![66u8, 101u8, 97u8, 114u8, 101u8, 114u8, 32u8]
}

/// Whether `s` starts with the bearer scheme prefix.
pub open spec fn has_bearer_prefix(s: Seq<u8>) -> bool {
    s.len() >= 7 && s.subrange(0, 7) == bearer_prefix()
}

/// `s` with every leading repetition of the bearer prefix removed.
pub open spec fn strip_bearer(s: Seq<u8>) -> Seq<u8>
    decreases s.len(),
{
    if has_bearer_prefix(s) {
        strip_bearer(s.subrange(7, s.len() as int))
    } else {
        s
    }
}

/// Whether the suffix of `v` that starts at `start` begins with the bearer
/// prefix.
fn has_prefix_at(v: &Vec<u8>, start: usize) -> (r: bool)
    requires
        start <= v@.len(),
    ensures
        r == has_bearer_prefix(v@.subrange(start as int, v@.len() as int)),
{
    let ghost sub = v@.subrange(start as int, v@.len() as int);
    if v.len() - start < 7 {
        return false;
    }
    let ok = v[start] == 66 && v[start + 1] == 101 && v[start + 2] == 97 && v[start + 3] == 114
        && v[start + 4] == 101 && v[start + 5] == 114 && v[start + 6] == 32;
    proof {
        assert(sub.len() >= 7);
        if ok {
            assert(sub.subrange(0, 7) =~= bearer_prefix());
        } else {
            if sub.subrange(0, 7) == bearer_prefix() {
                assert(forall|k: int| 0 <= k < 7 ==> sub.subrange(0, 7)[k] == bearer_prefix()[k]);
                assert(false);
            }
        }
    }
    ok
}

/// Reads a bearer credential out of an `Authorization` header value: `Some`
/// exactly when the value starts with the `"Bearer "` scheme, carrying the
/// value with every leading repetition of that scheme removed.
pub fn get_bearer_token(header: &Vec<u8>) -> (r: Option<Vec<u8>>)
    ensures
        r is Some <==> has_bearer_prefix(header@),
        r is Some ==> r->Some_0@ == strip_bearer(header@),
{
    let first = has_prefix_at(header, 0);
    proof {
        assert(header@.subrange(0, header@.len() as int) =~= header@);
    }
    if !first {
        return None;
    }
    let hlen = header.len();
    let mut start: usize = 0;
    let mut go = true;
    while go
        invariant
            hlen == header@.len(),
            start <= header@.len(),
            go == has_bearer_prefix(header@.subrange(start as int, header@.len() as int)),
            strip_bearer(header@) == strip_bearer(
                header@.subrange(start as int, header@.len() as int),
            ),
        decreases header@.len() - start,
    {
        proof {
            let sub = header@.subrange(start as int, header@.len() as int);
            assert(sub.len() >= 7);
            assert(start + 7 <= header@.len());
            assert(sub.subrange(7, sub.len() as int) =~= header@.subrange(
                start + 7,
                header@.len() as int,
            ));
        }
        start = start + 7;
        go = has_prefix_at(header, start);
    }
    let mut out: Vec<u8> = Vec::new();
    let mut i: usize = start;
    while i < header.len()
        invariant
            start <= i <= header@.len(),
            out@ =~= header@.subrange(start as int, i as int),
        decreases header@.len() - i,
    {
        out.push(header[i]);
        assert(out@ =~= header@.subrange(start as int, i + 1));
        i = i + 1;
    }
    Some(out)
}

} // verus!
