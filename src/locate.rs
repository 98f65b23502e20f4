//! Finding byte markers in a buffer.
use vstd::prelude::*;

verus! {

/// `pat` occurs in `h` starting at index `i`.
pub open spec fn matches_at(h: Seq<u8>, pat: Seq<u8>, i: int) -> bool {
    0 <= i && i + pat.len() <= h.len() && h.subrange(i, i + pat.len()) == pat
}

/// `i` is the lowest index at which `pat` occurs in `h`.
pub open spec fn is_first_match(h: Seq<u8>, pat: Seq<u8>, i: int) -> bool {
    matches_at(h, pat, i) && forall|j: int| 0 <= j < i ==> !matches_at(h, pat, j)
}

/// The lowest index at which `pat` occurs in `h`, if it occurs at all.
#[verifier::opaque]
pub open spec fn first_match(h: Seq<u8>, pat: Seq<u8>) -> Option<int> {
    if exists|i: int| is_first_match(h, pat, i) {
        Some(choose|i: int| is_first_match(h, pat, i))
    } else {
        None
    }
}

/// The first match is unique, so `first_match` names exactly the index that
/// `is_first_match` describes.
pub proof fn lemma_first_match_is(h: Seq<u8>, pat: Seq<u8>, i: int)
    requires
        is_first_match(h, pat, i),
    ensures
        first_match(h, pat) == Some(i),
{
    reveal(first_match);
    let k = choose|k: int| is_first_match(h, pat, k);
    assert(is_first_match(h, pat, k));
    if k < i {
        assert(!matches_at(h, pat, k));
    } else if i < k {
        assert(!matches_at(h, pat, i));
    }
}

/// Where `pat` occurs nowhere, there is no first match.
pub proof fn lemma_no_match(h: Seq<u8>, pat: Seq<u8>)
    requires
        forall|i: int| !matches_at(h, pat, i),
    ensures
        first_match(h, pat) == None::<int>,
{
    reveal(first_match);
}

/// A first match is a match, with none before it.
pub proof fn lemma_first_match_found(h: Seq<u8>, pat: Seq<u8>)
    requires
        first_match(h, pat) is Some,
    ensures
        is_first_match(h, pat, first_match(h, pat).unwrap()),
{
    reveal(first_match);
}

/// Relies on memchr::memmem::find: the index of the first occurrence of the
/// needle in the haystack, or `None` where it does not occur.
#[verifier::external_body]
fn memmem_find(haystack: &[u8], needle: &[u8]) -> (r: Option<usize>)
    ensures
        match r {
            Some(i) => is_first_match(haystack@, needle@, i as int),
            None => forall|i: int| !matches_at(haystack@, needle@, i),
        },
{
    memchr::memmem::find(haystack, needle)
}

/// The lowest index of `buf` at which `pat` occurs.
pub fn find(buf: &[u8], pat: &[u8]) -> (r: Option<usize>)
    ensures
        r matches Some(i) ==> first_match(buf@, pat@) == Some(i as int),
        r matches Some(i) ==> matches_at(buf@, pat@, i as int),
        r is None ==> first_match(buf@, pat@) is None,
{
    let r = memmem_find(buf, pat);
    proof {
        match r {
            Some(i) => lemma_first_match_is(buf@, pat@, i as int),
            None => lemma_no_match(buf@, pat@),
        }
    }
    r
}

/// The lowest index `i` with `from <= i` at which `pat` occurs within
/// `buf[from..to]`, as an index into `buf`.
pub fn find_in(buf: &[u8], from: usize, to: usize, pat: &[u8]) -> (r: Option<usize>)
    requires
        from <= to <= buf@.len(),
    ensures
        r matches Some(i) ==> first_match(buf@.subrange(from as int, to as int), pat@) == Some(
            i - from,
        ),
        r matches Some(i) ==> from <= i && matches_at(
            buf@.subrange(from as int, to as int),
            pat@,
            i - from,
        ),
        r is None ==> first_match(buf@.subrange(from as int, to as int), pat@) is None,
{
    let part = vstd::slice::slice_subrange(buf, from, to);
    match find(part, pat) {
        Some(i) => {
            Some(from + i)
        },
        None => None,
    }
}

/// A buffer that agrees with `h` up to the end of the first match of `pat`
/// has its first match at the same index.
pub proof fn lemma_first_match_kept(h: Seq<u8>, h2: Seq<u8>, pat: Seq<u8>, i: int)
    requires
        first_match(h, pat) == Some(i),
        i + pat.len() <= h2.len(),
        forall|x: int| 0 <= x < i + pat.len() ==> h2[x] == h[x],
    ensures
        first_match(h2, pat) == Some(i),
{
    lemma_first_match_found(h, pat);
    assert(h2.subrange(i, i + pat.len()) =~= h.subrange(i, i + pat.len()));
    assert forall|j: int| 0 <= j < i implies !matches_at(h2, pat, j) by {
        assert(!matches_at(h, pat, j));
        if matches_at(h2, pat, j) {
            assert(h2.subrange(j, j + pat.len()) =~= h.subrange(j, j + pat.len()));
        }
    }
    lemma_first_match_is(h2, pat, i);
}

} // verus!
