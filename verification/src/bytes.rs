//! Searching and comparing byte strings.

use vstd::prelude::*;

verus! {

/// `needle` occurs in `haystack` starting at byte `i`.
pub open spec fn occurs_at(haystack: Seq<u8>, needle: Seq<u8>, i: int) -> bool {
    &&& 0 <= i
    &&& i + needle.len() <= haystack.len()
    &&& haystack.subrange(i, i + needle.len()) == needle
}

/// The position of the first occurrence of `needle` in `haystack`, if any.
#[verifier::opaque]
pub open spec fn first_occurrence(haystack: Seq<u8>, needle: Seq<u8>) -> Option<int> {
    if exists|i: int| occurs_at(haystack, needle, i) {
        Some(choose|i: int| occurs_at(haystack, needle, i) && forall|j: int| 0 <= j < i ==> !occurs_at(haystack, needle, j))
    } else {
        None
    }
}

/// What `first_occurrence` returns is the first position of the needle.
pub proof fn lemma_first_occurrence(haystack: Seq<u8>, needle: Seq<u8>)
    ensures
        match first_occurrence(haystack, needle) {
            Some(i) => occurs_at(haystack, needle, i) && forall|j: int|
                0 <= j < i ==> !occurs_at(haystack, needle, j),
            None => forall|j: int| !occurs_at(haystack, needle, j),
        },
{
    reveal(first_occurrence);
    if exists|i: int| occurs_at(haystack, needle, i) {
        let i = choose|i: int| occurs_at(haystack, needle, i);
        lemma_first_exists(haystack, needle, i);
    }
}

proof fn lemma_first_exists(haystack: Seq<u8>, needle: Seq<u8>, i: int)
    requires
        occurs_at(haystack, needle, i),
    ensures
        exists|w: int|
            occurs_at(haystack, needle, w) && forall|j: int|
                0 <= j < w ==> !occurs_at(haystack, needle, j),
    decreases i,
{
    if exists|j: int| 0 <= j < i && occurs_at(haystack, needle, j) {
        let j = choose|j: int| 0 <= j < i && occurs_at(haystack, needle, j);
        lemma_first_exists(haystack, needle, j);
    }
}

/// Any position with the needle and none before it is the first occurrence.
pub proof fn lemma_first_occurrence_at(haystack: Seq<u8>, needle: Seq<u8>, i: int)
    requires
        occurs_at(haystack, needle, i),
        forall|j: int| 0 <= j < i ==> !occurs_at(haystack, needle, j),
    ensures
        first_occurrence(haystack, needle) == Some(i),
{
    lemma_first_occurrence(haystack, needle);
    let w = first_occurrence(haystack, needle).unwrap();
    if w < i {
    } else if w > i {
    }
}

/// A byte that does not occur is not found.
pub proof fn lemma_byte_absent(s: Seq<u8>, b: u8)
    requires
        forall|i: int| 0 <= i < s.len() ==> s[i] != b,
    ensures
        first_occurrence(s, seq![b]) is None,
{
    lemma_first_occurrence(s, seq![b]);
    if let Some(k) = first_occurrence(s, seq![b]) {
        assert(s.subrange(k, k + 1)[0] == s[k]);
    }
}

/// A byte is found where it first occurs.
pub proof fn lemma_byte_first_at(s: Seq<u8>, b: u8, k: int)
    requires
        0 <= k < s.len(),
        s[k] == b,
        forall|i: int| 0 <= i < k ==> s[i] != b,
    ensures
        first_occurrence(s, seq![b]) == Some(k),
{
    assert(s.subrange(k, k + 1) =~= seq![b]);
    assert forall|j: int| 0 <= j < k implies !occurs_at(s, seq![b], j) by {
        if occurs_at(s, seq![b], j) {
            assert(s.subrange(j, j + 1)[0] == s[j]);
        }
    }
    lemma_first_occurrence_at(s, seq![b], k);
}

/// Whether two byte strings are equal.
pub fn bytes_eq(a: &[u8], b: &[u8]) -> (res: bool)
    ensures
        res == (a@ == b@),
{
    if a.len() != b.len() {
        return false;
    }
    let r = matches_at(a, b, 0);
    assert(a@.subrange(0, b@.len() as int) =~= a@);
    r
}

/// Whether `s` begins with `prefix`.
pub fn starts_with(s: &[u8], prefix: &[u8]) -> (res: bool)
    ensures
        res == (prefix@.len() <= s@.len() && s@.subrange(0, prefix@.len() as int) == prefix@),
{
    if prefix.len() > s.len() {
        return false;
    }
    matches_at(s, prefix, 0)
}

fn matches_at(haystack: &[u8], needle: &[u8], i: usize) -> (res: bool)
    requires
        i + needle@.len() <= haystack@.len(),
    ensures
        res == occurs_at(haystack@, needle@, i as int),
{
    let mut k: usize = 0;
    while k < needle.len()
        invariant
            k <= needle@.len(),
            i + needle.len() <= haystack.len(),
            forall|m: int| 0 <= m < k ==> haystack@[i + m] == needle@[m],
        decreases needle@.len() - k,
    {
        if haystack[i + k] != needle[k] {
            assert(haystack@.subrange(i as int, i + needle@.len())[k as int] != needle@[k as int]);
            return false;
        }
        k = k + 1;
    }
    assert(haystack@.subrange(i as int, i + needle@.len()) =~= needle@);
    true
}

/// Finds the first position at which `needle` occurs in `haystack`.
/// The needle must not be empty.
pub fn find_bytes(haystack: &[u8], needle: &[u8]) -> (res: Option<usize>)
    requires
        needle@.len() > 0,
    ensures
        match res {
            Some(i) => occurs_at(haystack@, needle@, i as int) && forall|j: int|
                0 <= j < i ==> !occurs_at(haystack@, needle@, j),
            None => forall|j: int| !occurs_at(haystack@, needle@, j),
        },
        res matches Some(i) ==> first_occurrence(haystack@, needle@) == Some(i as int),
        res is None ==> first_occurrence(haystack@, needle@) is None,
{
    if needle.len() > haystack.len() {
        proof {
            lemma_first_occurrence(haystack@, needle@);
        }
        return None;
    }
    let last = haystack.len() - needle.len();
    let mut i: usize = 0;
    while i <= last
        invariant
            last == haystack.len() - needle.len(),
            needle.len() > 0,
            i <= last + 1,
            forall|j: int| 0 <= j < i ==> !occurs_at(haystack@, needle@, j),
        decreases last + 1 - i,
    {
        if matches_at(haystack, needle, i) {
            proof {
                lemma_first_occurrence_at(haystack@, needle@, i as int);
            }
            return Some(i);
        }
        i = i + 1;
    }
    proof {
        lemma_first_occurrence(haystack@, needle@);
    }
    None
}

} // verus!
