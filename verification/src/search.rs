use vstd::prelude::*;

verus! {

/// Whether `needle` occurs in `haystack` starting at index `i`.
pub open spec fn occurs_at(haystack: Seq<u8>, needle: Seq<u8>, i: int) -> bool {
    0 <= i && i + needle.len() <= haystack.len() && haystack.subrange(
        i,
        i + needle.len(),
    ) == needle
}

/// The largest index `i < k` at which `needle` occurs in `haystack`, if any.
pub open spec fn last_occurrence_below(haystack: Seq<u8>, needle: Seq<u8>, k: nat) -> Option<
    usize,
>
    decreases k,
{
    if k == 0 {
        None
    } else if occurs_at(haystack, needle, k - 1) {
        Some((k - 1) as usize)
    } else {
        last_occurrence_below(haystack, needle, (k - 1) as nat)
    }
}

/// The index of the last occurrence of `needle` in `haystack`, if any.
pub open spec fn spec_rfind(haystack: Seq<u8>, needle: Seq<u8>) -> Option<usize> {
    last_occurrence_below(haystack, needle, (haystack.len() + 1) as nat)
}

/// The smallest index `i >= k` at which `needle` occurs in `haystack`, if any.
pub open spec fn first_occurrence_from(haystack: Seq<u8>, needle: Seq<u8>, k: nat) -> Option<
    usize,
>
    decreases haystack.len() + 1 - k when k <= haystack.len() + 1
{
    if k > haystack.len() {
        None
    } else if occurs_at(haystack, needle, k as int) {
        Some(k as usize)
    } else {
        first_occurrence_from(haystack, needle, (k + 1) as nat)
    }
}

/// The index of the first occurrence of `needle` in `haystack`, if any.
pub open spec fn spec_find(haystack: Seq<u8>, needle: Seq<u8>) -> Option<usize> {
    first_occurrence_from(haystack, needle, 0)
}

/// Relies on memchr::memmem::rfind: it returns the index of the last
/// occurrence of `needle` in `haystack`, or None when `needle` does not occur.
#[verifier::external_body]
pub fn rfind_bytes(haystack: &Vec<u8>, needle: &Vec<u8>) -> (r: Option<usize>)
    requires
        needle@.len() >= 1,
    ensures
        r == spec_rfind(haystack@, needle@),
{
    memchr::memmem::rfind(haystack, needle)
}

/// Relies on memchr::memmem::find: it returns the index of the first
/// occurrence of `needle` in `haystack`, or None when `needle` does not occur.
#[verifier::external_body]
pub fn find_bytes(haystack: &Vec<u8>, needle: &Vec<u8>) -> (r: Option<usize>)
    requires
        needle@.len() >= 1,
    ensures
        r == spec_find(haystack@, needle@),
{
    memchr::memmem::find(haystack, needle)
}

/// What `spec_rfind` returning an index means: the needle occurs there and
/// nowhere later.
pub proof fn lemma_last_occurrence_below(haystack: Seq<u8>, needle: Seq<u8>, k: nat)
    requires
        k <= usize::MAX + 1,
    ensures
        match last_occurrence_below(haystack, needle, k) {
            Some(i) => occurs_at(haystack, needle, i as int) && i < k && forall|j: int|
                i < j < k ==> !occurs_at(haystack, needle, j),
            None => forall|j: int| 0 <= j < k ==> !occurs_at(haystack, needle, j),
        },
    decreases k,
{
    if k > 0 {
        lemma_last_occurrence_below(haystack, needle, (k - 1) as nat);
    }
}

/// What `spec_rfind` says of the whole haystack: a returned index is the last
/// occurrence; None means the needle occurs nowhere.
pub proof fn lemma_rfind_characterization(haystack: Seq<u8>, needle: Seq<u8>)
    requires
        haystack.len() <= usize::MAX,
    ensures
        match spec_rfind(haystack, needle) {
            Some(i) => occurs_at(haystack, needle, i as int) && forall|j: int|
                j > i ==> !occurs_at(haystack, needle, j),
            None => forall|j: int| !occurs_at(haystack, needle, j),
        },
{
    lemma_last_occurrence_below(haystack, needle, (haystack.len() + 1) as nat);
    assert(forall|j: int|
        j >= haystack.len() + 1 || j < 0 ==> !occurs_at(haystack, needle, j));
}

/// What `spec_find` says: a returned index is the first occurrence; None
/// means the needle occurs nowhere.
pub proof fn lemma_first_occurrence_from(haystack: Seq<u8>, needle: Seq<u8>, k: nat)
    requires
        k <= haystack.len() + 1,
        haystack.len() <= usize::MAX,
    ensures
        match first_occurrence_from(haystack, needle, k) {
            Some(i) => occurs_at(haystack, needle, i as int) && k <= i && forall|j: int|
                k <= j < i ==> !occurs_at(haystack, needle, j),
            None => forall|j: int| k <= j ==> !occurs_at(haystack, needle, j),
        },
    decreases haystack.len() + 1 - k,
{
    if k <= haystack.len() {
        lemma_first_occurrence_from(haystack, needle, (k + 1) as nat);
    }
}

/// What `spec_find` says of the whole haystack.
pub proof fn lemma_find_characterization(haystack: Seq<u8>, needle: Seq<u8>)
    requires
        haystack.len() <= usize::MAX,
    ensures
        match spec_find(haystack, needle) {
            Some(i) => occurs_at(haystack, needle, i as int) && forall|j: int|
                0 <= j < i ==> !occurs_at(haystack, needle, j),
            None => forall|j: int| !occurs_at(haystack, needle, j),
        },
{
    lemma_first_occurrence_from(haystack, needle, 0);
}

} // verus!
