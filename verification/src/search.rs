//! Byte-pattern search.

use vstd::prelude::*;

verus! {

/// `pattern` occurs in `data` at offset `at`.
pub open spec fn occurs_at(data: Seq<u8>, pattern: Seq<u8>, at: int) -> bool {
    &&& 0 <= at
    &&& at + pattern.len() <= data.len()
    &&& data.subrange(at, at + pattern.len()) == pattern
}

/// `at` is the offset of the first occurrence of `pattern` in `data`.
pub open spec fn first_occurrence(data: Seq<u8>, pattern: Seq<u8>, at: int) -> bool {
    &&& occurs_at(data, pattern, at)
    &&& forall|j: int| 0 <= j < at ==> !occurs_at(data, pattern, j)
}

/// Whether `pattern` stands in `data` at offset `at`.
fn matches_at(data: &[u8], pattern: &[u8], at: usize) -> (r: bool)
    requires
        at + pattern@.len() <= data@.len(),
    ensures
        r == occurs_at(data@, pattern@, at as int),
{
    let n: usize = data.len();
    let mut k: usize = 0;
    while k < pattern.len()
        invariant
            n == data@.len(),
            k <= pattern@.len(),
            at + pattern@.len() <= data@.len(),
            forall|j: int| 0 <= j < k ==> data@[at + j] == pattern@[j],
        decreases pattern@.len() - k,
    {
        if data[at + k] != pattern[k] {
            assert(data@.subrange(at as int, at + pattern@.len())[k as int] == data@[at + k]);
            return false;
        }
        k += 1;
    }
    assert(data@.subrange(at as int, at + pattern@.len()) =~= pattern@);
    true
}

/// The offset of the first occurrence of `pattern` in `data`, if there is one.
/// The empty pattern occurs at offset zero.
pub fn find_first(data: &[u8], pattern: &[u8]) -> (r: Option<usize>)
    ensures
        match r {
            Some(at) => first_occurrence(data@, pattern@, at as int),
            None => forall|j: int| !occurs_at(data@, pattern@, j),
        },
        pattern@.len() == 0 ==> r == Some(0usize),
{
    if pattern.len() == 0 {
        assert(data@.subrange(0, 0) =~= pattern@);
        return Some(0);
    }
    if pattern.len() > data.len() {
        return None;
    }
    let n: usize = data.len();
    let last: usize = n - pattern.len();
    let mut at: usize = 0;
    while at <= last
        invariant
            n == data@.len(),
            last < n,
            at <= last + 1,
            last + pattern@.len() == data@.len(),
            forall|j: int| 0 <= j < at ==> !occurs_at(data@, pattern@, j),
        decreases last + 1 - at,
    {
        if matches_at(data, pattern, at) {
            return Some(at);
        }
        at += 1;
    }
    None
}

} // verus!
