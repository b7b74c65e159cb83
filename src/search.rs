//! Exact byte-sequence search, forward from an offset and backward over a
//! whole buffer, backed by the `twoway` crate.
use vstd::prelude::*;

verus! {

/// `pattern` occurs in `text` starting at position `i`.
pub open spec fn matches_at(text: Seq<u8>, pattern: Seq<u8>, i: int) -> bool {
    &&& 0 <= i
    &&& i + pattern.len() <= text.len()
    &&& text.subrange(i, i + pattern.len()) == pattern
}

/// `i` is the first position at or after `from` where `pattern` occurs.
pub open spec fn is_first_match(text: Seq<u8>, pattern: Seq<u8>, from: int, i: int) -> bool {
    &&& from <= i
    &&& matches_at(text, pattern, i)
    &&& forall|j: int| from <= j < i ==> !matches_at(text, pattern, j)
}

/// `pattern` occurs somewhere at or after `from`.
pub open spec fn has_match_from(text: Seq<u8>, pattern: Seq<u8>, from: int) -> bool {
    exists|i: int| from <= i && matches_at(text, pattern, i)
}

/// `i` is the last position where `pattern` occurs.
pub open spec fn is_last_match(text: Seq<u8>, pattern: Seq<u8>, i: int) -> bool {
    &&& matches_at(text, pattern, i)
    &&& forall|j: int| i < j ==> !matches_at(text, pattern, j)
}

/// Relies on twoway::find_bytes: the first occurrence of `pattern` in
/// `text[from..]`, as an index into that tail.
#[verifier::external_body]
fn find_in_tail(text: &[u8], from: usize, pattern: &[u8]) -> (r: Option<usize>)
    requires
        from <= text@.len(),
    ensures
        match r {
            Some(i) => is_first_match(text@.subrange(from as int, text@.len() as int), pattern@, 0, i as int),
            None => !has_match_from(text@.subrange(from as int, text@.len() as int), pattern@, 0),
        },
{
    twoway::find_bytes(&text[from..], pattern)
}

/// Relies on twoway::rfind_bytes: the start of the last occurrence of
/// `pattern` in `text`.
#[verifier::external_body]
pub(crate) fn rfind(text: &[u8], pattern: &[u8]) -> (r: Option<usize>)
    ensures
        match r {
            Some(i) => is_last_match(text@, pattern@, i as int),
            None => !has_match_from(text@, pattern@, 0),
        },
{
    twoway::rfind_bytes(text, pattern)
}

/// First occurrence of `pattern` in `text` at or after `from`, as an index
/// into `text`. An offset past the end finds nothing.
pub fn find_from(text: &[u8], from: usize, pattern: &[u8]) -> (r: Option<usize>)
    ensures
        match r {
            Some(i) => is_first_match(text@, pattern@, from as int, i as int),
            None => !has_match_from(text@, pattern@, from as int),
        },
{
    if from > text.len() {
        assert forall|i: int| from <= i && matches_at(text@, pattern@, i) implies false by {}
        return None;
    }
    let ghost tail = text@.subrange(from as int, text@.len() as int);
    match find_in_tail(text, from, pattern) {
        Some(k) => {
            assert(k as int + pattern@.len() <= tail.len());
            let i = from + k;
            assert(text@.subrange(i as int, i + pattern@.len()) =~= tail.subrange(k as int, k + pattern@.len()));
            assert forall|j: int| from <= j < i implies !matches_at(text@, pattern@, j) by {
                if matches_at(text@, pattern@, j) {
                    assert(tail.subrange(j - from, j - from + pattern@.len()) =~= text@.subrange(j, j + pattern@.len()));
                    assert(matches_at(tail, pattern@, j - from));
                }
            }
            Some(i)
        },
        None => {
            assert forall|i: int| from <= i && matches_at(text@, pattern@, i) implies false by {
                assert(tail.subrange(i - from, i - from + pattern@.len()) =~= text@.subrange(i, i + pattern@.len()));
                assert(matches_at(tail, pattern@, i - from));
            }
            None
        },
    }
}

} // verus!
