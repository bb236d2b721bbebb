//! The header block of a raw message.

use vstd::prelude::*;

verus! {

/// `needle` occurs in `hay` starting at position `i`.
pub open spec fn occurs_at(hay: Seq<u8>, needle: Seq<u8>, i: int) -> bool {
    0 <= i && i + needle.len() <= hay.len() && hay.subrange(i, i + needle.len()) == needle
}

/// `i` is the first position where `needle` occurs in `hay`.
pub open spec fn is_first_occurrence(hay: Seq<u8>, needle: Seq<u8>, i: int) -> bool {
    occurs_at(hay, needle, i) && forall|j: int| 0 <= j < i ==> !occurs_at(hay, needle, j)
}

/// The first position where `needle` occurs in `hay`, if it occurs.
pub open spec fn first_occurrence(hay: Seq<u8>, needle: Seq<u8>) -> Option<int> {
    if exists|i: int| occurs_at(hay, needle, i) {
        Some(choose|i: int| is_first_occurrence(hay, needle, i))
    } else {
        None
    }
}

/// An occurrence implies a first one.
pub proof fn lemma_first_exists(hay: Seq<u8>, needle: Seq<u8>, i: int)
    requires
        occurs_at(hay, needle, i),
    ensures
        exists|k: int| is_first_occurrence(hay, needle, k),
    decreases i,
{
    if exists|j: int| 0 <= j < i && occurs_at(hay, needle, j) {
        let j = choose|j: int| 0 <= j < i && occurs_at(hay, needle, j);
        lemma_first_exists(hay, needle, j);
    } else {
        assert(is_first_occurrence(hay, needle, i));
    }
}

/// `first_occurrence` finds an occurrence that no earlier one precedes.
pub proof fn lemma_first_occurrence_is_first(hay: Seq<u8>, needle: Seq<u8>)
    ensures
        match first_occurrence(hay, needle) {
            Some(p) => is_first_occurrence(hay, needle, p),
            None => forall|j: int| !occurs_at(hay, needle, j),
        },
{
    if exists|i: int| occurs_at(hay, needle, i) {
        let i = choose|i: int| occurs_at(hay, needle, i);
        lemma_first_exists(hay, needle, i);
    }
}

pub proof fn lemma_first_occurrence(hay: Seq<u8>, needle: Seq<u8>, i: int)
    requires
        is_first_occurrence(hay, needle, i),
    ensures
        first_occurrence(hay, needle) == Some(i),
{
    let c = choose|k: int| is_first_occurrence(hay, needle, k);
    assert(is_first_occurrence(hay, needle, c));
    if c < i {
        assert(!occurs_at(hay, needle, c));
    } else if i < c {
        assert(!occurs_at(hay, needle, i));
    }
}

/// Whether `needle` occurs in `haystack` at position `i`.
fn occurs_at_exec(haystack: &[u8], needle: &[u8], i: usize) -> (r: bool)
    requires
        i + needle@.len() <= haystack@.len(),
    ensures
        r == occurs_at(haystack@, needle@, i as int),
{
    let n = needle.len();
    let hl = haystack.len();
    let mut k: usize = 0;
    while k < n
        invariant
            k <= n,
            hl == haystack@.len(),
            n == needle@.len(),
            i + n <= haystack@.len(),
            haystack@.subrange(i as int, i + k) == needle@.take(k as int),
        decreases n - k,
    {
        if haystack[i + k] != needle[k] {
            assert(haystack@.subrange(i as int, i + n)[k as int] != needle@[k as int]);
            return false;
        }
        assert(haystack@.subrange(i as int, i + k + 1) =~= haystack@.subrange(i as int, i + k).push(
            haystack@[i + k],
        ));
        assert(needle@.take(k + 1) =~= needle@.take(k as int).push(needle@[k as int]));
        k = k + 1;
    }
    assert(needle@.take(n as int) =~= needle@);
    true
}

/// The first position where `needle` occurs in `haystack`, scanning windows
/// of the needle's length from the front. An empty needle has no windows to
/// scan, so it is not accepted.
pub fn find_subsequence(haystack: &[u8], needle: &[u8]) -> (r: Option<usize>)
    requires
        needle@.len() > 0,
    ensures
        match r {
            Some(i) => first_occurrence(haystack@, needle@) == Some(i as int),
            None => first_occurrence(haystack@, needle@) is None,
        },
{
    let n = needle.len();
    if haystack.len() < n {
        assert forall|j: int| !occurs_at(haystack@, needle@, j) by {}
        return None;
    }
    let last = haystack.len() - n;
    let mut i: usize = 0;
    while i <= last
        invariant
            n == needle@.len(),
            n >= 1,
            last + n == haystack@.len(),
            haystack@.len() <= usize::MAX,
            i <= last + 1,
            forall|j: int| 0 <= j < i ==> !occurs_at(haystack@, needle@, j),
        decreases last + 1 - i,
    {
        if occurs_at_exec(haystack, needle, i) {
            proof {
                lemma_first_occurrence(haystack@, needle@, i as int);
            }
            return Some(i);
        }
        i = i + 1;
    }
    assert forall|j: int| !occurs_at(haystack@, needle@, j) by {
        if 0 <= j < i {
        }
    }
    None
}

/// The text of `bytes` decoded as UTF-8, each invalid sequence replaced by
/// U+FFFD, as `String::from_utf8_lossy` computes it.
pub uninterp spec fn utf8_lossy(bytes: Seq<u8>) -> Seq<char>;

/// Decodes `bytes` with `String::from_utf8_lossy`. Its documentation states
/// that valid UTF-8 is decoded as it stands; how invalid sequences are
/// replaced is left to the name `utf8_lossy`.
#[verifier::external_body]
pub(crate) fn decode_utf8_lossy(bytes: &[u8]) -> (r: String)
    ensures
        r@ == utf8_lossy(bytes@),
        vstd::utf8::valid_utf8(bytes@) ==> r@ == vstd::utf8::decode_utf8(bytes@),
{
    String::from_utf8_lossy(bytes).into_owned()
}

/// The blank line that ends a header block written with CRLF line ends.
pub open spec fn crlf_blank_line() -> Seq<u8> {
    seq![13u8, 10u8, 13u8, 10u8]
}

/// The blank line that ends a header block written with LF line ends.
pub open spec fn lf_blank_line() -> Seq<u8> {
    seq![10u8, 10u8]
}

/// Where the header block of `raw` ends: at its first blank line, written
/// with CRLF or with LF, whichever comes first; else at its end.
pub open spec fn header_end(raw: Seq<u8>) -> int {
    match (first_occurrence(raw, crlf_blank_line()), first_occurrence(raw, lf_blank_line())) {
        (Some(p), Some(q)) => if p <= q { p } else { q },
        (Some(p), None) => p,
        (None, Some(q)) => q,
        (None, None) => raw.len() as int,
    }
}

pub proof fn lemma_header_end_bounds(raw: Seq<u8>)
    ensures
        0 <= header_end(raw) <= raw.len(),
{
    lemma_first_occurrence_is_first(raw, crlf_blank_line());
    lemma_first_occurrence_is_first(raw, lf_blank_line());
}

/// The header block of `raw` (everything before the first blank line),
/// decoded leniently as UTF-8.
pub fn extract_raw_headers(raw: &[u8]) -> (r: String)
    ensures
        r@ == utf8_lossy(raw@.take(header_end(raw@))),
        vstd::utf8::valid_utf8(raw@.take(header_end(raw@))) ==> r@ == vstd::utf8::decode_utf8(
            raw@.take(header_end(raw@)),
        ),
{
    let crlf: Vec<u8> = vec![13u8, 10u8, 13u8, 10u8];
    let lf: Vec<u8> = vec![10u8, 10u8];
    assert(crlf@ =~= crlf_blank_line());
    assert(lf@ =~= lf_blank_line());
    let separator = match (find_subsequence(raw, crlf.as_slice()), find_subsequence(raw, lf.as_slice())) {
        (Some(p), Some(q)) => if p <= q {
            p
        } else {
            q
        },
        (Some(p), None) => p,
        (None, Some(q)) => q,
        (None, None) => raw.len(),
    };
    proof {
        lemma_header_end_bounds(raw@);
    }
    assert(separator as int == header_end(raw@));
    let head = vstd::slice::slice_subrange(raw, 0, separator);
    assert(head@ =~= raw@.take(header_end(raw@)));
    decode_utf8_lossy(head)
}

} // verus!
