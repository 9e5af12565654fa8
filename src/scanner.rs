//! Finding the first window of pairwise distinct symbols in a stream.

use vstd::prelude::*;
use crate::text::chars_of;

verus! {

/// Why no window of distinct symbols was returned.
#[derive(Clone, Copy, Debug, PartialEq, Eq, Structural)]
pub enum ScanError {
    /// No window of the requested width holds only distinct symbols.
    NotFound,
}

/// The symbols of `s` at positions `lo..hi` are pairwise distinct.
pub open spec fn distinct_in(s: Seq<char>, lo: int, hi: int) -> bool {
    forall|i: int, j: int| lo <= i < j < hi ==> #[trigger] s[i] != #[trigger] s[j]
}

/// The window of width `n` that ends at offset `end` holds `n` distinct symbols.
pub open spec fn window_unique(s: Seq<char>, n: int, end: int) -> bool {
    n <= end <= s.len() && distinct_in(s, end - n, end)
}

/// `end` is the end offset of the first window of width `n` whose symbols
/// are pairwise distinct.
pub open spec fn is_first_run_end(s: Seq<char>, n: int, end: int) -> bool {
    &&& window_unique(s, n, end)
    &&& forall|k: int| n <= k < end ==> !#[trigger] window_unique(s, n, k)
}

/// No window of width `n` in `s` holds only distinct symbols.
pub open spec fn no_run(s: Seq<char>, n: int) -> bool {
    forall|k: int| !#[trigger] window_unique(s, n, k)
}

/// A window's symbols are pairwise distinct exactly when the set of them has
/// as many members as the window has positions.
pub proof fn lemma_distinct_iff_set_size(s: Seq<char>, lo: int, hi: int)
    requires
        0 <= lo <= hi <= s.len(),
    ensures
        distinct_in(s, lo, hi) <==> s.subrange(lo, hi).to_set().len() == hi - lo,
{
    let w = s.subrange(lo, hi);
    if distinct_in(s, lo, hi) {
        assert(w.no_duplicates()) by {
            assert forall|i: int, j: int| 0 <= i < w.len() && 0 <= j < w.len() && i != j implies w[i] != w[j] by {
                if i < j {
                    assert(s[lo + i] != s[lo + j]);
                } else {
                    assert(s[lo + j] != s[lo + i]);
                }
            }
        }
        w.unique_seq_to_set();
    }
    if w.to_set().len() == hi - lo {
        w.lemma_no_dup_set_cardinality();
        assert forall|i: int, j: int| lo <= i < j < hi implies #[trigger] s[i] != #[trigger] s[j] by {
            assert(w[i - lo] == s[i] && w[j - lo] == s[j]);
        }
    }
}

/// Where a run ends at `end`, the window before it holds `n` distinct
/// symbols as a set, and every earlier window of width `n` holds fewer.
pub proof fn lemma_first_run_by_set_size(s: Seq<char>, n: int, end: int)
    requires
        n > 0,
        is_first_run_end(s, n, end),
    ensures
        s.subrange(end - n, end).to_set().len() == n,
        forall|k: int| n <= k < end ==> #[trigger] s.subrange(k - n, k).to_set().len() != n,
{
    lemma_distinct_iff_set_size(s, end - n, end);
    assert forall|k: int| n <= k < end implies #[trigger] s.subrange(k - n, k).to_set().len() != n by {
        assert(!window_unique(s, n, k));
        lemma_distinct_iff_set_size(s, k - n, k);
    }
}

/// Whether the symbols of `s` at positions `lo..hi` are pairwise distinct.
fn window_is_distinct(s: &Vec<char>, lo: usize, hi: usize) -> (r: bool)
    requires
        lo <= hi <= s@.len(),
    ensures
        r == distinct_in(s@, lo as int, hi as int),
{
    let mut j: usize = lo;
    while j < hi
        invariant
            lo <= j <= hi,
            hi <= s@.len(),
            distinct_in(s@, lo as int, j as int),
        decreases hi - j,
    {
        let mut i: usize = lo;
        while i < j
            invariant
                lo <= i <= j,
                j < hi,
                hi <= s@.len(),
                distinct_in(s@, lo as int, j as int),
                forall|k: int| lo <= k < i ==> s@[k] != s@[j as int],
            decreases j - i,
        {
            if s[i] == s[j] {
                assert(s@[i as int] == s@[j as int]);
                return false;
            }
            i += 1;
        }
        j += 1;
    }
    true
}

/// The end offset of the first window of `n` consecutive symbols of `input`
/// that are pairwise distinct, scanning windows from offset 0 onwards.
pub fn find_run_end(input: &Vec<char>, n: usize) -> (r: Result<usize, ScanError>)
    requires
        n > 0,
    ensures
        match r {
            Ok(e) => is_first_run_end(input@, n as int, e as int),
            Err(ScanError::NotFound) => no_run(input@, n as int),
        },
        n > input@.len() ==> r == Err::<usize, ScanError>(ScanError::NotFound),
{
    let len = input.len();
    if n > len {
        return Err(ScanError::NotFound);
    }
    let mut start: usize = 0;
    while start <= len - n
        invariant
            n <= len,
            len == input@.len(),
            start <= len - n + 1,
            forall|k: int| n <= k < start + n ==> !#[trigger] window_unique(input@, n as int, k),
        decreases len - n + 1 - start,
    {
        if window_is_distinct(input, start, start + n) {
            return Ok(start + n);
        }
        start += 1;
    }
    Err(ScanError::NotFound)
}

/// The offset just past the first run of `n` pairwise distinct characters
/// in `input`.
pub fn position_after_consecutive_unique_n(input: &str, n: usize) -> (r: Result<usize, ScanError>)
    requires
        n > 0,
    ensures
        match r {
            Ok(e) => is_first_run_end(input@, n as int, e as int),
            Err(ScanError::NotFound) => no_run(input@, n as int),
        },
        n > input@.len() ==> r == Err::<usize, ScanError>(ScanError::NotFound),
{
    let chars = chars_of(input);
    find_run_end(&chars, n)
}

} // verus!
