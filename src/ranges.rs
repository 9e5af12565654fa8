//! Closed ranges of section numbers, written `start-end`.

use vstd::prelude::*;
use crate::text::{chars_of, split_chars, views, split_on, parse_number, numeral_value, is_numeral, total_of, string_views, as_total};

verus! {

/// Why a range could not be read.
#[derive(Clone, Copy, Debug, PartialEq, Eq, Structural)]
pub enum RangeError {
    /// The text before the first `-` is not a number.
    BadStart,
    /// There is no `-`.
    MissingEnd,
    /// The text after the first `-` is not a number.
    BadEnd,
}

/// The closed range `start..=end`.
#[derive(Clone, Copy, Debug, PartialEq, Eq, Structural)]
pub struct Range {
    pub start: u64,
    pub end: u64,
}

/// The number that `w` writes, if it is a numeral that fits in a `u64`.
pub open spec fn number_in(w: Seq<char>) -> Option<u64> {
    if is_numeral(w) && numeral_value(w) <= u64::MAX {
        Some(numeral_value(w) as u64)
    } else {
        None
    }
}

/// What reading `s` as `start-end` gives; text after a second `-` is not
/// read.
pub open spec fn range_result(s: Seq<char>) -> Result<Range, RangeError> {
    let w = split_on(s, '-');
    match number_in(w[0]) {
        None => Err(RangeError::BadStart),
        Some(start) => if w.len() < 2 {
            Err(RangeError::MissingEnd)
        } else {
            match number_in(w[1]) {
                None => Err(RangeError::BadEnd),
                Some(end) => Ok(Range { start, end }),
            }
        },
    }
}

/// `x` lies in `r`.
pub open spec fn in_range(r: Range, x: int) -> bool {
    r.start <= x <= r.end
}

impl Range {
    /// Reads a range written `start-end`.
    pub fn parse(s: &str) -> (r: Result<Range, RangeError>)
        ensures
            r == range_result(s@),
    {
        parse_chars(&chars_of(s))
    }

    /// Whether this range covers all of `other`.
    pub fn contains_range(&self, other: &Range) -> (r: bool)
        ensures
            r == (self.start <= other.start && other.end <= self.end),
    {
        self.start <= other.start && self.end >= other.end
    }

    /// Whether this range covers `x`.
    pub fn contains(&self, x: &u64) -> (r: bool)
        ensures
            r == (self.start <= *x <= self.end),
    {
        self.start <= *x && self.end >= *x
    }

    /// Whether the two ranges share a number.
    pub fn overlaps(&self, other: &Range) -> (r: bool)
        ensures
            r == (in_range(*self, other.start as int) || in_range(*self, other.end as int)
                || in_range(*other, self.start as int) || in_range(*other, self.end as int)),
            self.start <= self.end && other.start <= other.end ==> (r <==> exists|x: int|
                #[trigger] in_range(*self, x) && in_range(*other, x)),
    {
        let r = self.contains(&other.start) || self.contains(&other.end) || other.contains(&self.start)
            || other.contains(&self.end);
        proof {
            if self.start <= self.end && other.start <= other.end && r {
                if in_range(*self, other.start as int) {
                    assert(in_range(*other, other.start as int));
                } else if in_range(*self, other.end as int) {
                    assert(in_range(*other, other.end as int));
                } else {
                    assert(in_range(*self, self.start as int));
                }
            }
        }
        r
    }
}

/// The two ranges of a line `a-b,c-d`, if both parts read as ranges; text
/// after a second `,` is not read.
pub open spec fn pair_of(l: Seq<char>) -> Option<(Range, Range)> {
    let w = split_on(l, ',');
    if w.len() < 2 {
        None
    } else {
        match (range_result(w[0]), range_result(w[1])) {
            (Ok(a), Ok(b)) => Some((a, b)),
            _ => None,
        }
    }
}

/// One range covers the other.
pub open spec fn one_covers_other(a: Range, b: Range) -> bool {
    (a.start <= b.start && b.end <= a.end) || (b.start <= a.start && a.end <= b.end)
}

/// The ranges share a number, as the endpoint test decides it.
pub open spec fn ends_overlap(a: Range, b: Range) -> bool {
    in_range(a, b.start as int) || in_range(a, b.end as int) || in_range(b, a.start as int) || in_range(
        b,
        a.end as int,
    )
}

/// 1 if the pair on line `l` is counted (by overlap, or by one range
/// covering the other), 0 if not, `None` if the line is not a pair.
pub open spec fn pair_score(l: Seq<char>, by_overlap: bool) -> Option<int> {
    match pair_of(l) {
        Some((a, b)) => Some(
            if (if by_overlap { ends_overlap(a, b) } else { one_covers_other(a, b) }) { 1int } else { 0int },
        ),
        None => None,
    }
}

/// The two ranges of the line `a-b,c-d`.
pub fn parse_pair(line: &str) -> (r: Option<(Range, Range)>)
    ensures
        r == pair_of(line@),
{
    let chars = chars_of(line);
    let w = split_chars(&chars, ',');
    proof {
        assert(views(w@).len() == w@.len());
    }
    if w.len() < 2 {
        return None;
    }
    assert(views(w@)[0] == w@[0]@);
    assert(views(w@)[1] == w@[1]@);
    let a = parse_chars(&w[0]);
    let b = parse_chars(&w[1]);
    match (a, b) {
        (Ok(a), Ok(b)) => Some((a, b)),
        _ => None,
    }
}

/// Reads a range written `start-end` from its characters.
fn parse_chars(chars: &Vec<char>) -> (r: Result<Range, RangeError>)
    ensures
        r == range_result(chars@),
{
    let w = split_chars(chars, '-');
    proof {
        crate::text::lemma_split_on_nonempty(chars@, '-');
        assert(views(w@).len() == w@.len());
        assert(views(w@)[0] == w@[0]@);
    }
    let start = match parse_number(&w[0]) {
        Some(v) => v,
        None => return Err(RangeError::BadStart),
    };
    if w.len() < 2 {
        return Err(RangeError::MissingEnd);
    }
    assert(views(w@)[1] == w@[1]@);
    let end = match parse_number(&w[1]) {
        Some(v) => v,
        None => return Err(RangeError::BadEnd),
    };
    Ok(Range { start, end })
}

/// How many lines hold a pair in which one range covers the other
/// (`by_overlap` false), or whose ranges overlap (`by_overlap` true);
/// `None` if a line is not a pair.
pub fn count_pairs(lines: &Vec<String>, by_overlap: bool) -> (r: Option<u64>)
    ensures
        !by_overlap ==> as_total(r) == total_of(string_views(lines@), |l: Seq<char>| pair_score(l, false)),
        by_overlap ==> as_total(r) == total_of(string_views(lines@), |l: Seq<char>| pair_score(l, true)),
{
    let ghost ls = string_views(lines@);
    let ghost f = |l: Seq<char>| pair_score(l, by_overlap);
    assert(by_overlap ==> f == (|l: Seq<char>| pair_score(l, true)));
    assert(!by_overlap ==> f == (|l: Seq<char>| pair_score(l, false)));
    let mut t: u64 = 0;
    let mut i: usize = 0;
    assert(total_of(ls.subrange(0, 0), f) == Some(0int));
    while i < lines.len()
        invariant
            ls == string_views(lines@),
            f == (|l: Seq<char>| pair_score(l, by_overlap)),
            i <= lines@.len(),
            t <= i,
            total_of(ls.subrange(0, i as int), f) == Some(t as int),
        decreases lines@.len() - i,
    {
        let line = lines[i].as_str();
        proof {
            let p = ls.subrange(0, i as int + 1);
            assert(p.drop_last() =~= ls.subrange(0, i as int));
            assert(p.last() == line@);
        }
        match parse_pair(line) {
            Some((a, b)) => {
                let counted = if by_overlap {
                    a.overlaps(&b)
                } else {
                    a.contains_range(&b) || b.contains_range(&a)
                };
                if counted {
                    t = t + 1;
                }
            },
            None => {
                proof {
                    crate::text::lemma_total_of_none(ls, f, i as int + 1);
                }
                return None;
            },
        }
        i += 1;
    }
    assert(ls.subrange(0, i as int) =~= ls);
    Some(t)
}

} // verus!
