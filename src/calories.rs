//! Calories carried by elves: one number per line, one elf per group of
//! lines, groups separated by an empty line.

use vstd::prelude::*;
use crate::text::{chars_of, parse_number, numeral_value, is_numeral, string_views};

verus! {

/// Each non-empty line is a numeral whose value fits in a `u32`.
pub open spec fn lines_valid(lines: Seq<Seq<char>>) -> bool {
    forall|i: int|
        0 <= i < lines.len() && (#[trigger] lines[i]).len() > 0 ==> is_numeral(lines[i])
            && numeral_value(lines[i]) <= u32::MAX
}

/// The total of each group of lines, in order; an empty line closes a group.
pub open spec fn group_totals(lines: Seq<Seq<char>>) -> Seq<int>
    decreases lines.len(),
{
    if lines.len() == 0 {
        seq![0]
    } else if lines.last().len() == 0 {
        group_totals(lines.drop_last()).push(0)
    } else {
        let t = group_totals(lines.drop_last());
        t.update(t.len() - 1, t.last() + numeral_value(lines.last()))
    }
}

/// The total calories that each elf carries, one entry per group of lines;
/// `None` if a non-empty line is not a number that fits in a `u32`.
pub fn elf_totals(lines: &Vec<String>) -> (r: Option<Vec<u64>>)
    requires
        lines@.len() <= u32::MAX,
    ensures
        r is Some <==> lines_valid(string_views(lines@)),
        r matches Some(v) ==> v@.map_values(|x: u64| x as int) == group_totals(string_views(lines@)),
{
    let ghost ls = string_views(lines@);
    let mut totals: Vec<u64> = Vec::new();
    let mut cur: u64 = 0;
    let mut i: usize = 0;
    while i < lines.len()
        invariant
            ls == string_views(lines@),
            lines@.len() <= u32::MAX,
            i <= lines@.len(),
            lines_valid(ls.subrange(0, i as int)),
            cur <= i * u32::MAX,
            totals@.map_values(|x: u64| x as int).push(cur as int) == group_totals(ls.subrange(0, i as int)),
        decreases lines@.len() - i,
    {
        let line = chars_of(lines[i].as_str());
        let ghost p = ls.subrange(0, i as int + 1);
        proof {
            assert(p.drop_last() =~= ls.subrange(0, i as int));
            assert(p.last() == line@);
        }
        if line.len() == 0 {
            totals.push(cur);
            cur = 0;
            assert(totals@.map_values(|x: u64| x as int).push(cur as int) =~= group_totals(p));
        } else {
            let v = match parse_number(&line) {
                Some(v) => v,
                None => {
                    assert(!lines_valid(ls)) by { assert(ls[i as int] == line@); }
                    return None;
                },
            };
            if v > u32::MAX as u64 {
                assert(!lines_valid(ls)) by { assert(ls[i as int] == line@); }
                return None;
            }
            assert(cur + v <= (i + 1) * u32::MAX) by (nonlinear_arith)
                requires cur <= i * u32::MAX, v <= u32::MAX;
            cur = cur + v;
            assert(totals@.map_values(|x: u64| x as int).push(cur as int) =~= group_totals(p));
        }
        proof {
            assert(lines_valid(p)) by {
                assert forall|k: int| 0 <= k < p.len() && (#[trigger] p[k]).len() > 0 implies is_numeral(p[k])
                    && numeral_value(p[k]) <= u32::MAX by {
                    if k < i {
                        assert(p[k] == ls.subrange(0, i as int)[k]);
                    }
                }
            }
        }
        i += 1;
    }
    assert(ls.subrange(0, i as int) =~= ls);
    totals.push(cur);
    assert(totals@.map_values(|x: u64| x as int) =~= group_totals(ls));
    Some(totals)
}

/// The largest entry of `v`, if it has one.
pub fn max_total(v: &Vec<u64>) -> (r: Option<u64>)
    ensures
        r is None <==> v@.len() == 0,
        r matches Some(m) ==> v@.contains(m) && forall|i: int| 0 <= i < v@.len() ==> v@[i] <= m,
{
    if v.len() == 0 {
        return None;
    }
    let mut m: u64 = v[0];
    let mut i: usize = 1;
    while i < v.len()
        invariant
            1 <= i <= v@.len(),
            v@.contains(m),
            forall|k: int| 0 <= k < i ==> v@[k] <= m,
        decreases v@.len() - i,
    {
        if v[i] > m {
            m = v[i];
            assert(v@[i as int] == m);
        }
        i += 1;
    }
    Some(m)
}

/// The sum of the entries of `v` at three distinct positions.
pub open spec fn triple_sum(v: Seq<u64>, a: int, b: int, c: int) -> int {
    v[a] + v[b] + v[c]
}

/// `a`, `b` and `c` are three distinct positions of a sequence of length `n`.
pub open spec fn distinct_positions(n: int, a: int, b: int, c: int) -> bool {
    0 <= a < n && 0 <= b < n && 0 <= c < n && a != b && b != c && a != c
}

/// `i1`, `i2`, `i3` hold the three largest of the first `n` entries of `v`.
spec fn leaders(v: Seq<u64>, n: int, i1: int, i2: int, i3: int) -> bool {
    &&& distinct_positions(n, i1, i2, i3)
    &&& v[i1] >= v[i2] >= v[i3]
    &&& forall|k: int| 0 <= k < n && k != i1 && k != i2 && k != i3 ==> #[trigger] v[k] <= v[i3]
}

proof fn lemma_leaders_best(v: Seq<u64>, n: int, i1: int, i2: int, i3: int)
    requires
        n <= v.len(),
        leaders(v, n, i1, i2, i3),
    ensures
        forall|a: int, b: int, c: int|
            distinct_positions(n, a, b, c) ==> #[trigger] triple_sum(v, a, b, c) <= triple_sum(v, i1, i2, i3),
{
    assert forall|a: int, b: int, c: int|
        distinct_positions(n, a, b, c) implies #[trigger] triple_sum(v, a, b, c) <= triple_sum(v, i1, i2, i3) by {
        assert(a != i1 && a != i2 && a != i3 ==> v[a] <= v[i3]);
        assert(b != i1 && b != i2 && b != i3 ==> v[b] <= v[i3]);
        assert(c != i1 && c != i2 && c != i3 ==> v[c] <= v[i3]);
    }
}

/// The sum of the three largest entries of `v` (of all of them where there
/// are fewer than three).
pub fn top_three_total(v: &Vec<u64>) -> (r: u128)
    ensures
        v@.len() == 0 ==> r == 0,
        v@.len() == 1 ==> r == v@[0],
        v@.len() == 2 ==> r == v@[0] + v@[1],
        v@.len() >= 3 ==> (exists|a: int, b: int, c: int|
            distinct_positions(v@.len() as int, a, b, c) && r == #[trigger] triple_sum(v@, a, b, c)),
        v@.len() >= 3 ==> (forall|a: int, b: int, c: int|
            distinct_positions(v@.len() as int, a, b, c) ==> #[trigger] triple_sum(v@, a, b, c) <= r),
{
    let n = v.len();
    if n < 3 {
        let mut r: u128 = 0;
        if n >= 1 {
            r = r + v[0] as u128;
        }
        if n >= 2 {
            r = r + v[1] as u128;
        }
        return r;
    }
    let (mut i1, mut i2, mut i3): (usize, usize, usize) = (0, 1, 2);
    if v[i2] > v[i1] {
        let t = i1;
        i1 = i2;
        i2 = t;
    }
    if v[i3] > v[i2] {
        let t = i2;
        i2 = i3;
        i3 = t;
    }
    if v[i2] > v[i1] {
        let t = i1;
        i1 = i2;
        i2 = t;
    }
    let mut k: usize = 3;
    while k < n
        invariant
            n == v@.len(),
            3 <= k <= n,
            leaders(v@, k as int, i1 as int, i2 as int, i3 as int),
        decreases n - k,
    {
        let x = v[k];
        if x > v[i1] {
            i3 = i2;
            i2 = i1;
            i1 = k;
        } else if x > v[i2] {
            i3 = i2;
            i2 = k;
        } else if x > v[i3] {
            i3 = k;
        }
        k += 1;
    }
    proof {
        lemma_leaders_best(v@, n as int, i1 as int, i2 as int, i3 as int);
        assert(triple_sum(v@, i1 as int, i2 as int, i3 as int) == v@[i1 as int] + v@[i2 as int] + v@[i3 as int]);
    }
    v[i1] as u128 + v[i2] as u128 + v[i3] as u128
}

} // verus!
