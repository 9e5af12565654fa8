//! Rucksacks of two compartments, and the items they share.

use vstd::prelude::*;
use itertools::Itertools;
use crate::text::{chars_of, total_of, string_views, as_total};

verus! {

/// The first item of `a`, scanning from the front, that `b` also holds.
pub open spec fn first_shared(a: Seq<char>, b: Seq<char>) -> Option<char> {
    first_shared3(a, b, b)
}

/// The first item of `a` that is also in both `b` and `c`.
pub open spec fn first_shared3(a: Seq<char>, b: Seq<char>, c: Seq<char>) -> Option<char>
    decreases a.len(),
{
    if a.len() == 0 {
        None
    } else if b.contains(a[0]) && c.contains(a[0]) {
        Some(a[0])
    } else {
        first_shared3(a.drop_first(), b, c)
    }
}

/// Whether `c` is in `s`.
fn holds(s: &Vec<char>, c: char) -> (r: bool)
    ensures
        r == s@.contains(c),
{
    let mut i: usize = 0;
    while i < s.len()
        invariant
            i <= s@.len(),
            forall|k: int| 0 <= k < i ==> s@[k] != c,
        decreases s@.len() - i,
    {
        if s[i] == c {
            assert(s@[i as int] == c);
            return true;
        }
        i += 1;
    }
    false
}

/// The first item of `a` found in both `b` and `c`.
fn find_shared(a: &Vec<char>, b: &Vec<char>, c: &Vec<char>) -> (r: Option<char>)
    ensures
        r == first_shared3(a@, b@, c@),
{
    let mut i: usize = 0;
    assert(a@.subrange(0, a@.len() as int) =~= a@);
    while i < a.len()
        invariant
            i <= a@.len(),
            first_shared3(a@.subrange(i as int, a@.len() as int), b@, c@) == first_shared3(a@, b@, c@),
        decreases a@.len() - i,
    {
        let x = a[i];
        let ghost rest = a@.subrange(i as int, a@.len() as int);
        assert(rest[0] == x);
        assert(rest.drop_first() =~= a@.subrange(i as int + 1, a@.len() as int));
        if holds(b, x) && holds(c, x) {
            return Some(x);
        }
        i += 1;
    }
    assert(a@.subrange(i as int, a@.len() as int).len() == 0);
    None
}

/// A rucksack: its items split into two compartments.
#[derive(Debug)]
pub struct Rucksack {
    pub comp1: Vec<char>,
    pub comp2: Vec<char>,
}

impl Rucksack {
    /// The rucksack whose items are `sack`: the first half of the items in
    /// the first compartment, the rest in the second.
    pub fn with(sack: &str) -> (r: Rucksack)
        ensures
            r.comp1@ == sack@.subrange(0, sack@.len() as int / 2),
            r.comp2@ == sack@.subrange(sack@.len() as int / 2, sack@.len() as int),
    {
        let items = chars_of(sack);
        let half = items.len() / 2;
        let mut comp1: Vec<char> = Vec::new();
        let mut comp2: Vec<char> = Vec::new();
        let mut i: usize = 0;
        while i < items.len()
            invariant
                items@ == sack@,
                half == items@.len() / 2,
                i <= items@.len(),
                comp1@ == items@.subrange(0, if i < half { i as int } else { half as int }),
                comp2@ == items@.subrange(half as int, if i < half { half as int } else { i as int }),
            decreases items@.len() - i,
        {
            if i < half {
                comp1.push(items[i]);
            } else {
                comp2.push(items[i]);
            }
            i += 1;
            assert(comp1@ =~= items@.subrange(0, if i < half { i as int } else { half as int }));
            assert(comp2@ =~= items@.subrange(half as int, if i < half { half as int } else { i as int }));
        }
        Rucksack { comp1, comp2 }
    }

    /// A rucksack with the given compartments.
    pub fn _with_compartments(comp1: &str, comp2: &str) -> (r: Rucksack)
        ensures
            r.comp1@ == comp1@,
            r.comp2@ == comp2@,
    {
        Rucksack { comp1: chars_of(comp1), comp2: chars_of(comp2) }
    }

    /// The first item of `a` that is also in `b` and in `c`.
    pub fn _three_sacks_intersection(a: &str, b: &str, c: &str) -> (r: Option<char>)
        ensures
            r == first_shared3(a@, b@, c@),
    {
        find_shared(&chars_of(a), &chars_of(b), &chars_of(c))
    }

    /// The first item of the first compartment that the second compartment
    /// also holds.
    pub fn first_intersection(&self) -> (r: Option<char>)
        ensures
            r == first_shared(self.comp1@, self.comp2@),
    {
        find_shared(&self.comp1, &self.comp2, &self.comp2)
    }
}

/// The consecutive groups of `size` elements of `s`, the last one shorter if
/// the elements run out.
pub open spec fn chunked(s: Seq<Seq<char>>, size: nat) -> Seq<Seq<Seq<char>>>
    decreases s.len(),
{
    if s.len() == 0 || size == 0 {
        Seq::empty()
    } else if s.len() <= size {
        seq![s]
    } else {
        seq![s.subrange(0, size as int)] + chunked(s.subrange(size as int, s.len() as int), size)
    }
}

/// Relies on itertools' `Itertools::chunks`: consecutive groups of `size`
/// elements, the last one shorter if the elements run out; it panics on a
/// size of 0.
#[verifier::external_body]
fn chunks_of(sacks: &Vec<Vec<char>>, size: usize) -> (r: Vec<Vec<Vec<char>>>)
    requires
        size > 0,
    ensures
        r.deep_view() == chunked(sacks.deep_view(), size as nat),
{
    let groups = sacks.iter().chunks(size);
    groups.into_iter().map(|g| g.cloned().collect()).collect()
}

/// The item that each group of three consecutive rucksacks (given whole)
/// shares, in group order: `None` where a group shares none, or where the
/// last group has fewer than three rucksacks.
pub fn group_badges(sacks: &Vec<Vec<char>>) -> (r: Vec<Option<char>>)
    ensures
        r@ == badges_of(sacks.deep_view()),
{
    let groups = chunks_of(sacks, 3);
    let mut r: Vec<Option<char>> = Vec::new();
    let mut i: usize = 0;
    while i < groups.len()
        invariant
            groups.deep_view() == chunked(sacks.deep_view(), 3),
            i <= groups@.len(),
            r@.len() == i,
            forall|k: int|
                0 <= k < i ==> #[trigger] r@[k] == ({
                    let g = chunked(sacks.deep_view(), 3)[k];
                    if g.len() == 3 {
                        first_shared3(g[0], g[1], g[2])
                    } else {
                        None
                    }
                }),
        decreases groups@.len() - i,
    {
        let g = &groups[i];
        assert(g.deep_view() == groups.deep_view()[i as int]);
        if g.len() == 3 {
            assert(g@[0]@ == g.deep_view()[0]);
            assert(g@[1]@ == g.deep_view()[1]);
            assert(g@[2]@ == g.deep_view()[2]);
            r.push(find_shared(&g[0], &g[1], &g[2]));
        } else {
            r.push(None);
        }
        i += 1;
    }
    assert(r@ =~= badges_of(sacks.deep_view()));
    r
}

/// The priority of an item: `a` to `z` are 1 to 26, `A` to `Z` are 27 to 52.
pub open spec fn priority_of(c: char) -> Option<u8> {
    if 'a' <= c <= 'z' {
        Some((c as int - 'a' as int + 1) as u8)
    } else if 'A' <= c <= 'Z' {
        Some((c as int - 'A' as int + 27) as u8)
    } else {
        None
    }
}

/// The priority of an item.
#[derive(Clone, Copy, Debug, PartialEq, Eq, Structural)]
pub struct Priority(pub u8);

impl Priority {
    /// The priority of item `c`, if `c` is an ASCII letter.
    pub fn of(c: char) -> (r: Option<Priority>)
        ensures
            r matches Some(p) ==> priority_of(c) == Some(p.0),
            r is None ==> priority_of(c) is None,
    {
        if 'a' <= c && c <= 'z' {
            Some(Priority(((c as u32) - ('a' as u32) + 1) as u8))
        } else if 'A' <= c && c <= 'Z' {
            Some(Priority(((c as u32) - ('A' as u32) + 27) as u8))
        } else {
            None
        }
    }
}

/// The priority of the item that both compartments of the rucksack `l`
/// hold, if there is one and it is a letter.
pub open spec fn sack_priority(l: Seq<char>) -> Option<int> {
    let half = l.len() as int / 2;
    match first_shared(l.subrange(0, half), l.subrange(half, l.len() as int)) {
        Some(c) => match priority_of(c) {
            Some(p) => Some(p as int),
            None => None,
        },
        None => None,
    }
}

/// The badge of each group of three consecutive rucksacks `sacks`: the
/// item that all three hold, `None` for a group without one or a short last
/// group.
pub open spec fn badges_of(sacks: Seq<Seq<char>>) -> Seq<Option<char>> {
    let g = chunked(sacks, 3);
    Seq::new(g.len(), |i: int| if g[i].len() == 3 { first_shared3(g[i][0], g[i][1], g[i][2]) } else { None })
}

/// The sum of the priorities of the badges `b`, or `None` if a group has no
/// badge or a badge is not a letter.
pub open spec fn badges_total(b: Seq<Option<char>>) -> Option<int>
    decreases b.len(),
{
    if b.len() == 0 {
        Some(0)
    } else {
        match (badges_total(b.drop_last()), b.last()) {
            (Some(t), Some(c)) => match priority_of(c) {
                Some(p) => Some(t + p),
                None => None,
            },
            _ => None,
        }
    }
}

proof fn lemma_badges_total_none(b: Seq<Option<char>>, i: int)
    requires
        0 <= i <= b.len(),
        badges_total(b.subrange(0, i)) is None,
    ensures
        badges_total(b) is None,
    decreases b.len() - i,
{
    if i < b.len() {
        assert(b.subrange(0, i + 1).drop_last() =~= b.subrange(0, i));
        lemma_badges_total_none(b, i + 1);
    } else {
        assert(b.subrange(0, i) =~= b);
    }
}

/// The sum over all rucksacks of the priority of the item that both of its
/// compartments hold; `None` if a rucksack has no such item or it is not a
/// letter.
pub fn misplaced_total(lines: &Vec<String>) -> (r: Option<u64>)
    requires
        lines@.len() <= u32::MAX,
    ensures
        as_total(r) == total_of(string_views(lines@), |l: Seq<char>| sack_priority(l)),
{
    let ghost ls = string_views(lines@);
    let ghost f = |l: Seq<char>| sack_priority(l);
    let mut t: u64 = 0;
    let mut i: usize = 0;
    assert(total_of(ls.subrange(0, 0), f) == Some(0int));
    while i < lines.len()
        invariant
            ls == string_views(lines@),
            f == (|l: Seq<char>| sack_priority(l)),
            lines@.len() <= u32::MAX,
            i <= lines@.len(),
            t <= 52 * i,
            total_of(ls.subrange(0, i as int), f) == Some(t as int),
        decreases lines@.len() - i,
    {
        let line = lines[i].as_str();
        proof {
            let p = ls.subrange(0, i as int + 1);
            assert(p.drop_last() =~= ls.subrange(0, i as int));
            assert(p.last() == line@);
        }
        let shared = Rucksack::with(line).first_intersection();
        let p = match shared {
            Some(c) => Priority::of(c),
            None => None,
        };
        match p {
            Some(p) => {
                t = t + p.0 as u64;
            },
            None => {
                proof {
                    crate::text::lemma_total_of_none(ls, f, i as int + 1);
                }
                return None;
            },
        }
        i += 1;
    }
    assert(ls.subrange(0, i as int) =~= ls);
    Some(t)
}

/// The sum of the priorities of the badges of the groups of three
/// consecutive rucksacks; `None` if a group has no badge, a badge is not a
/// letter, or the last group is short.
pub fn badge_total(lines: &Vec<String>) -> (r: Option<u64>)
    requires
        lines@.len() <= u32::MAX,
    ensures
        as_total(r) == badges_total(badges_of(string_views(lines@))),
{
    let mut sacks: Vec<Vec<char>> = Vec::new();
    let mut i: usize = 0;
    while i < lines.len()
        invariant
            i <= lines@.len(),
            sacks@.len() == i,
            forall|k: int| 0 <= k < i ==> (#[trigger] sacks@[k])@ == lines@[k]@,
        decreases lines@.len() - i,
    {
        let v = chars_of(lines[i].as_str());
        assert(v.deep_view() =~= v@);
        sacks.push(v);
        i += 1;
    }
    assert forall|k: int| 0 <= k < sacks@.len() implies #[trigger] sacks.deep_view()[k] == string_views(lines@)[k] by {
        assert(sacks@[k].deep_view() =~= sacks@[k]@);
    }
    assert(sacks.deep_view() =~= string_views(lines@));
    let badges = group_badges(&sacks);
    let ghost bs = badges_of(string_views(lines@));
    assert(badges@ =~= bs);
    proof {
        lemma_chunked_len(string_views(lines@), 3);
    }
    let mut t: u64 = 0;
    let mut k: usize = 0;
    assert(badges_total(bs.subrange(0, 0)) == Some(0int));
    while k < badges.len()
        invariant
            bs == badges_of(string_views(lines@)),
            badges@ == bs,
            badges@.len() <= lines@.len(),
            lines@.len() <= u32::MAX,
            k <= badges@.len(),
            t <= 52 * k,
            badges_total(bs.subrange(0, k as int)) == Some(t as int),
        decreases badges@.len() - k,
    {
        proof {
            assert(bs.subrange(0, k as int + 1).drop_last() =~= bs.subrange(0, k as int));
            assert(bs.subrange(0, k as int + 1).last() == bs[k as int]);
        }
        let p = match badges[k] {
            Some(c) => Priority::of(c),
            None => None,
        };
        match p {
            Some(p) => {
                t = t + p.0 as u64;
            },
            None => {
                proof {
                    lemma_badges_total_none(bs, k as int + 1);
                    assert(badges_total(bs) is None);
                }
                return None;
            },
        }
        k += 1;
    }
    assert(bs.subrange(0, k as int) =~= bs);
    Some(t)
}

proof fn lemma_chunked_len(s: Seq<Seq<char>>, size: nat)
    requires
        size > 0,
    ensures
        chunked(s, size).len() <= s.len(),
    decreases s.len(),
{
    if s.len() > size {
        lemma_chunked_len(s.subrange(size as int, s.len() as int), size);
    }
}

} // verus!
