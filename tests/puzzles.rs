use aoc2022::calories::{elf_totals, max_total, top_three_total};
use aoc2022::ranges::{count_pairs, parse_pair, Range, RangeError};
use aoc2022::rps::{total_score, Match, Match2, Outcome, RockPaperScissors};
use aoc2022::rucksack::{badge_total, group_badges, misplaced_total, Priority, Rucksack};
use aoc2022::text::{parse_number, split_chars};
use aoc2022::yard::{rearrange, YardError};

fn lines(text: &str) -> Vec<String> {
    text.lines().map(|l| l.to_string()).collect()
}

#[test]
fn calorie_groups_and_maxima() {
    let ls = lines("1000\n2000\n3000\n\n4000\n\n5000\n6000\n\n7000\n8000\n9000\n\n10000");
    let totals = elf_totals(&ls).unwrap();
    assert_eq!(totals, vec![6000, 4000, 11000, 24000, 10000]);
    assert_eq!(max_total(&totals), Some(24000));
    assert_eq!(top_three_total(&totals), 45000);
}

#[test]
fn calorie_edge_cases() {
    assert_eq!(elf_totals(&lines("12\nx")), None);
    assert_eq!(elf_totals(&lines("4294967296")), None);
    assert_eq!(elf_totals(&lines("4294967295\n4294967295")), Some(vec![8589934590]));
    assert_eq!(max_total(&vec![]), None);
    assert_eq!(top_three_total(&vec![]), 0);
    assert_eq!(top_three_total(&vec![5]), 5);
    assert_eq!(top_three_total(&vec![5, 7]), 12);
    assert_eq!(top_three_total(&vec![1, 9, 9, 2, 9]), 27);
    assert_eq!(top_three_total(&vec![u64::MAX, u64::MAX, u64::MAX]), 3 * (u64::MAX as u128));
}

#[test]
fn strategy_guide_scores() {
    let ls = lines("A Y\nB X\nC Z");
    assert_eq!(total_score(&ls, false), Some(15));
    assert_eq!(total_score(&ls, true), Some(12));
    assert_eq!(total_score(&lines("A Y\nQ X"), false), None);
    assert_eq!(total_score(&lines("A"), true), None);
}

#[test]
fn rounds_score_each_shape_and_outcome() {
    let m = Match { opponent_move: RockPaperScissors::Rock, response: RockPaperScissors::Paper };
    assert_eq!(m.score(), 8);
    let m = Match { opponent_move: RockPaperScissors::Paper, response: RockPaperScissors::Rock };
    assert_eq!(m.score(), 1);
    let m = Match { opponent_move: RockPaperScissors::Scissors, response: RockPaperScissors::Scissors };
    assert_eq!(m.score(), 6);
    let m = Match2 { opponent_move: RockPaperScissors::Rock, outcome: Outcome::Draw };
    assert_eq!(m.score(), 4);
    let m = Match2 { opponent_move: RockPaperScissors::Paper, outcome: Outcome::Loss };
    assert_eq!(m.score(), 1);
    let m = Match2 { opponent_move: RockPaperScissors::Scissors, outcome: Outcome::Win };
    assert_eq!(m.score(), 7);
    assert_eq!(Match2::parse("c x"), Some(Match2 { opponent_move: RockPaperScissors::Scissors, outcome: Outcome::Loss }));
}

#[test]
fn rucksack_compartments_and_priorities() {
    let r = Rucksack::with("vJrwpWtwJgWrhcsFMMfFFhFp");
    assert_eq!(r.comp1.iter().collect::<String>(), "vJrwpWtwJgWr");
    assert_eq!(r.comp2.iter().collect::<String>(), "hcsFMMfFFhFp");
    assert_eq!(r.first_intersection(), Some('p'));
    assert_eq!(Rucksack::_with_compartments("abc", "xyz").first_intersection(), None);
    assert_eq!(Rucksack::_three_sacks_intersection("abcZ", "Zxc", "qcZ"), Some('c'));
    assert_eq!(Priority::of('p'), Some(Priority(16)));
    assert_eq!(Priority::of('L'), Some(Priority(38)));
    assert_eq!(Priority::of('1'), None);
}

#[test]
fn rucksack_totals() {
    let ls = lines(
        "vJrwpWtwJgWrhcsFMMfFFhFp\njqHRNqRjqzjGDLGLrsFMfFZSrLrFZsSL\nPmmdzqPrVvPwwTWBwg\n\
         wMqvLMZHhHMvwLHjbvcjnnSBnvTQFn\nttgJtRGJQctTZtZT\nCrZsJsPPZsGzwwsLwLmpwMDw",
    );
    assert_eq!(misplaced_total(&ls), Some(157));
    assert_eq!(badge_total(&ls), Some(70));
    assert_eq!(badge_total(&lines("ab\nab")), None);
    assert_eq!(misplaced_total(&lines("abcd")), None);
}

#[test]
fn rucksack_groups_of_three() {
    let sacks: Vec<Vec<char>> = ["ab", "bc", "bd", "xy", "yz"].iter().map(|s| s.chars().collect()).collect();
    assert_eq!(group_badges(&sacks), vec![Some('b'), None]);
}

#[test]
fn section_ranges() {
    assert_eq!(Range::parse("2-4"), Ok(Range { start: 2, end: 4 }));
    assert_eq!(Range::parse("x-4"), Err(RangeError::BadStart));
    assert_eq!(Range::parse("24"), Err(RangeError::MissingEnd));
    assert_eq!(Range::parse("2-"), Err(RangeError::BadEnd));
    let (a, b) = parse_pair("2-8,3-7").unwrap();
    assert!(a.contains_range(&b));
    assert!(!b.contains_range(&a));
    assert!(a.contains(&8));
    assert!(!a.contains(&9));
    assert!(Range { start: 5, end: 7 }.overlaps(&Range { start: 7, end: 9 }));
    assert!(!Range { start: 2, end: 4 }.overlaps(&Range { start: 6, end: 8 }));
    assert_eq!(parse_pair("2-8"), None);
}

#[test]
fn section_pair_counts() {
    let ls = lines("2-4,6-8\n2-3,4-5\n5-7,7-9\n2-8,3-7\n6-6,4-6\n2-6,4-8");
    assert_eq!(count_pairs(&ls, false), Some(2));
    assert_eq!(count_pairs(&ls, true), Some(4));
    assert_eq!(count_pairs(&lines("2-4"), true), None);
}

#[test]
fn text_helpers() {
    let v: Vec<char> = "a b  c".chars().collect();
    let pieces: Vec<String> = split_chars(&v, ' ').iter().map(|p| p.iter().collect()).collect();
    assert_eq!(pieces, vec!["a", "b", "", "c"]);
    assert_eq!(parse_number(&"0042".chars().collect()), Some(42));
    assert_eq!(parse_number(&"18446744073709551615".chars().collect()), Some(u64::MAX));
    assert_eq!(parse_number(&"18446744073709551616".chars().collect()), None);
    assert_eq!(parse_number(&"".chars().collect()), None);
    assert_eq!(parse_number(&"4a".chars().collect()), None);
}

#[test]
fn yard_puzzle_text() {
    let text = "    [D]    \n[N] [C]    \n[Z] [M] [P]\n 1   2   3 \n\nmove 1 from 2 to 1\nmove 3 from 1 to 3\nmove 2 from 2 to 1\nmove 1 from 1 to 2";
    assert_eq!(rearrange(&lines(text), false), Ok("CMZ".to_string()));
    assert_eq!(rearrange(&lines(text), true), Ok("MCD".to_string()));
    assert_eq!(rearrange(&lines("[A]\n 1 "), false), Err(YardError::MissingDiagram));
    assert_eq!(rearrange(&lines("[A]\n 1 \n\nmove 2 from 1 to 1"), false), Err(YardError::SameStack));
    assert_eq!(rearrange(&lines("[A]\n 1 \n\nmove 2 from 1 to 2"), false), Err(YardError::InvalidIndex));
    assert_eq!(rearrange(&lines("[A] [B]\n 1   2 \n\nmove 2 from 1 to 2"), true), Err(YardError::InsufficientItems));
    assert_eq!(rearrange(&lines("[A] xx\n 1   2 \n\n"), true), Err(YardError::MalformedRow));
}
