//! Scoring rounds of rock, paper, scissors.

use vstd::prelude::*;
use crate::text::{total_of, string_views, as_total};

verus! {

/// A shape that a player shows.
#[derive(Clone, Copy, Debug, PartialEq, Eq, Structural)]
pub enum RockPaperScissors {
    Rock,
    Paper,
    Scissors,
}

/// How a round ends for the responding player.
#[derive(Clone, Copy, Debug, PartialEq, Eq, Structural)]
pub enum Outcome {
    Loss,
    Draw,
    Win,
}

/// The shape that a letter of a strategy guide stands for: `A`/`X` rock,
/// `B`/`Y` paper, `C`/`Z` scissors, in either case.
pub open spec fn shape_of(c: char) -> Option<RockPaperScissors> {
    if c == 'A' || c == 'X' || c == 'a' || c == 'x' {
        Some(RockPaperScissors::Rock)
    } else if c == 'B' || c == 'Y' || c == 'b' || c == 'y' {
        Some(RockPaperScissors::Paper)
    } else if c == 'C' || c == 'Z' || c == 'c' || c == 'z' {
        Some(RockPaperScissors::Scissors)
    } else {
        None
    }
}

/// The outcome that a letter stands for: `X` loss, `Y` draw, `Z` win, in
/// either case.
pub open spec fn outcome_of(c: char) -> Option<Outcome> {
    if c == 'X' || c == 'x' {
        Some(Outcome::Loss)
    } else if c == 'Y' || c == 'y' {
        Some(Outcome::Draw)
    } else if c == 'Z' || c == 'z' {
        Some(Outcome::Win)
    } else {
        None
    }
}

/// Points for a shape: 1, 2 and 3.
pub open spec fn shape_points(s: RockPaperScissors) -> int {
    match s {
        RockPaperScissors::Rock => 1,
        RockPaperScissors::Paper => 2,
        RockPaperScissors::Scissors => 3,
    }
}

/// Points for an outcome: 0, 3 and 6.
pub open spec fn outcome_points(o: Outcome) -> int {
    match o {
        Outcome::Loss => 0,
        Outcome::Draw => 3,
        Outcome::Win => 6,
    }
}

/// The shape that `s` beats.
pub open spec fn beaten_by(s: RockPaperScissors) -> RockPaperScissors {
    match s {
        RockPaperScissors::Rock => RockPaperScissors::Scissors,
        RockPaperScissors::Paper => RockPaperScissors::Rock,
        RockPaperScissors::Scissors => RockPaperScissors::Paper,
    }
}

/// How the round ends for the player who shows `response` against `opponent`.
pub open spec fn outcome_between(opponent: RockPaperScissors, response: RockPaperScissors) -> Outcome {
    if opponent == response {
        Outcome::Draw
    } else if beaten_by(response) == opponent {
        Outcome::Win
    } else {
        Outcome::Loss
    }
}

/// The shape to show against `opponent` for the round to end in `outcome`.
pub open spec fn response_for(opponent: RockPaperScissors, outcome: Outcome) -> RockPaperScissors {
    match outcome {
        Outcome::Draw => opponent,
        Outcome::Loss => beaten_by(opponent),
        Outcome::Win => beaten_by(beaten_by(opponent)),
    }
}

impl RockPaperScissors {
    /// The shape that the letter `c` stands for.
    pub fn parse(c: char) -> (r: Option<RockPaperScissors>)
        ensures
            r == shape_of(c),
    {
        if c == 'A' || c == 'X' || c == 'a' || c == 'x' {
            Some(RockPaperScissors::Rock)
        } else if c == 'B' || c == 'Y' || c == 'b' || c == 'y' {
            Some(RockPaperScissors::Paper)
        } else if c == 'C' || c == 'Z' || c == 'c' || c == 'z' {
            Some(RockPaperScissors::Scissors)
        } else {
            None
        }
    }

    /// Points for this shape.
    pub fn points(self) -> (r: u32)
        ensures
            r == shape_points(self),
    {
        match self {
            RockPaperScissors::Rock => 1,
            RockPaperScissors::Paper => 2,
            RockPaperScissors::Scissors => 3,
        }
    }
}

impl Outcome {
    /// The outcome that the letter `c` stands for.
    pub fn parse(c: char) -> (r: Option<Outcome>)
        ensures
            r == outcome_of(c),
    {
        if c == 'X' || c == 'x' {
            Some(Outcome::Loss)
        } else if c == 'Y' || c == 'y' {
            Some(Outcome::Draw)
        } else if c == 'Z' || c == 'z' {
            Some(Outcome::Win)
        } else {
            None
        }
    }

    /// Points for this outcome.
    pub fn points(self) -> (r: u32)
        ensures
            r == outcome_points(self),
    {
        match self {
            Outcome::Loss => 0,
            Outcome::Draw => 3,
            Outcome::Win => 6,
        }
    }
}

/// A round read as the opponent's shape and the response to show.
#[derive(Clone, Copy, Debug, PartialEq, Eq, Structural)]
pub struct Match {
    pub opponent_move: RockPaperScissors,
    pub response: RockPaperScissors,
}

/// A round read as the opponent's shape and the outcome to reach.
#[derive(Clone, Copy, Debug, PartialEq, Eq, Structural)]
pub struct Match2 {
    pub opponent_move: RockPaperScissors,
    pub outcome: Outcome,
}

/// The two letters of a guide line `"<a> <b>"`: its first and third
/// characters.
pub open spec fn guide_letters(line: Seq<char>) -> Option<(char, char)> {
    if line.len() >= 3 {
        Some((line[0], line[2]))
    } else {
        None
    }
}

/// The round that a guide line describes, read as shape and response.
pub open spec fn match_of(line: Seq<char>) -> Option<Match> {
    match guide_letters(line) {
        Some((a, b)) => match (shape_of(a), shape_of(b)) {
            (Some(o), Some(s)) => Some(Match { opponent_move: o, response: s }),
            _ => None,
        },
        None => None,
    }
}

/// The round that a guide line describes, read as shape and outcome.
pub open spec fn match2_of(line: Seq<char>) -> Option<Match2> {
    match guide_letters(line) {
        Some((a, b)) => match (shape_of(a), outcome_of(b)) {
            (Some(o), Some(e)) => Some(Match2 { opponent_move: o, outcome: e }),
            _ => None,
        },
        None => None,
    }
}

/// The score of a round read as shape and response.
pub open spec fn match_score(m: Match) -> int {
    shape_points(m.response) + outcome_points(outcome_between(m.opponent_move, m.response))
}

/// The score of a round read as shape and outcome.
pub open spec fn match2_score(m: Match2) -> int {
    shape_points(response_for(m.opponent_move, m.outcome)) + outcome_points(m.outcome)
}

/// The score of a guide line read as shape and response.
pub open spec fn line_score(line: Seq<char>) -> Option<int> {
    match match_of(line) {
        Some(m) => Some(match_score(m)),
        None => None,
    }
}

/// The score of a guide line read as shape and outcome.
pub open spec fn line_score2(line: Seq<char>) -> Option<int> {
    match match2_of(line) {
        Some(m) => Some(match2_score(m)),
        None => None,
    }
}

/// The total score of a strategy guide, each line read as shape and
/// response (`by_outcome` false) or as shape and outcome (`by_outcome`
/// true); `None` if a line is not a round.
pub fn total_score(lines: &Vec<String>, by_outcome: bool) -> (r: Option<u64>)
    requires
        lines@.len() <= u32::MAX,
    ensures
        !by_outcome ==> as_total(r) == total_of(string_views(lines@), |l: Seq<char>| line_score(l)),
        by_outcome ==> as_total(r) == total_of(string_views(lines@), |l: Seq<char>| line_score2(l)),
{
    let ghost ls = string_views(lines@);
    let ghost f = if by_outcome { |l: Seq<char>| line_score2(l) } else { |l: Seq<char>| line_score(l) };
    let mut t: u64 = 0;
    let mut i: usize = 0;
    assert(total_of(ls.subrange(0, 0), f) == Some(0int));
    while i < lines.len()
        invariant
            ls == string_views(lines@),
            f == (if by_outcome { |l: Seq<char>| line_score2(l) } else { |l: Seq<char>| line_score(l) }),
            lines@.len() <= u32::MAX,
            i <= lines@.len(),
            t <= 9 * i,
            total_of(ls.subrange(0, i as int), f) == Some(t as int),
        decreases lines@.len() - i,
    {
        let line = lines[i].as_str();
        proof {
            let p = ls.subrange(0, i as int + 1);
            assert(p.drop_last() =~= ls.subrange(0, i as int));
            assert(p.last() == line@);
        }
        let s = if by_outcome {
            match Match2::parse(line) {
                Some(m) => m.score(),
                None => {
                    proof {
                        crate::text::lemma_total_of_none(ls, f, i as int + 1);
                    }
                    return None;
                },
            }
        } else {
            match Match::parse(line) {
                Some(m) => m.score(),
                None => {
                    proof {
                        crate::text::lemma_total_of_none(ls, f, i as int + 1);
                    }
                    return None;
                },
            }
        };
        t = t + s as u64;
        i += 1;
    }
    assert(ls.subrange(0, i as int) =~= ls);
    Some(t)
}

impl Match {
    /// Reads a guide line as the opponent's shape and the response.
    pub fn parse(line: &str) -> (r: Option<Match>)
        ensures
            r == match_of(line@),
    {
        if line.unicode_len() < 3 {
            return None;
        }
        match (RockPaperScissors::parse(line.get_char(0)), RockPaperScissors::parse(line.get_char(2))) {
            (Some(o), Some(s)) => Some(Match { opponent_move: o, response: s }),
            _ => None,
        }
    }

    /// The response's score: the points for its shape and for the outcome.
    pub fn score(&self) -> (r: u32)
        ensures
            r == match_score(*self),
    {
        let shape_score = self.response.points();
        if self.opponent_move == self.response {
            return shape_score + Outcome::Draw.points();
        }
        let won = match self.opponent_move {
            RockPaperScissors::Rock => self.response == RockPaperScissors::Paper,
            RockPaperScissors::Paper => self.response == RockPaperScissors::Scissors,
            RockPaperScissors::Scissors => self.response == RockPaperScissors::Rock,
        };
        if won {
            shape_score + Outcome::Win.points()
        } else {
            shape_score + Outcome::Loss.points()
        }
    }
}

impl Match2 {
    /// Reads a guide line as the opponent's shape and the outcome to reach.
    pub fn parse(line: &str) -> (r: Option<Match2>)
        ensures
            r == match2_of(line@),
    {
        if line.unicode_len() < 3 {
            return None;
        }
        match (RockPaperScissors::parse(line.get_char(0)), Outcome::parse(line.get_char(2))) {
            (Some(o), Some(e)) => Some(Match2 { opponent_move: o, outcome: e }),
            _ => None,
        }
    }

    /// The score of the response that reaches the outcome.
    pub fn score(&self) -> (r: u32)
        ensures
            r == match2_score(*self),
    {
        let opponent_piece = self.opponent_move.points();
        match self.outcome {
            Outcome::Win => (opponent_piece % 3 + 1) + Outcome::Win.points(),
            Outcome::Loss => (opponent_piece + 1) % 3 + 1 + Outcome::Loss.points(),
            Outcome::Draw => opponent_piece + Outcome::Draw.points(),
        }
    }
}

/// Reading a round by its outcome scores the same as reading it by the
/// response that reaches that outcome.
pub proof fn lemma_outcome_scores_as_response(opponent: RockPaperScissors, outcome: Outcome)
    ensures
        outcome_between(opponent, response_for(opponent, outcome)) == outcome,
        match2_score(Match2 { opponent_move: opponent, outcome }) == match_score(
            Match { opponent_move: opponent, response: response_for(opponent, outcome) },
        ),
{
}

} // verus!
