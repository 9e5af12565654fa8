//! Solutions to small text puzzles, each stated and proved over a
//! mathematical model of its input.

pub mod text;
pub mod scanner;
pub mod yard;
pub mod rucksack;
pub mod rps;
pub mod ranges;
pub mod calories;
