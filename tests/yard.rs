use aoc2022::yard::{CrateStack, Movement, Stacks, YardError};

fn drawn_yard() -> Stacks {
    let rows = vec![
        "    [D]    ".to_string(),
        "[N] [C]    ".to_string(),
        "[Z] [M] [P]".to_string(),
    ];
    Stacks::parse_diagram(&rows, 3).unwrap()
}

fn labels(y: &Stacks) -> Vec<String> {
    y.stacks.iter().map(|s| s.0.iter().collect()).collect()
}

fn moves() -> Vec<Movement> {
    ["move 1 from 2 to 1", "move 3 from 1 to 3", "move 2 from 2 to 1", "move 1 from 1 to 2"]
        .iter()
        .map(|l| Movement::parse(l).unwrap())
        .collect()
}

#[test]
fn yard_scenario_one_at_a_time() {
    let mut y = drawn_yard();
    for m in moves() {
        y.move_crates_individually(&m).unwrap();
    }
    assert_eq!(y.top_crates(), "CMZ");
}

#[test]
fn yard_scenario_as_block() {
    let mut y = drawn_yard();
    for m in moves() {
        y.move_crates_together(&m).unwrap();
    }
    assert_eq!(y.top_crates(), "MCD");
}

#[test]
fn yard_diagram_is_built_bottom_up() {
    let y = drawn_yard();
    assert_eq!(labels(&y), vec!["ZN", "MCD", "P"]);
    assert_eq!(y.top_labels(), vec![Some('N'), Some('D'), Some('P')]);
}

#[test]
fn yard_uneven_diagram_rows() {
    let rows = vec!["[Z]     [D]".to_string(), "[N] [C]".to_string(), "[M] [Q] [P]".to_string()];
    let mut y = Stacks::parse_diagram(&rows, 3).unwrap();
    assert_eq!(labels(&y), vec!["MNZ", "QC", "PD"]);
    let ms = moves();
    y.move_crates_individually(&ms[0]).unwrap();
    y.move_crates_individually(&ms[1]).unwrap();
    assert_eq!(labels(&y), vec!["M", "Q", "PDCZN"]);
    assert_eq!(y.move_crates_individually(&ms[2]), Err(YardError::InsufficientItems));
}

#[test]
fn yard_block_keeps_order() {
    let mut y = drawn_yard();
    y.move_crates_together(&Movement { origin: 1, destination: 2, quantity: 2 }).unwrap();
    assert_eq!(labels(&y), vec!["ZN", "M", "PCD"]);
}

#[test]
fn yard_single_reverses_order() {
    let mut y = drawn_yard();
    y.move_crates_individually(&Movement { origin: 1, destination: 2, quantity: 2 }).unwrap();
    assert_eq!(labels(&y), vec!["ZN", "M", "PDC"]);
}

#[test]
fn yard_move_conserves_crates() {
    let mut y = drawn_yard();
    y.move_crates_individually(&Movement { origin: 1, destination: 0, quantity: 3 }).unwrap();
    assert_eq!(labels(&y), vec!["ZNDCM", "", "P"]);
    assert_eq!(y.top_labels(), vec![Some('M'), None, Some('P')]);
    assert_eq!(y.top_crates(), "M P");
}

#[test]
fn yard_rejected_moves_leave_yard_unchanged() {
    let mut y = drawn_yard();
    let before = labels(&y);
    let cases = vec![
        (Movement { origin: 2, destination: 0, quantity: 2 }, YardError::InsufficientItems),
        (Movement { origin: 1, destination: 1, quantity: 1 }, YardError::SameStack),
        (Movement { origin: 3, destination: 0, quantity: 1 }, YardError::InvalidIndex),
        (Movement { origin: 0, destination: 7, quantity: 0 }, YardError::InvalidIndex),
    ];
    for (m, e) in cases {
        assert_eq!(y.move_crates_individually(&m), Err(e));
        assert_eq!(labels(&y), before);
        assert_eq!(y.move_crates_together(&m), Err(e));
        assert_eq!(labels(&y), before);
    }
}

#[test]
fn yard_malformed_rows() {
    let mut y = Stacks::with_capacity(2);
    assert_eq!(y.parse_row("[A] (B)"), Err(YardError::MalformedRow));
    assert_eq!(y.parse_row("[A] [B"), Err(YardError::MalformedRow));
    assert_eq!(y.parse_row("[A] [B] [C]"), Err(YardError::MalformedRow));
    assert_eq!(labels(&y), vec!["", ""]);
    assert_eq!(y.parse_row("[A]        "), Ok(()));
    assert_eq!(labels(&y), vec!["A", ""]);
    let rows = vec!["[A] {B}".to_string()];
    assert!(Stacks::parse_diagram(&rows, 2).is_err());
}

#[test]
fn yard_commands() {
    assert_eq!(
        Movement::parse("move 3 from 1 to 3"),
        Ok(Movement { origin: 0, destination: 2, quantity: 3 })
    );
    assert_eq!(Movement::parse("move 1 from 2 to 2"), Err(YardError::SameStack));
    assert_eq!(Movement::parse("move 1 from 0 to 2"), Err(YardError::MalformedCommand));
    assert_eq!(Movement::parse("move x from 1 to 2"), Err(YardError::MalformedCommand));
    assert_eq!(Movement::parse("shift 1 from 1 to 2"), Err(YardError::MalformedCommand));
    assert_eq!(Movement::parse("move 1 from 1 to"), Err(YardError::MalformedCommand));
}

#[test]
fn crate_stack_move_crates() {
    let mut a = CrateStack("XYZ".chars().collect());
    let mut b = CrateStack::new();
    assert_eq!(a.move_crates(&mut b, 4), Err(YardError::InsufficientItems));
    assert_eq!(a.move_crates(&mut b, 2), Ok(()));
    assert_eq!(a.0, vec!['X']);
    assert_eq!(b.0, vec!['Z', 'Y']);
}
