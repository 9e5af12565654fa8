use aoc2022::scanner::{find_run_end, position_after_consecutive_unique_n, ScanError};

#[test]
fn test_find_start_of_packet() {
    let inputs = vec![
        ("mjqjpqmgbljsphdztnvjfqwrcgsmlb", 7),
        ("bvwbjplbgvbhsrlpgdmjqwftvncz", 5),
        ("nppdvjthqldpwncqszvftbrmjlhg", 6),
        ("nznrnfrfntjfmvfwmzdfjlvtqnbhcprsg", 10),
        ("zcfzfwzzqfrljwzlrfnpqdbhtmscgvjw", 11),
    ];

    for (data, start_location) in inputs {
        assert_eq!(position_after_consecutive_unique_n(data, 4), Ok(start_location))
    }
}

#[test]
fn test_start_of_messages() {
    let inputs = vec![
        ("mjqjpqmgbljsphdztnvjfqwrcgsmlb", 19),
        ("bvwbjplbgvbhsrlpgdmjqwftvncz", 23),
        ("nppdvjthqldpwncqszvftbrmjlhg", 23),
        ("nznrnfrfntjfmvfwmzdfjlvtqnbhcprsg", 29),
        ("zcfzfwzzqfrljwzlrfnpqdbhtmscgvjw", 26),
    ];

    for (data, start_location) in inputs {
        assert_eq!(
            position_after_consecutive_unique_n(data, 14),
            Ok(start_location)
        )
    }
}

#[test]
fn scanner_first_window_is_distinct_and_earlier_ones_are_not() {
    let data = "mjqjpqmgbljsphdztnvjfqwrcgsmlb";
    let chars: Vec<char> = data.chars().collect();
    let e = position_after_consecutive_unique_n(data, 4).unwrap();
    let window: std::collections::HashSet<char> = chars[e - 4..e].iter().cloned().collect();
    assert_eq!(window.len(), 4);
    for k in 4..e {
        let earlier: std::collections::HashSet<char> = chars[k - 4..k].iter().cloned().collect();
        assert!(earlier.len() < 4);
    }
}

#[test]
fn scanner_width_beyond_input_is_not_found() {
    assert_eq!(position_after_consecutive_unique_n("abc", 4), Err(ScanError::NotFound));
    assert_eq!(position_after_consecutive_unique_n("", 1), Err(ScanError::NotFound));
}

#[test]
fn scanner_no_distinct_window_is_not_found() {
    assert_eq!(position_after_consecutive_unique_n("aabbaabb", 3), Err(ScanError::NotFound));
}

#[test]
fn scanner_whole_input_and_width_one() {
    assert_eq!(position_after_consecutive_unique_n("abcd", 4), Ok(4));
    assert_eq!(position_after_consecutive_unique_n("zzz", 1), Ok(1));
}

#[test]
fn scanner_on_char_vectors() {
    let v: Vec<char> = "aabcd".chars().collect();
    assert_eq!(find_run_end(&v, 3), Ok(4));
    assert_eq!(find_run_end(&v, 5), Err(ScanError::NotFound));
}
