use scorebridge::dispatch::Dispatcher;
use scorebridge::parser::parse;
use scorebridge::reader::{line_step, read_line};

#[test]
fn parse_full_line_with_shot_clock() {
    let u = parse("2:15.4 10  45 42 3 2").unwrap();
    assert_eq!(u.game_clock, "2:15.4");
    assert_eq!(u.shot_clock, "10");
    assert_eq!(u.home_score, "45");
    assert_eq!(u.away_score, "42");
    assert_eq!(u.home_fouls, "3");
    assert_eq!(u.away_fouls, "2");
}

#[test]
fn parse_line_without_shot_clock() {
    let u = parse("0:45  12 10 1 0").unwrap();
    assert_eq!(u.game_clock, "0:45");
    assert_eq!(u.shot_clock, "");
    assert_eq!(u.home_score, "12");
    assert_eq!(u.away_score, "10");
    assert_eq!(u.home_fouls, "1");
    assert_eq!(u.away_fouls, "0");
}

#[test]
fn parse_rejects_garbage() {
    assert!(parse("garbage text").is_err());
}

#[test]
fn parse_rejects_two_digit_away_fouls() {
    assert!(parse("2:15.4 10 45 42 3 22").is_err());
}

#[test]
fn parse_minute_clock_five_tokens() {
    let u = parse("12:00 5 0 0 0 0").unwrap();
    assert_eq!(u.game_clock, "12:00");
    assert_eq!(u.shot_clock, "5");
    assert_eq!(u.home_score, "0");
    assert_eq!(u.away_score, "0");
    assert_eq!(u.home_fouls, "0");
    assert_eq!(u.away_fouls, "0");
}

#[test]
fn parse_unit_marker_with_shot_clock() {
    let u = parse("2:15 s 10 45 42 3 2").unwrap();
    assert_eq!(u.game_clock, "2:15");
    assert_eq!(u.shot_clock, "10");
    assert_eq!(u.home_score, "45");
    assert_eq!(u.away_score, "42");
    assert_eq!(u.home_fouls, "3");
    assert_eq!(u.away_fouls, "2");
}

#[test]
fn parse_unit_marker_without_shot_clock() {
    let u = parse("2:15s 45 42 3 2").unwrap();
    assert_eq!(u.game_clock, "2:15");
    assert_eq!(u.shot_clock, "");
    assert_eq!(u.home_score, "45");
    assert_eq!(u.away_score, "42");
    assert_eq!(u.home_fouls, "3");
    assert_eq!(u.away_fouls, "2");
}

#[test]
fn parse_shot_clock_adjacent_to_clock() {
    let u = parse("2:1545 42 3 2 1").unwrap();
    assert_eq!(u.game_clock, "2:15");
    assert_eq!(u.shot_clock, "45");
    assert_eq!(u.home_score, "42");
    assert_eq!(u.away_score, "3");
    assert_eq!(u.home_fouls, "2");
    assert_eq!(u.away_fouls, "1");
}

#[test]
fn parse_rejects_missing_mandatory_token() {
    assert!(parse("2:15 45 42 3").is_err());
}

#[test]
fn parse_four_tokens_after_possible_shot_clock() {
    // Four tokens always read as the four mandatory fields, never as a
    // shot clock plus three.
    let u = parse("2:15 10 45 42 3").unwrap();
    assert_eq!(u.shot_clock, "");
    assert_eq!(u.home_score, "10");
    assert_eq!(u.away_score, "45");
    assert_eq!(u.home_fouls, "42");
    assert_eq!(u.away_fouls, "3");
}

#[test]
fn parse_rejects_three_digit_shot_clock() {
    assert!(parse("2:15 123 45 42 3 2").is_err());
}

#[test]
fn parse_rejects_trailing_text() {
    assert!(parse("2:15 10 45 42 3 2 ").is_err());
    assert!(parse("2:15 10 45 42 3 2 x").is_err());
}

#[test]
fn parse_rejects_leading_whitespace() {
    assert!(parse(" 2:15 10 45 42 3 2").is_err());
}

#[test]
fn parse_rejects_bad_clock() {
    assert!(parse("123:45 10 45 42 3 2").is_err());
    assert!(parse("2:5 10 45 42 3 2").is_err());
    assert!(parse("2:15. 10 45 42 3 2").is_err());
    assert!(parse(":15 10 45 42 3 2").is_err());
}

#[test]
fn parse_accepts_tab_separators() {
    let u = parse("2:15\t10\t45\t42\t3\t2").unwrap();
    assert_eq!(u.shot_clock, "10");
    assert_eq!(u.home_score, "45");
    assert_eq!(u.away_fouls, "2");
}

#[test]
fn parse_rejects_empty_line() {
    assert!(parse("").is_err());
}

#[test]
fn read_line_returns_bytes_before_eot() {
    let bytes: Vec<u8> = b"12:00 5 0 0 0 0\x04".to_vec();
    assert_eq!(read_line(&bytes).unwrap(), "12:00 5 0 0 0 0");
}

#[test]
fn read_line_ignores_bytes_after_eot() {
    let bytes: Vec<u8> = b"ab\x04cd".to_vec();
    assert_eq!(read_line(&bytes).unwrap(), "ab");
}

#[test]
fn read_line_empty_before_eot() {
    let bytes: Vec<u8> = b"\x04rest".to_vec();
    assert_eq!(read_line(&bytes).unwrap(), "");
}

#[test]
fn read_line_none_without_eot() {
    let bytes: Vec<u8> = b"12:00 5 0 0 0 0".to_vec();
    assert!(read_line(&bytes).is_none());
}

#[test]
fn line_step_accumulates_and_stops_at_eot() {
    let mut line = String::new();
    assert!(!line_step(&mut line, b'h'));
    assert!(!line_step(&mut line, b'i'));
    assert_eq!(line, "hi");
    assert!(line_step(&mut line, 4));
    assert_eq!(line, "hi");
}

#[test]
fn dispatch_emits_six_updates_in_order() {
    let u = parse("2:15.4 10  45 42 3 2").unwrap();
    let mut d = Dispatcher::new(u);
    let mut seen: Vec<(String, String)> = Vec::new();
    while let Some(pair) = d.step(false) {
        seen.push(pair);
    }
    let expected = vec![
        ("fade:Home-Score", "45"),
        ("fade:Away-Score", "42"),
        ("Clock", "2:15.4"),
        ("Shot-Clock", "10"),
        ("Home-Fouls", "3"),
        ("Away-Fouls", "2"),
    ];
    assert_eq!(seen.len(), 6);
    for (got, want) in seen.iter().zip(expected.iter()) {
        assert_eq!(got.0, want.0);
        assert_eq!(got.1, want.1);
    }
}

#[test]
fn dispatch_continues_past_failures() {
    let u = parse("0:45  12 10 1 0").unwrap();
    let mut d = Dispatcher::new(u);
    // Every attempt reports failure; all six updates are still handed
    // out, and the empty shot clock is still among them.
    let mut seen: Vec<(String, String)> = Vec::new();
    while let Some(pair) = d.step(true) {
        seen.push(pair);
    }
    assert_eq!(seen.len(), 6);
    assert_eq!(seen[3].0, "Shot-Clock");
    assert_eq!(seen[3].1, "");
}

#[test]
fn dispatch_stops_after_six() {
    let u = parse("0:45  12 10 1 0").unwrap();
    let mut d = Dispatcher::new(u);
    for _ in 0..6 {
        assert!(d.step(false).is_some());
    }
    assert!(d.step(false).is_none());
    assert!(d.step(true).is_none());
}
