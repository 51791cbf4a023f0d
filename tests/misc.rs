use std::time::Duration;

use portal::clock::duration_to_millis;
use portal::log_level::{parse_log_level, LogLevel};
use portal::result::GameResult;

#[test]
fn millis_of_whole_and_fractional_seconds() {
    assert_eq!(duration_to_millis(Duration::new(3, 456_789_000)), 3456);
    assert_eq!(duration_to_millis(Duration::new(0, 999_999)), 0);
    assert_eq!(duration_to_millis(Duration::from_millis(16)), 16);
}

#[test]
fn game_result_ok_and_err() {
    let r: GameResult<u32> = GameResult::ok(7);
    assert_eq!(r.0, Ok(7));
    let e: GameResult<u32> = GameResult::err("no mesh");
    assert_eq!(e.0, Err(String::from("no mesh")));
    let n: GameResult<u32> = GameResult::err(42);
    assert_eq!(n.0, Err(String::from("42")));
}

#[test]
fn game_result_map_err() {
    let e: GameResult<u32> = GameResult::err("bad");
    let m = e.map_err(|s| format!("outer: {}", s));
    assert_eq!(m.0, Err(String::from("outer: bad")));
    let o: GameResult<u32> = GameResult::ok(1);
    assert_eq!(o.map_err(|s| s + "!").0, Ok(1));
}

#[test]
fn log_level_names_in_any_case() {
    assert_eq!(parse_log_level("off"), Some(LogLevel::Off));
    assert_eq!(parse_log_level("  ERROR\n"), Some(LogLevel::Error));
    assert_eq!(parse_log_level("Warn"), Some(LogLevel::Warn));
    assert_eq!(parse_log_level("info"), Some(LogLevel::Info));
    assert_eq!(parse_log_level("dEbUg"), Some(LogLevel::Debug));
    assert_eq!(parse_log_level("trace "), Some(LogLevel::Trace));
    assert_eq!(parse_log_level(""), None);
    assert_eq!(parse_log_level("verbose"), None);
    assert_eq!(parse_log_level("in fo"), None);
    assert_eq!(parse_log_level("\u{3000}\tinfo\u{a0}\u{2028}"), Some(LogLevel::Info));
    assert_eq!(parse_log_level("info\u{200b}"), None);
}
