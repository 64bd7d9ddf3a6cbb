use depcheck::text::{decimal_string, find_first, find_first_arrow, find_last_arrow_end, find_last_end, hex_str, remove_char, same_text, trim};
use depcheck::utils::{
    colorize_number, colorize_time, colorized_seconds, get_time_unit, strip_ansi, time_unit,
};
use std::time::Duration;

#[test]
fn strip_removes_colour_sequences() {
    assert_eq!(strip_ansi("\x1b[31mOutdated\x1b[39m"), "Outdated");
    assert_eq!(strip_ansi("\x1b[1m\x1b[33m42\x1b[39m\x1b[0m"), "42");
    assert_eq!(strip_ansi("\x1b[1;31mbold red\x1b[0m"), "bold red");
    assert_eq!(strip_ansi("\x1b[Kline"), "line");
    assert_eq!(strip_ansi("\x1b[mreset"), "reset");
}

#[test]
fn strip_leaves_other_text() {
    assert_eq!(strip_ansi("plain"), "plain");
    assert_eq!(strip_ansi(""), "");
    assert_eq!(strip_ansi("\x1b[123mtoo long"), "\x1b[123mtoo long");
    assert_eq!(strip_ansi("[31m no escape"), "[31m no escape");
}

#[test]
fn one_digit_is_green() {
    assert_eq!(colorize_number(&0), "\x1b[1m\x1b[32m0\x1b[39m\x1b[0m");
    assert_eq!(colorize_number(&9), "\x1b[1m\x1b[32m9\x1b[39m\x1b[0m");
}

#[test]
fn two_digits_are_yellow() {
    assert_eq!(colorize_number(&10), "\x1b[1m\x1b[33m10\x1b[39m\x1b[0m");
    assert_eq!(colorize_number(&99), "\x1b[1m\x1b[33m99\x1b[39m\x1b[0m");
}

#[test]
fn three_digits_and_more_are_red() {
    assert_eq!(colorize_number(&100), "\x1b[1m\x1b[31m100\x1b[39m\x1b[0m");
    assert_eq!(colorize_number(&12345), "\x1b[1m\x1b[31m12345\x1b[39m\x1b[0m");
}

#[test]
fn time_in_seconds() {
    assert_eq!(get_time_unit(&Duration::from_secs(0)), "0s");
    assert_eq!(get_time_unit(&Duration::from_secs(59)), "59s");
    assert_eq!(get_time_unit(&Duration::from_millis(1999)), "1s");
}

#[test]
fn time_in_minutes() {
    assert_eq!(get_time_unit(&Duration::from_secs(60)), "1m");
    assert_eq!(get_time_unit(&Duration::from_secs(3599)), "59m");
}

#[test]
fn time_in_hours() {
    assert_eq!(get_time_unit(&Duration::from_secs(3600)), "1h");
    assert_eq!(get_time_unit(&Duration::from_secs(86399)), "23h");
}

#[test]
fn time_in_days() {
    assert_eq!(get_time_unit(&Duration::from_secs(86400)), "1d");
    assert_eq!(get_time_unit(&Duration::from_secs(10 * 86400 + 5)), "10d");
    assert_eq!(get_time_unit(&Duration::from_secs(u64::MAX)), "213503982334601d");
}

#[test]
fn short_time_is_green() {
    assert_eq!(colorize_time(&Duration::from_secs(3)), "\x1b[32m3s\x1b[39m");
    assert_eq!(colorize_time(&Duration::from_secs(10)), "\x1b[32m10s\x1b[39m");
}

#[test]
fn middling_time_is_yellow() {
    assert_eq!(colorize_time(&Duration::from_secs(11)), "\x1b[33m11s\x1b[39m");
    assert_eq!(colorize_time(&Duration::from_secs(60)), "\x1b[33m1m\x1b[39m");
}

#[test]
fn long_time_is_red() {
    assert_eq!(colorize_time(&Duration::from_secs(61)), "\x1b[31m1m\x1b[39m");
    assert_eq!(colorize_time(&Duration::from_secs(7200)), "\x1b[31m2h\x1b[39m");
}

#[test]
fn decimal_digits() {
    assert_eq!(decimal_string(0), "0");
    assert_eq!(decimal_string(7), "7");
    assert_eq!(decimal_string(10), "10");
    assert_eq!(decimal_string(1234567890), "1234567890");
    assert_eq!(decimal_string(u64::MAX), "18446744073709551615");
}

#[test]
fn hex_digits() {
    assert_eq!(hex_str(0), "0");
    assert_eq!(hex_str(9), "9");
    assert_eq!(hex_str(10), "A");
    assert_eq!(hex_str(15), "F");
}

#[test]
fn same_text_compares_characters() {
    assert!(same_text("abc", "abc"));
    assert!(same_text("", ""));
    assert!(!same_text("abc", "abd"));
    assert!(!same_text("abc", "ab"));
    assert!(!same_text("\u{e9}", "e"));
}

#[test]
fn find_first_gives_place_or_length() {
    assert_eq!(find_first("react(1 -> 2)", '('), 5);
    assert_eq!(find_first("a((b", '('), 1);
    assert_eq!(find_first("none", '('), 4);
    assert_eq!(find_first("", '('), 0);
    assert_eq!(find_first("\u{e9}\u{e9}(", '('), 2);
}

#[test]
fn find_last_end_gives_place_behind_or_zero() {
    assert_eq!(find_last_end("react(1 -> 2)", '('), 6);
    assert_eq!(find_last_end("a((b", '('), 3);
    assert_eq!(find_last_end("none", '('), 0);
    assert_eq!(find_last_end("", '('), 0);
}

#[test]
fn find_arrows() {
    assert_eq!(find_first_arrow("1 -> 2 -> 3"), 2);
    assert_eq!(find_last_arrow_end("1 -> 2 -> 3"), 9);
    assert_eq!(find_first_arrow("no arrow"), 8);
    assert_eq!(find_last_arrow_end("no arrow"), 0);
    assert_eq!(find_first_arrow("->"), 0);
    assert_eq!(find_last_arrow_end("->"), 2);
    assert_eq!(find_first_arrow("-"), 1);
    assert_eq!(find_first_arrow(""), 0);
    assert_eq!(find_first_arrow("-->"), 1);
    assert_eq!(find_last_arrow_end("->-"), 2);
}

#[test]
fn remove_char_drops_every_occurrence() {
    assert_eq!(remove_char("\"^1.0.0\"", '"'), "^1.0.0");
    assert_eq!(remove_char(" 2.0.0)", ')'), " 2.0.0");
    assert_eq!(remove_char(")))", ')'), "");
    assert_eq!(remove_char("abc", 'x'), "abc");
}

#[test]
fn trim_drops_white_space_at_the_ends() {
    assert_eq!(trim("  1.0.0 \n"), "1.0.0");
    assert_eq!(trim("\t a b \r\n"), "a b");
    assert_eq!(trim("\u{a0}\u{2003}x\u{3000}"), "x");
    assert_eq!(trim("   "), "");
    assert_eq!(trim(""), "");
    assert_eq!(trim("x"), "x");
}

#[test]
fn trim_agrees_with_std() {
    for s in [" a ", "\u{85}b\u{1680}", "\u{2028}c\u{2029}", "\u{202f}d\u{205f}", "\u{b}e\u{c}", "\u{200b}f"] {
        assert_eq!(trim(s), s.trim());
    }
}

#[test]
fn text_without_escape_is_untouched() {
    for s in ["react(17.0.0 -> 18.2.0)", "[31m", "m|K", "a\u{9b}31mb"] {
        assert_eq!(strip_ansi(s), s);
    }
}

#[test]
fn escape_that_begins_no_sequence_stays() {
    assert_eq!(strip_ansi("\x1b"), "\x1b");
    assert_eq!(strip_ansi("a\x1bb"), "a\x1bb");
    assert_eq!(strip_ansi("\x1b[31"), "\x1b[31");
    assert_eq!(strip_ansi("\x1b[|bar"), "bar");
}

#[test]
fn seconds_in_their_largest_unit() {
    assert_eq!(time_unit(0), "0s");
    assert_eq!(time_unit(59), "59s");
    assert_eq!(time_unit(60), "1m");
    assert_eq!(time_unit(119), "1m");
    assert_eq!(time_unit(3600), "1h");
    assert_eq!(time_unit(172800), "2d");
}

#[test]
fn seconds_in_colour() {
    assert_eq!(colorized_seconds(10), "\x1b[32m10s\x1b[39m");
    assert_eq!(colorized_seconds(60), "\x1b[33m1m\x1b[39m");
    assert_eq!(colorized_seconds(61), "\x1b[31m1m\x1b[39m");
}
