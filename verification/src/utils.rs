//! What the command line shows besides the report: counts and durations in
//! colour, and texts freed of colour.

use std::time::Duration;
use vstd::prelude::*;
use vstd::string::StringExecFns;
use crate::paint::{bold, green, paint_bold, paint_green, paint_red, paint_yellow, red, yellow};
use crate::text::{decimal, decimal_string, find_first, first_place, lemma_first_place};

verus! {

/// The pattern of an escape sequence that sets colours or erases a line:
/// `ESC [`, then nothing, or a number of one or two digits, or two such
/// numbers with `;` between them, then one of `m`, `|` and `K`.
pub const ANSI_PATTERN: &'static str = r"\x1B\[([0-9]{1,2}(;[0-9]{1,2})?)?[m|K]";

/// The character that every escape sequence begins with.
pub const ESCAPE: char = '\u{1b}';

/// `text` with every match of the regular expression `pattern` replaced by
/// `with`, as the `regex` crate finds the matches and expands `with`;
/// `None` where `pattern` is no regular expression.
pub uninterp spec fn regex_replaced(pattern: Seq<char>, text: Seq<char>, with: Seq<char>) -> Option<
    Seq<char>,
>;

/// Compiles `pattern` with `regex::Regex::new` and replaces every match in
/// `text` with `regex::Regex::replace_all`. Nothing is claimed of what a
/// pattern matches: the result is the value that [`regex_replaced`] names.
#[verifier::external_body]
fn replace_all(pattern: &str, text: &str, with: &str) -> (out: Option<String>)
    ensures
        out.is_some() == regex_replaced(pattern@, text@, with@).is_some(),
        out matches Some(t) ==> t@ == regex_replaced(pattern@, text@, with@).unwrap(),
{
    let re = regex::Regex::new(pattern).ok()?;
    Some(re.replace_all(text, with).to_string())
}

/// `text` without its escape sequences. A text that holds no
/// [`ESCAPE`] holds no sequence and stays as it is. In any other text
/// every match of [`ANSI_PATTERN`] is replaced by nothing.
pub open spec fn ansi_stripped(text: Seq<char>) -> Seq<char> {
    if !text.contains(ESCAPE) {
        text
    } else {
        match regex_replaced(ANSI_PATTERN@, text, ""@) {
            Some(clean) => clean,
            None => text,
        }
    }
}

/// Removes colour and erase sequences from a text.
pub fn strip_ansi(string: &str) -> (clean: String)
    ensures
        clean@ == ansi_stripped(string@),
{
    proof {
        lemma_first_place(string@, ESCAPE);
    }
    if find_first(string, ESCAPE) >= string.unicode_len() {
        return String::from_str(string);
    }
    match replace_all(ANSI_PATTERN, string, "") {
        Some(clean) => clean,
        None => String::from_str(string),
    }
}

/// A count in bold: red with three digits or more, yellow with two, green
/// with one.
pub open spec fn colorized_number_text(number: nat) -> Seq<char> {
    if decimal(number).len() > 2 {
        bold(red(decimal(number)))
    } else if decimal(number).len() > 1 {
        bold(yellow(decimal(number)))
    } else {
        bold(green(decimal(number)))
    }
}

/// A count in bold, in the colour of its size.
pub fn colorize_number(number: &usize) -> (text: String)
    ensures
        text@ == colorized_number_text(*number as nat),
{
    let number_str = decimal_string(*number as u64);
    let number_str_len: usize = number_str.as_str().unicode_len();
    if number_str_len > 2 {
        paint_bold(paint_red(number_str.as_str()).as_str())
    } else if number_str_len > 1 {
        paint_bold(paint_yellow(number_str.as_str()).as_str())
    } else {
        paint_bold(paint_green(number_str.as_str()).as_str())
    }
}

/// The whole seconds of a duration.
pub uninterp spec fn whole_seconds(time: Duration) -> u64;

/// `Duration::as_secs` returns the whole seconds of the duration.
pub assume_specification[ Duration::as_secs ](time: &Duration) -> (secs: u64)
    ensures
        secs == whole_seconds(*time),
;

/// A number of seconds in its largest whole unit: seconds below a minute,
/// minutes below an hour, hours below a day, else days.
pub open spec fn time_unit_text(secs: nat) -> Seq<char> {
    if secs < 60 {
        decimal(secs).push('s')
    } else if secs < 3600 {
        decimal(secs / 60).push('m')
    } else if secs < 86400 {
        decimal(secs / 3600).push('h')
    } else {
        decimal(secs / 86400).push('d')
    }
}

/// A number of seconds in its largest whole unit.
pub fn time_unit(secs: u64) -> (text: String)
    ensures
        text@ == time_unit_text(secs as nat),
{
    proof {
        reveal_strlit("s");
        reveal_strlit("m");
        reveal_strlit("h");
        reveal_strlit("d");
    }
    let mut text;
    if secs < 60 {
        text = decimal_string(secs);
        text.append("s");
    } else if secs < 3600 {
        text = decimal_string(secs / 60);
        text.append("m");
    } else if secs < 86400 {
        text = decimal_string(secs / 3600);
        text.append("h");
    } else {
        text = decimal_string(secs / 86400);
        text.append("d");
    }
    assert(text@ =~= time_unit_text(secs as nat));
    text
}

/// A duration in its largest whole unit.
pub fn get_time_unit(time: &Duration) -> (text: String)
    ensures
        text@ == time_unit_text(whole_seconds(*time) as nat),
{
    time_unit(time.as_secs())
}

/// A duration in colour: red above a minute, yellow above ten seconds,
/// else green.
pub open spec fn colorized_time_text(secs: nat) -> Seq<char> {
    if secs > 60 {
        red(time_unit_text(secs))
    } else if secs > 10 {
        yellow(time_unit_text(secs))
    } else {
        green(time_unit_text(secs))
    }
}

/// A number of seconds in its largest whole unit, in the colour of its
/// length.
pub fn colorized_seconds(secs: u64) -> (text: String)
    ensures
        text@ == colorized_time_text(secs as nat),
{
    let time_str = time_unit(secs);
    if secs > 60 {
        paint_red(time_str.as_str())
    } else if secs > 10 {
        paint_yellow(time_str.as_str())
    } else {
        paint_green(time_str.as_str())
    }
}

/// A duration in its largest whole unit, in the colour of its length.
pub fn colorize_time(time: &Duration) -> (text: String)
    ensures
        text@ == colorized_time_text(whole_seconds(*time) as nat),
{
    colorized_seconds(time.as_secs())
}

} // verus!
