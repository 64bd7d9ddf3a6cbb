//! Terminal colours and styles, as the `owo_colors` crate writes them.

use vstd::prelude::*;

verus! {

/// The escape sequence `ESC [ code m`.
pub open spec fn escape(code: Seq<char>) -> Seq<char> {
    seq!['\u{1b}', '['] + code + seq!['m']
}

/// `text` between the sequence that sets a foreground colour and the one
/// that returns to the default foreground.
pub open spec fn coloured(code: Seq<char>, text: Seq<char>) -> Seq<char> {
    escape(code) + text + escape(seq!['3', '9'])
}

/// `text` between the sequence that sets a style and the one that resets
/// all attributes.
pub open spec fn styled(code: Seq<char>, text: Seq<char>) -> Seq<char> {
    escape(code) + text + escape(seq!['0'])
}

pub open spec fn red(text: Seq<char>) -> Seq<char> {
    coloured(seq!['3', '1'], text)
}

pub open spec fn green(text: Seq<char>) -> Seq<char> {
    coloured(seq!['3', '2'], text)
}

pub open spec fn yellow(text: Seq<char>) -> Seq<char> {
    coloured(seq!['3', '3'], text)
}

pub open spec fn bold(text: Seq<char>) -> Seq<char> {
    styled(seq!['1'], text)
}

pub open spec fn dimmed(text: Seq<char>) -> Seq<char> {
    styled(seq!['2'], text)
}

/// `owo_colors::OwoColorize::red`, formatted: the text after `ESC[31m` and
/// before `ESC[39m`.
#[verifier::external_body]
pub(crate) fn paint_red(text: &str) -> (out: String)
    ensures
        out@ == red(text@),
{
    owo_colors::OwoColorize::red(&text).to_string()
}

/// `owo_colors::OwoColorize::green`, formatted: the text after `ESC[32m`
/// and before `ESC[39m`.
#[verifier::external_body]
pub(crate) fn paint_green(text: &str) -> (out: String)
    ensures
        out@ == green(text@),
{
    owo_colors::OwoColorize::green(&text).to_string()
}

/// `owo_colors::OwoColorize::yellow`, formatted: the text after `ESC[33m`
/// and before `ESC[39m`.
#[verifier::external_body]
pub(crate) fn paint_yellow(text: &str) -> (out: String)
    ensures
        out@ == yellow(text@),
{
    owo_colors::OwoColorize::yellow(&text).to_string()
}

/// `owo_colors::OwoColorize::bold`, formatted: the text after `ESC[1m` and
/// before `ESC[0m`.
#[verifier::external_body]
pub(crate) fn paint_bold(text: &str) -> (out: String)
    ensures
        out@ == bold(text@),
{
    owo_colors::OwoColorize::bold(&text).to_string()
}

/// `owo_colors::OwoColorize::dimmed`, formatted: the text after `ESC[2m`
/// and before `ESC[0m`.
#[verifier::external_body]
pub(crate) fn paint_dimmed(text: &str) -> (out: String)
    ensures
        out@ == dimmed(text@),
{
    owo_colors::OwoColorize::dimmed(&text).to_string()
}

} // verus!
