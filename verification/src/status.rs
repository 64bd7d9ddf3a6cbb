//! Classifying a declared version against the latest published one.

use vstd::prelude::*;
use vstd::string::StringExecFns;
use crate::constraint::{bare_version, prefix_of, Constraint, Prefix};
use crate::paint::{green, paint_green, paint_red, paint_yellow, red, yellow};
use crate::version::{
    lemma_precedence_flips, lemma_precedence_same, lemma_version_begins_with_digit, parsed,
    precedence, Precedence, Version,
};

verus! {

/// How fresh a declared dependency is.
#[derive(Clone, Copy, Debug, PartialEq, Eq, Structural)]
pub enum Status {
    /// The declared version is the latest.
    UpToDate,
    /// The declared version precedes the latest.
    Outdated,
    /// The declared version follows the latest.
    Newer,
    /// Undecided: a version could not be read, or the latest is not known.
    Unknown,
}

/// Which of the two texts handed to [`compare`] is meant.
#[derive(Clone, Copy, Debug, PartialEq, Eq, Structural)]
pub enum Side {
    Current,
    Latest,
}

/// A text that is no version.
#[derive(Clone, Debug, PartialEq, Eq)]
pub struct ParseError {
    pub side: Side,
    pub text: String,
}

/// The mathematical value of a [`ParseError`].
pub struct ParseFailure {
    pub side: Side,
    pub text: Seq<char>,
}

impl View for ParseError {
    type V = ParseFailure;

    open spec fn view(&self) -> ParseFailure {
        ParseFailure { side: self.side, text: self.text@ }
    }
}

impl Status {
    /// The status that the same two versions have when they change places.
    pub open spec fn inverse(self) -> Status {
        match self {
            Status::UpToDate => Status::UpToDate,
            Status::Outdated => Status::Newer,
            Status::Newer => Status::Outdated,
            Status::Unknown => Status::Unknown,
        }
    }

    /// The words that name the status in a report.
    pub open spec fn label_text(self) -> Seq<char> {
        match self {
            Status::UpToDate => "Up to date"@,
            Status::Outdated => "Outdated"@,
            Status::Newer => "Newer than latest"@,
            Status::Unknown => "Unknown"@,
        }
    }

    /// The words that name the status in a report, in the colour that
    /// belongs to it: red for outdated, green for up to date, yellow for
    /// newer. An unknown status is left plain.
    pub open spec fn colorized_text(self) -> Seq<char> {
        match self {
            Status::UpToDate => green(self.label_text()),
            Status::Outdated => red(self.label_text()),
            Status::Newer => yellow(self.label_text()),
            Status::Unknown => self.label_text(),
        }
    }

    /// The words that name the status in a report.
    pub fn label(self) -> (s: &'static str)
        ensures
            s@ == self.label_text(),
    {
        match self {
            Status::UpToDate => "Up to date",
            Status::Outdated => "Outdated",
            Status::Newer => "Newer than latest",
            Status::Unknown => "Unknown",
        }
    }

    /// The label in its colour.
    pub fn colorized(self) -> (s: String)
        ensures
            s@ == self.colorized_text(),
    {
        match self {
            Status::UpToDate => paint_green(self.label()),
            Status::Outdated => paint_red(self.label()),
            Status::Newer => paint_yellow(self.label()),
            Status::Unknown => String::from_str(self.label()),
        }
    }
}

/// The status that a precedence of the declared version stands for.
pub open spec fn status_of(p: Precedence) -> Status {
    match p {
        Precedence::Lower => Status::Outdated,
        Precedence::Same => Status::UpToDate,
        Precedence::Higher => Status::Newer,
    }
}

/// The status that a precedence of the declared version stands for.
pub fn classify(p: Precedence) -> (s: Status)
    ensures
        s == status_of(p),
{
    match p {
        Precedence::Lower => Status::Outdated,
        Precedence::Same => Status::UpToDate,
        Precedence::Higher => Status::Newer,
    }
}

/// What [`compare`] returns. The declared text loses its operator before it
/// is read; the latest is read as it stands. Where both are no versions,
/// the declared one is reported.
pub open spec fn comparison(current: Seq<char>, latest: Seq<char>) -> Result<Status, ParseFailure> {
    match (parsed(bare_version(current)), parsed(latest)) {
        (None, _) => Err(ParseFailure { side: Side::Current, text: current }),
        (Some(_), None) => Err(ParseFailure { side: Side::Latest, text: latest }),
        (Some(c), Some(l)) => Ok(status_of(precedence(c, l))),
    }
}

/// The mathematical value of what [`compare`] returns.
pub open spec fn outcome_view(r: Result<Status, ParseError>) -> Result<Status, ParseFailure> {
    match r {
        Ok(s) => Ok(s),
        Err(e) => Err(e@),
    }
}

/// Classifies the declared version `current` against `latest`.
pub fn compare(current: &str, latest: &str) -> (r: Result<Status, ParseError>)
    ensures
        outcome_view(r) == comparison(current@, latest@),
{
    let declared = Constraint::parse(current);
    let ours = match Version::parse(declared.version.as_str()) {
        Some(v) => v,
        None => {
            return Err(ParseError { side: Side::Current, text: String::from_str(current) });
        },
    };
    let theirs = match Version::parse(latest) {
        Some(v) => v,
        None => {
            return Err(ParseError { side: Side::Latest, text: String::from_str(latest) });
        },
    };
    Ok(classify(ours.precedence(&theirs)))
}

/// The status that [`compare`] finds, and `Unknown` where it finds none.
pub open spec fn status_between(current: Seq<char>, latest: Seq<char>) -> Status {
    match comparison(current, latest) {
        Ok(s) => s,
        Err(_) => Status::Unknown,
    }
}

/// Classifies as [`compare`] does; a text that is no version gives
/// `Unknown`.
pub fn status_or_unknown(current: &str, latest: &str) -> (s: Status)
    ensures
        s == status_between(current@, latest@),
{
    match compare(current, latest) {
        Ok(s) => s,
        Err(_) => Status::Unknown,
    }
}

/// A text that is a version.
pub open spec fn is_version(text: Seq<char>) -> bool {
    parsed(text).is_some()
}

/// A version bears no operator: it is read as it stands.
pub proof fn lemma_version_has_no_prefix(text: Seq<char>)
    requires
        is_version(text),
    ensures
        prefix_of(text) == Prefix::Exact,
        bare_version(text) == text,
{
    lemma_version_begins_with_digit(text);
}

/// Two versions that change places change their status to its inverse:
/// outdated becomes newer, newer becomes outdated, up to date stays.
pub proof fn lemma_compare_inverse(a: Seq<char>, b: Seq<char>)
    requires
        is_version(a),
        is_version(b),
    ensures
        comparison(a, b) matches Ok(s) && comparison(b, a) == Ok::<Status, ParseFailure>(
            s.inverse(),
        ),
{
    lemma_version_has_no_prefix(a);
    lemma_version_has_no_prefix(b);
    lemma_precedence_flips(parsed(a).unwrap(), parsed(b).unwrap());
}

/// A version is up to date against itself.
pub proof fn lemma_compare_self(a: Seq<char>)
    requires
        is_version(a),
    ensures
        comparison(a, a) == Ok::<Status, ParseFailure>(Status::UpToDate),
{
    lemma_version_has_no_prefix(a);
    lemma_precedence_same(parsed(a).unwrap());
}

/// The operator in front of the declared version does not change the
/// status.
pub proof fn lemma_compare_ignores_prefix(version: Seq<char>, latest: Seq<char>)
    requires
        prefix_of(version) == Prefix::Exact,
    ensures
        status_between(seq!['^'] + version, latest) == status_between(version, latest),
        status_between(seq!['~'] + version, latest) == status_between(version, latest),
{
    crate::constraint::lemma_prefix_keeps_version(version);
}

} // verus!
