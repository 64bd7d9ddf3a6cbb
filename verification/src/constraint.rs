//! Declared version constraints: a range operator and the version behind it.

use vstd::prelude::*;
use vstd::string::StringExecFns;

verus! {

/// The range operator in front of a declared version.
#[derive(Clone, Copy, Debug, PartialEq, Eq, Structural)]
pub enum Prefix {
    /// No operator: the version itself.
    Exact,
    /// `^`
    Caret,
    /// `~`
    Tilde,
}

/// The operator that `text` begins with.
pub open spec fn prefix_of(text: Seq<char>) -> Prefix {
    if text.len() > 0 && text[0] == '^' {
        Prefix::Caret
    } else if text.len() > 0 && text[0] == '~' {
        Prefix::Tilde
    } else {
        Prefix::Exact
    }
}

/// `text` without the operator that it begins with.
pub open spec fn bare_version(text: Seq<char>) -> Seq<char> {
    if prefix_of(text) == Prefix::Exact {
        text
    } else {
        text.drop_first()
    }
}

impl Prefix {
    /// The operator as it is written.
    pub open spec fn symbol(self) -> Seq<char> {
        match self {
            Prefix::Exact => Seq::empty(),
            Prefix::Caret => seq!['^'],
            Prefix::Tilde => seq!['~'],
        }
    }

    /// The operator as it is written.
    pub fn as_str(self) -> (s: &'static str)
        ensures
            s@ == self.symbol(),
    {
        proof {
            reveal_strlit("");
            reveal_strlit("^");
            reveal_strlit("~");
        }
        let s = match self {
            Prefix::Exact => "",
            Prefix::Caret => "^",
            Prefix::Tilde => "~",
        };
        assert(s@ =~= self.symbol());
        s
    }
}

/// A declared constraint, split into its operator and its version.
#[derive(Clone, Debug, PartialEq, Eq)]
pub struct Constraint {
    pub prefix: Prefix,
    pub version: String,
}

impl Constraint {
    /// Splits a declared constraint. One leading `^` or `~` is the operator;
    /// all that follows is the version.
    pub fn parse(text: &str) -> (c: Constraint)
        ensures
            c.prefix == prefix_of(text@),
            c.version@ == bare_version(text@),
    {
        let n: usize = text.unicode_len();
        if n > 0 {
            let first: char = text.get_char(0);
            if first == '^' || first == '~' {
                let rest = text.substring_char(1, n);
                assert(rest@ =~= text@.drop_first());
                let prefix = if first == '^' {
                    Prefix::Caret
                } else {
                    Prefix::Tilde
                };
                return Constraint { prefix, version: String::from_str(rest) };
            }
        }
        Constraint { prefix: Prefix::Exact, version: String::from_str(text) }
    }

    /// The constraint that keeps this one's operator and asks for `version`.
    pub fn rewritten(&self, version: &str) -> (text: String)
        ensures
            text@ == self.prefix.symbol() + version@,
    {
        let mut text = String::from_str(self.prefix.as_str());
        text.append(version);
        text
    }
}

/// An operator in front of a version is split off again and leaves the
/// version as it was: `^v`, `~v` and `v` name the same version, and differ
/// only in the operator that is kept.
pub proof fn lemma_prefix_keeps_version(version: Seq<char>)
    ensures
        prefix_of(seq!['^'] + version) == Prefix::Caret,
        prefix_of(seq!['~'] + version) == Prefix::Tilde,
        bare_version(seq!['^'] + version) == version,
        bare_version(seq!['~'] + version) == version,
        prefix_of(version) == Prefix::Exact ==> bare_version(version) == version,
{
    assert((seq!['^'] + version).drop_first() =~= version);
    assert((seq!['~'] + version).drop_first() =~= version);
}

/// Splitting a constraint and putting operator and version together again
/// gives the constraint back.
pub proof fn lemma_split_is_lossless(text: Seq<char>)
    ensures
        prefix_of(text).symbol() + bare_version(text) == text,
{
    assert(prefix_of(text).symbol() + bare_version(text) =~= text);
}

} // verus!
