//! Semantic versions and their precedence.
//!
//! A version is written `major.minor.patch`, then, if it is a pre-release,
//! `-` and identifiers with `.` between them, then, if it bears build
//! metadata, `+` and identifiers with `.` between them.

use vstd::prelude::*;
use vstd::string::StringExecFns;
use crate::text::{find_first, first_place, lemma_first_place, lemma_skip_step, lemma_take_step};

verus! {

/// How one version stands relative to another.
#[derive(Clone, Copy, Debug, PartialEq, Eq, Structural)]
pub enum Precedence {
    Lower,
    Same,
    Higher,
}

impl Precedence {
    /// The relation seen from the other side.
    pub open spec fn flipped(self) -> Precedence {
        match self {
            Precedence::Lower => Precedence::Higher,
            Precedence::Same => Precedence::Same,
            Precedence::Higher => Precedence::Lower,
        }
    }

    /// The relation seen from the other side.
    pub fn flip(self) -> (r: Precedence)
        ensures
            r == self.flipped(),
    {
        match self {
            Precedence::Lower => Precedence::Higher,
            Precedence::Same => Precedence::Same,
            Precedence::Higher => Precedence::Lower,
        }
    }
}

/// One identifier of a pre-release: a number, or a text of letters, digits
/// and hyphens that is no number.
#[derive(Clone, Debug, PartialEq, Eq)]
pub enum Identifier {
    Numeric(u64),
    Text(String),
}

/// The mathematical value of an [`Identifier`].
pub enum IdentifierModel {
    Numeric(int),
    Text(Seq<char>),
}

impl View for Identifier {
    type V = IdentifierModel;

    open spec fn view(&self) -> IdentifierModel {
        match self {
            Identifier::Numeric(n) => IdentifierModel::Numeric(*n as int),
            Identifier::Text(t) => IdentifierModel::Text(t@),
        }
    }
}

/// The models of a run of identifiers.
pub open spec fn identifier_models(identifiers: Seq<Identifier>) -> Seq<IdentifierModel> {
    identifiers.map_values(|i: Identifier| i@)
}

/// A semantic version.
#[derive(Clone, Debug, PartialEq, Eq)]
pub struct Version {
    pub major: u64,
    pub minor: u64,
    pub patch: u64,
    /// The identifiers of the pre-release; none for a release.
    pub pre: Vec<Identifier>,
    /// The build metadata as it is written; empty where there is none.
    pub build: String,
}

/// The mathematical value of a [`Version`].
pub struct VersionModel {
    pub major: int,
    pub minor: int,
    pub patch: int,
    pub pre: Seq<IdentifierModel>,
    pub build: Seq<char>,
}

impl View for Version {
    type V = VersionModel;

    open spec fn view(&self) -> VersionModel {
        VersionModel {
            major: self.major as int,
            minor: self.minor as int,
            patch: self.patch as int,
            pre: identifier_models(self.pre@),
            build: self.build@,
        }
    }
}

/// A decimal digit.
pub open spec fn is_digit(c: char) -> bool {
    '0' <= c && c <= '9'
}

/// A character that may stand in an identifier: a letter or digit of
/// ASCII, or a hyphen.
pub open spec fn is_identifier_char(c: char) -> bool {
    is_digit(c) || ('a' <= c && c <= 'z') || ('A' <= c && c <= 'Z') || c == '-'
}

/// Every character is a digit.
pub open spec fn all_digits(s: Seq<char>) -> bool {
    forall|i: int| 0 <= i < s.len() ==> is_digit(#[trigger] s[i])
}

/// Every character may stand in an identifier.
pub open spec fn all_identifier_chars(s: Seq<char>) -> bool {
    forall|i: int| 0 <= i < s.len() ==> is_identifier_char(#[trigger] s[i])
}

/// The number that a digit stands for.
pub open spec fn digit_value(c: char) -> int {
    (c as u32) as int - 48
}

/// The number that a run of digits stands for.
pub open spec fn digits_value(s: Seq<char>) -> int
    decreases s.len(),
{
    if s.len() == 0 {
        0
    } else {
        digits_value(s.drop_last()) * 10 + digit_value(s.last())
    }
}

/// The number that a text writes: the text is a run of at least one
/// digit, begins with no `0` unless it is `0` itself, and the number is
/// within the range of `u64`.
pub open spec fn number_of(s: Seq<char>) -> Option<int> {
    if s.len() > 0 && all_digits(s) && (s.len() == 1 || s[0] != '0') && digits_value(s)
        <= u64::MAX {
        Some(digits_value(s))
    } else {
        None
    }
}

/// The identifier that a text writes. A run of digits is a number and
/// must be in range; any other text of identifier characters is itself.
pub open spec fn identifier_of(s: Seq<char>) -> Option<IdentifierModel> {
    if s.len() == 0 || !all_identifier_chars(s) {
        None
    } else if all_digits(s) {
        match number_of(s) {
            Some(n) => Some(IdentifierModel::Numeric(n)),
            None => None,
        }
    } else {
        Some(IdentifierModel::Text(s))
    }
}

/// `done` followed by what follows, where something follows.
pub open spec fn joined(done: Seq<IdentifierModel>, rest: Option<Seq<IdentifierModel>>) -> Option<
    Seq<IdentifierModel>,
> {
    match rest {
        Some(t) => Some(done + t),
        None => None,
    }
}

/// The identifiers that a text writes with `.` between them. Each must be
/// an identifier; there is at least one.
pub open spec fn identifiers_of(s: Seq<char>) -> Option<Seq<IdentifierModel>>
    decreases s.len(),
{
    let d = first_place(s, '.');
    match identifier_of(s.take(d)) {
        None => None,
        Some(head) => if 0 <= d < s.len() {
            joined(seq![head], identifiers_of(s.skip(d + 1)))
        } else {
            Some(seq![head])
        },
    }
}

/// Whether a text is build metadata: texts of identifier characters, none
/// of them empty, with `.` between them.
pub open spec fn is_build(s: Seq<char>) -> bool
    decreases s.len(),
{
    let d = first_place(s, '.');
    d > 0 && all_identifier_chars(s.take(d)) && (0 <= d < s.len() ==> is_build(s.skip(d + 1)))
}

/// The three numbers that a text `major.minor.patch` writes.
pub open spec fn core_of(s: Seq<char>) -> Option<(int, int, int)> {
    let d1 = first_place(s, '.');
    let r1 = s.skip(d1 + 1);
    let d2 = first_place(r1, '.');
    let r2 = r1.skip(d2 + 1);
    if 0 <= d1 < s.len() && 0 <= d2 < r1.len() {
        match (number_of(s.take(d1)), number_of(r1.take(d2)), number_of(r2)) {
            (Some(major), Some(minor), Some(patch)) => Some((major, minor, patch)),
            _ => None,
        }
    } else {
        None
    }
}

/// The version that a text writes; `None` where it writes none. What
/// stands behind the first `+` is build metadata. Of what stands before
/// it, the part before the first `-` is `major.minor.patch`, and the part
/// behind it lists the identifiers of the pre-release.
pub open spec fn parsed(text: Seq<char>) -> Option<VersionModel> {
    let plus = first_place(text, '+');
    let main = text.take(plus);
    let dash = first_place(main, '-');
    let pre = if 0 <= dash < main.len() {
        identifiers_of(main.skip(dash + 1))
    } else {
        Some(Seq::empty())
    };
    let build = if 0 <= plus < text.len() {
        text.skip(plus + 1)
    } else {
        Seq::empty()
    };
    match (core_of(main.take(dash)), pre) {
        (Some(core), Some(identifiers)) => if 0 <= plus < text.len() ==> is_build(build) {
            Some(
                VersionModel {
                    major: core.0,
                    minor: core.1,
                    patch: core.2,
                    pre: identifiers,
                    build,
                },
            )
        } else {
            None
        },
        _ => None,
    }
}

/// Order of two texts: by the first character in which they differ; a
/// proper prefix comes first.
pub open spec fn text_order(a: Seq<char>, b: Seq<char>) -> Precedence
    decreases a.len(),
{
    if a.len() == 0 && b.len() == 0 {
        Precedence::Same
    } else if a.len() == 0 {
        Precedence::Lower
    } else if b.len() == 0 {
        Precedence::Higher
    } else if (a[0] as u32) < (b[0] as u32) {
        Precedence::Lower
    } else if (a[0] as u32) > (b[0] as u32) {
        Precedence::Higher
    } else {
        text_order(a.drop_first(), b.drop_first())
    }
}

/// Order of two numbers.
pub open spec fn number_order(x: int, y: int) -> Precedence {
    if x < y {
        Precedence::Lower
    } else if x > y {
        Precedence::Higher
    } else {
        Precedence::Same
    }
}

/// Order of two identifiers: numbers by value, texts by [`text_order`],
/// and a number before a text.
pub open spec fn identifier_order(a: IdentifierModel, b: IdentifierModel) -> Precedence {
    match (a, b) {
        (IdentifierModel::Numeric(x), IdentifierModel::Numeric(y)) => number_order(x, y),
        (IdentifierModel::Text(s), IdentifierModel::Text(t)) => text_order(s, t),
        (IdentifierModel::Numeric(_), IdentifierModel::Text(_)) => Precedence::Lower,
        (IdentifierModel::Text(_), IdentifierModel::Numeric(_)) => Precedence::Higher,
    }
}

/// Order of two lists of identifiers: by the first pair that differs; a
/// list that ends first comes first.
pub open spec fn identifiers_order(a: Seq<IdentifierModel>, b: Seq<IdentifierModel>) -> Precedence
    decreases a.len(),
{
    if a.len() == 0 && b.len() == 0 {
        Precedence::Same
    } else if a.len() == 0 {
        Precedence::Lower
    } else if b.len() == 0 {
        Precedence::Higher
    } else if identifier_order(a[0], b[0]) != Precedence::Same {
        identifier_order(a[0], b[0])
    } else {
        identifiers_order(a.drop_first(), b.drop_first())
    }
}

/// Order of two versions with the same numbers: a pre-release comes before
/// its release, and two pre-releases go by their identifiers.
pub open spec fn pre_release_order(a: Seq<IdentifierModel>, b: Seq<IdentifierModel>) -> Precedence {
    if a.len() == 0 && b.len() == 0 {
        Precedence::Same
    } else if a.len() == 0 {
        Precedence::Higher
    } else if b.len() == 0 {
        Precedence::Lower
    } else {
        identifiers_order(a, b)
    }
}

/// Precedence of the version `a` relative to `b`: by major, then minor,
/// then patch, then by [`pre_release_order`]. Build metadata has no part
/// in it.
pub open spec fn precedence(a: VersionModel, b: VersionModel) -> Precedence {
    if number_order(a.major, b.major) != Precedence::Same {
        number_order(a.major, b.major)
    } else if number_order(a.minor, b.minor) != Precedence::Same {
        number_order(a.minor, b.minor)
    } else if number_order(a.patch, b.patch) != Precedence::Same {
        number_order(a.patch, b.patch)
    } else {
        pre_release_order(a.pre, b.pre)
    }
}

/// Swapping two texts flips their order.
pub proof fn lemma_text_order_flips(a: Seq<char>, b: Seq<char>)
    ensures
        text_order(b, a) == text_order(a, b).flipped(),
    decreases a.len(),
{
    if a.len() > 0 && b.len() > 0 && (a[0] as u32) == (b[0] as u32) {
        lemma_text_order_flips(a.drop_first(), b.drop_first());
    }
}

/// A text has the same order as itself.
pub proof fn lemma_text_order_same(a: Seq<char>)
    ensures
        text_order(a, a) == Precedence::Same,
    decreases a.len(),
{
    if a.len() > 0 {
        lemma_text_order_same(a.drop_first());
    }
}

/// Swapping two lists of identifiers flips their order.
pub proof fn lemma_identifiers_order_flips(a: Seq<IdentifierModel>, b: Seq<IdentifierModel>)
    ensures
        identifiers_order(b, a) == identifiers_order(a, b).flipped(),
    decreases a.len(),
{
    if a.len() > 0 && b.len() > 0 {
        match (a[0], b[0]) {
            (IdentifierModel::Text(s), IdentifierModel::Text(t)) => {
                lemma_text_order_flips(s, t);
            },
            _ => {},
        }
        lemma_identifiers_order_flips(a.drop_first(), b.drop_first());
    }
}

/// A list of identifiers has the same order as itself.
pub proof fn lemma_identifiers_order_same(a: Seq<IdentifierModel>)
    ensures
        identifiers_order(a, a) == Precedence::Same,
    decreases a.len(),
{
    if a.len() > 0 {
        match a[0] {
            IdentifierModel::Text(s) => {
                lemma_text_order_same(s);
            },
            _ => {},
        }
        lemma_identifiers_order_same(a.drop_first());
    }
}

/// Swapping two versions flips their precedence.
pub proof fn lemma_precedence_flips(a: VersionModel, b: VersionModel)
    ensures
        precedence(b, a) == precedence(a, b).flipped(),
{
    lemma_identifiers_order_flips(a.pre, b.pre);
}

/// A version has the same precedence as itself.
pub proof fn lemma_precedence_same(a: VersionModel)
    ensures
        precedence(a, a) == Precedence::Same,
{
    lemma_identifiers_order_same(a.pre);
}

/// Versions that differ only in their build metadata have the same
/// precedence.
pub proof fn lemma_build_is_ignored(a: VersionModel, build: Seq<char>)
    ensures
        precedence(a, VersionModel { build, ..a }) == Precedence::Same,
{
    lemma_identifiers_order_same(a.pre);
}

/// A pre-release comes before the release with the same numbers.
pub proof fn lemma_pre_release_comes_first(a: VersionModel)
    requires
        a.pre.len() > 0,
    ensures
        precedence(a, VersionModel { pre: Seq::empty(), ..a }) == Precedence::Lower,
{
}

/// A version begins with a digit.
pub proof fn lemma_version_begins_with_digit(text: Seq<char>)
    requires
        parsed(text).is_some(),
    ensures
        text.len() > 0,
        is_digit(text[0]),
{
    let plus = first_place(text, '+');
    let main = text.take(plus);
    let dash = first_place(main, '-');
    let core = main.take(dash);
    let d1 = first_place(core, '.');
    lemma_first_place(text, '+');
    lemma_first_place(main, '-');
    lemma_first_place(core, '.');
    let major = core.take(d1);
    assert(number_of(major).is_some());
    assert(is_digit(major[0]));
    assert(major[0] == text[0]);
}

/// The value of a run of digits is not negative and does not shrink as
/// the run goes on.
pub proof fn lemma_digits_grow(s: Seq<char>, k: int)
    requires
        all_digits(s),
        0 <= k <= s.len(),
    ensures
        0 <= digits_value(s.take(k)) <= digits_value(s),
    decreases s.len() - k,
{
    lemma_digits_not_negative(s.take(k));
    if k < s.len() {
        lemma_digits_grow(s, k + 1);
        lemma_take_step(s, k + 1);
        assert(is_digit(s[k]));
    } else {
        assert(s.take(k) =~= s);
    }
}

proof fn lemma_digits_not_negative(s: Seq<char>)
    requires
        all_digits(s),
    ensures
        0 <= digits_value(s),
    decreases s.len(),
{
    if s.len() > 0 {
        assert(is_digit(s.last()));
        assert forall|i: int| 0 <= i < s.drop_last().len() implies is_digit(
            #[trigger] s.drop_last()[i],
        ) by {
            assert(s.drop_last()[i] == s[i]);
        }
        lemma_digits_not_negative(s.drop_last());
    }
}

/// Order of two texts, character by character.
pub fn compare_text(a: &str, b: &str) -> (r: Precedence)
    ensures
        r == text_order(a@, b@),
{
    let n: usize = a.unicode_len();
    let m: usize = b.unicode_len();
    let mut i: usize = 0;
    assert(a@.skip(0) =~= a@ && b@.skip(0) =~= b@);
    while i < n && i < m
        invariant
            n == a@.len(),
            m == b@.len(),
            i <= n,
            i <= m,
            text_order(a@, b@) == text_order(a@.skip(i as int), b@.skip(i as int)),
        decreases n - i,
    {
        let x: char = a.get_char(i);
        let y: char = b.get_char(i);
        proof {
            lemma_skip_step(a@, i as int);
            lemma_skip_step(b@, i as int);
        }
        if (x as u32) < (y as u32) {
            return Precedence::Lower;
        }
        if (x as u32) > (y as u32) {
            return Precedence::Higher;
        }
        i += 1;
    }
    if i < m {
        Precedence::Lower
    } else if i < n {
        Precedence::Higher
    } else {
        Precedence::Same
    }
}

fn is_digit_char(c: char) -> (r: bool)
    ensures
        r == is_digit(c),
{
    '0' <= c && c <= '9'
}

fn is_identifier_char_exec(c: char) -> (r: bool)
    ensures
        r == is_identifier_char(c),
{
    ('0' <= c && c <= '9') || ('a' <= c && c <= 'z') || ('A' <= c && c <= 'Z') || c == '-'
}

/// Whether every character of `s` may stand in an identifier.
fn only_identifier_chars(s: &str) -> (r: bool)
    ensures
        r == all_identifier_chars(s@),
{
    let n: usize = s.unicode_len();
    let mut i: usize = 0;
    while i < n
        invariant
            n == s@.len(),
            i <= n,
            forall|j: int| 0 <= j < i ==> is_identifier_char(#[trigger] s@[j]),
        decreases n - i,
    {
        if !is_identifier_char_exec(s.get_char(i)) {
            return false;
        }
        i += 1;
    }
    true
}

/// Whether every character of `s` is a digit.
fn only_digits(s: &str) -> (r: bool)
    ensures
        r == all_digits(s@),
{
    let n: usize = s.unicode_len();
    let mut i: usize = 0;
    while i < n
        invariant
            n == s@.len(),
            i <= n,
            forall|j: int| 0 <= j < i ==> is_digit(#[trigger] s@[j]),
        decreases n - i,
    {
        if !is_digit_char(s.get_char(i)) {
            return false;
        }
        i += 1;
    }
    true
}

/// The number that `s` writes.
pub fn parse_number(s: &str) -> (r: Option<u64>)
    ensures
        match number_of(s@) {
            Some(n) => r == Some(n as u64) && 0 <= n <= u64::MAX,
            None => r.is_none(),
        },
{
    let n: usize = s.unicode_len();
    if n == 0 || !only_digits(s) {
        return None;
    }
    if n > 1 && s.get_char(0) == '0' {
        return None;
    }
    let mut value: u64 = 0;
    let mut i: usize = 0;
    assert(s@.take(0) =~= Seq::<char>::empty());
    while i < n
        invariant
            n == s@.len(),
            i <= n,
            all_digits(s@),
            value == digits_value(s@.take(i as int)),
        decreases n - i,
    {
        let c: char = s.get_char(i);
        assert(is_digit(s@[i as int]));
        let digit: u64 = (c as u32 - 48) as u64;
        proof {
            lemma_take_step(s@, i + 1);
            lemma_digits_grow(s@, i + 1);
        }
        if value > (u64::MAX - digit) / 10 {
            return None;
        }
        value = value * 10 + digit;
        i += 1;
    }
    assert(s@.take(n as int) =~= s@);
    proof {
        lemma_digits_not_negative(s@);
    }
    Some(value)
}

/// The identifier that `s` writes.
pub fn parse_identifier(s: &str) -> (r: Option<Identifier>)
    ensures
        match identifier_of(s@) {
            Some(i) => r.is_some() && r.unwrap()@ == i,
            None => r.is_none(),
        },
{
    if s.unicode_len() == 0 || !only_identifier_chars(s) {
        return None;
    }
    if only_digits(s) {
        match parse_number(s) {
            Some(n) => Some(Identifier::Numeric(n)),
            None => None,
        }
    } else {
        Some(Identifier::Text(String::from_str(s)))
    }
}

proof fn lemma_joined_step(
    done: Seq<IdentifierModel>,
    head: IdentifierModel,
    rest: Option<Seq<IdentifierModel>>,
)
    ensures
        joined(done, joined(seq![head], rest)) == joined(done.push(head), rest),
{
    match rest {
        Some(t) => {
            assert(done + (seq![head] + t) =~= done.push(head) + t);
        },
        None => {},
    }
}

/// The identifiers that `s` writes with `.` between them.
pub fn parse_identifiers(s: &str) -> (r: Option<Vec<Identifier>>)
    ensures
        match identifiers_of(s@) {
            Some(list) => r.is_some() && identifier_models(r.unwrap()@) == list,
            None => r.is_none(),
        },
{
    let mut out: Vec<Identifier> = Vec::new();
    let mut rest: &str = s;
    assert(identifier_models(out@) + identifiers_of(s@).unwrap() =~= identifiers_of(s@).unwrap());
    loop
        invariant
            identifiers_of(s@) == joined(identifier_models(out@), identifiers_of(rest@)),
        decreases rest@.len(),
    {
        let n: usize = rest.unicode_len();
        let d: usize = find_first(rest, '.');
        let head = rest.substring_char(0, d);
        let ghost done = identifier_models(out@);
        match parse_identifier(head) {
            None => {
                return None;
            },
            Some(id) => {
                let ghost h = id@;
                out.push(id);
                assert(identifier_models(out@) =~= done.push(h));
                if d >= n {
                    assert(done + seq![h] =~= done.push(h));
                    return Some(out);
                }
                let next = rest.substring_char(d + 1, n);
                proof {
                    lemma_joined_step(done, h, identifiers_of(next@));
                }
                rest = next;
            },
        }
    }
}

/// Whether `s` is build metadata.
pub fn check_build(s: &str) -> (r: bool)
    ensures
        r == is_build(s@),
{
    let mut rest: &str = s;
    loop
        invariant
            is_build(s@) == is_build(rest@),
        decreases rest@.len(),
    {
        let n: usize = rest.unicode_len();
        let d: usize = find_first(rest, '.');
        let head = rest.substring_char(0, d);
        if d == 0 || !only_identifier_chars(head) {
            return false;
        }
        if d >= n {
            return true;
        }
        rest = rest.substring_char(d + 1, n);
    }
}

/// The three numbers that `s` writes as `major.minor.patch`.
pub fn parse_core(s: &str) -> (r: Option<(u64, u64, u64)>)
    ensures
        match core_of(s@) {
            Some(core) => r == Some((core.0 as u64, core.1 as u64, core.2 as u64)) && 0 <= core.0
                <= u64::MAX && 0 <= core.1 <= u64::MAX && 0 <= core.2 <= u64::MAX,
            None => r.is_none(),
        },
{
    let n: usize = s.unicode_len();
    let d1: usize = find_first(s, '.');
    if d1 >= n {
        return None;
    }
    let r1 = s.substring_char(d1 + 1, n);
    let n1: usize = r1.unicode_len();
    let d2: usize = find_first(r1, '.');
    if d2 >= n1 {
        return None;
    }
    let r2 = r1.substring_char(d2 + 1, n1);
    let major = match parse_number(s.substring_char(0, d1)) {
        Some(v) => v,
        None => {
            return None;
        },
    };
    let minor = match parse_number(r1.substring_char(0, d2)) {
        Some(v) => v,
        None => {
            return None;
        },
    };
    let patch = match parse_number(r2) {
        Some(v) => v,
        None => {
            return None;
        },
    };
    Some((major, minor, patch))
}

/// Order of two numbers.
pub fn compare_number(x: u64, y: u64) -> (r: Precedence)
    ensures
        r == number_order(x as int, y as int),
{
    if x < y {
        Precedence::Lower
    } else if x > y {
        Precedence::Higher
    } else {
        Precedence::Same
    }
}

/// Order of two identifiers.
pub fn compare_identifier(a: &Identifier, b: &Identifier) -> (r: Precedence)
    ensures
        r == identifier_order(a@, b@),
{
    match (a, b) {
        (Identifier::Numeric(x), Identifier::Numeric(y)) => compare_number(*x, *y),
        (Identifier::Text(s), Identifier::Text(t)) => compare_text(s.as_str(), t.as_str()),
        (Identifier::Numeric(_), Identifier::Text(_)) => Precedence::Lower,
        (Identifier::Text(_), Identifier::Numeric(_)) => Precedence::Higher,
    }
}

/// Order of two lists of identifiers.
pub fn compare_identifiers(a: &Vec<Identifier>, b: &Vec<Identifier>) -> (r: Precedence)
    ensures
        r == identifiers_order(identifier_models(a@), identifier_models(b@)),
{
    let ghost x = identifier_models(a@);
    let ghost y = identifier_models(b@);
    let n: usize = a.len();
    let m: usize = b.len();
    let mut i: usize = 0;
    assert(x.skip(0) =~= x && y.skip(0) =~= y);
    while i < n && i < m
        invariant
            x == identifier_models(a@),
            y == identifier_models(b@),
            n == a.len(),
            m == b.len(),
            i <= n,
            i <= m,
            identifiers_order(x, y) == identifiers_order(x.skip(i as int), y.skip(i as int)),
        decreases n - i,
    {
        proof {
            lemma_skip_step(x, i as int);
            lemma_skip_step(y, i as int);
        }
        let head = compare_identifier(&a[i], &b[i]);
        if head != Precedence::Same {
            return head;
        }
        i += 1;
    }
    if i < m {
        Precedence::Lower
    } else if i < n {
        Precedence::Higher
    } else {
        Precedence::Same
    }
}

impl Version {
    /// Reads a version from its text. `None` where the text is no version.
    pub fn parse(text: &str) -> (r: Option<Version>)
        ensures
            r.is_some() == parsed(text@).is_some(),
            r matches Some(v) ==> v@ == parsed(text@).unwrap(),
    {
        let n: usize = text.unicode_len();
        let plus: usize = find_first(text, '+');
        let main = text.substring_char(0, plus);
        let dash: usize = find_first(main, '-');
        let (major, minor, patch) = match parse_core(main.substring_char(0, dash)) {
            Some(core) => core,
            None => {
                return None;
            },
        };
        let pre = if dash < plus {
            match parse_identifiers(main.substring_char(dash + 1, plus)) {
                Some(list) => list,
                None => {
                    return None;
                },
            }
        } else {
            let none: Vec<Identifier> = Vec::new();
            assert(identifier_models(none@) =~= Seq::<IdentifierModel>::empty());
            none
        };
        let build = if plus < n {
            let written = text.substring_char(plus + 1, n);
            if !check_build(written) {
                return None;
            }
            String::from_str(written)
        } else {
            String::new()
        };
        Some(Version { major, minor, patch, pre, build })
    }

    /// Precedence of this version relative to `other`.
    pub fn precedence(&self, other: &Version) -> (r: Precedence)
        ensures
            r == precedence(self@, other@),
    {
        let by_major = compare_number(self.major, other.major);
        if by_major != Precedence::Same {
            return by_major;
        }
        let by_minor = compare_number(self.minor, other.minor);
        if by_minor != Precedence::Same {
            return by_minor;
        }
        let by_patch = compare_number(self.patch, other.patch);
        if by_patch != Precedence::Same {
            return by_patch;
        }
        if self.pre.len() == 0 && other.pre.len() == 0 {
            Precedence::Same
        } else if self.pre.len() == 0 {
            Precedence::Higher
        } else if other.pre.len() == 0 {
            Precedence::Lower
        } else {
            compare_identifiers(&self.pre, &other.pre)
        }
    }
}

} // verus!
