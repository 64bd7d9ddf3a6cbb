//! Small operations on texts.

use vstd::prelude::*;
use vstd::string::StringExecFns;

verus! {

/// Whether two texts hold the same characters.
pub fn same_text(a: &str, b: &str) -> (r: bool)
    ensures
        r == (a@ == b@),
{
    let n: usize = a.unicode_len();
    if n != b.unicode_len() {
        return false;
    }
    let mut i: usize = 0;
    while i < n
        invariant
            n == a@.len(),
            n == b@.len(),
            i <= n,
            forall|j: int| 0 <= j < i ==> a@[j] == b@[j],
        decreases n - i,
    {
        if a.get_char(i) != b.get_char(i) {
            return false;
        }
        i += 1;
    }
    assert(a@ =~= b@);
    true
}

/// The upper-case hexadecimal digit for `n`.
pub open spec fn hex_digit(n: int) -> char
    recommends
        0 <= n < 16,
{
    if n == 0 {
        '0'
    } else if n == 1 {
        '1'
    } else if n == 2 {
        '2'
    } else if n == 3 {
        '3'
    } else if n == 4 {
        '4'
    } else if n == 5 {
        '5'
    } else if n == 6 {
        '6'
    } else if n == 7 {
        '7'
    } else if n == 8 {
        '8'
    } else if n == 9 {
        '9'
    } else if n == 10 {
        'A'
    } else if n == 11 {
        'B'
    } else if n == 12 {
        'C'
    } else if n == 13 {
        'D'
    } else if n == 14 {
        'E'
    } else {
        'F'
    }
}

/// The upper-case hexadecimal digit for `n`, as a text.
pub fn hex_str(n: u8) -> (s: &'static str)
    requires
        n < 16,
    ensures
        s@ == seq![hex_digit(n as int)],
{
    proof {
        reveal_strlit("0");
        reveal_strlit("1");
        reveal_strlit("2");
        reveal_strlit("3");
        reveal_strlit("4");
        reveal_strlit("5");
        reveal_strlit("6");
        reveal_strlit("7");
        reveal_strlit("8");
        reveal_strlit("9");
        reveal_strlit("A");
        reveal_strlit("B");
        reveal_strlit("C");
        reveal_strlit("D");
        reveal_strlit("E");
        reveal_strlit("F");
    }
    let s = match n {
        0 => "0",
        1 => "1",
        2 => "2",
        3 => "3",
        4 => "4",
        5 => "5",
        6 => "6",
        7 => "7",
        8 => "8",
        9 => "9",
        10 => "A",
        11 => "B",
        12 => "C",
        13 => "D",
        14 => "E",
        _ => "F",
    };
    assert(s@ =~= seq![hex_digit(n as int)]);
    s
}

/// The decimal digits of `n`.
pub open spec fn decimal(n: nat) -> Seq<char>
    decreases n,
{
    if n < 10 {
        seq![hex_digit(n as int)]
    } else {
        decimal(n / 10).push(hex_digit((n % 10) as int))
    }
}

fn push_decimal(out: &mut String, n: u64)
    ensures
        final(out)@ == old(out)@ + decimal(n as nat),
    decreases n,
{
    if n >= 10 {
        push_decimal(out, n / 10);
    }
    let ghost before = out@;
    out.append(hex_str((n % 10) as u8));
    assert(out@ =~= old(out)@ + decimal(n as nat));
}

/// `n` in decimal digits.
pub fn decimal_string(n: u64) -> (text: String)
    ensures
        text@ == decimal(n as nat),
{
    let mut text = String::new();
    push_decimal(&mut text, n);
    assert(text@ =~= decimal(n as nat));
    text
}

/// What is left of `s` from `i` on begins with `s[i]` and goes on with
/// what is left from `i + 1` on.
pub proof fn lemma_skip_step<T>(s: Seq<T>, i: int)
    requires
        0 <= i < s.len(),
    ensures
        s.skip(i).len() == s.len() - i,
        s.skip(i)[0] == s[i],
        s.skip(i).drop_first() == s.skip(i + 1),
{
    assert(s.skip(i).drop_first() =~= s.skip(i + 1));
}

/// The first `i` of `s` end with `s[i - 1]` and begin with the first
/// `i - 1`.
pub proof fn lemma_take_step<T>(s: Seq<T>, i: int)
    requires
        0 < i <= s.len(),
    ensures
        s.take(i).len() == i,
        s.take(i).last() == s[i - 1],
        s.take(i).drop_last() == s.take(i - 1),
{
    assert(s.take(i).drop_last() =~= s.take(i - 1));
}

/// The place of the first `c` in `s`; the length of `s` where it holds
/// none.
pub open spec fn first_place(s: Seq<char>, c: char) -> int
    decreases s.len(),
{
    if s.len() == 0 {
        0
    } else if s[0] == c {
        0
    } else {
        1 + first_place(s.drop_first(), c)
    }
}

/// [`first_place`] is the place of a `c` before which there is none, and
/// the length of `s` exactly where `s` holds no `c`.
pub proof fn lemma_first_place(s: Seq<char>, c: char)
    ensures
        0 <= first_place(s, c) <= s.len(),
        forall|j: int| 0 <= j < first_place(s, c) ==> s[j] != c,
        first_place(s, c) < s.len() ==> s[first_place(s, c)] == c,
        first_place(s, c) == s.len() <==> !s.contains(c),
    decreases s.len(),
{
    if s.len() > 0 && s[0] != c {
        let rest = s.drop_first();
        lemma_first_place(rest, c);
        assert forall|j: int| 0 <= j < first_place(s, c) implies s[j] != c by {
            if j > 0 {
                assert(rest[j - 1] == s[j]);
            }
        }
        if first_place(s, c) < s.len() {
            assert(rest[first_place(rest, c)] == s[first_place(s, c)]);
        }
    }
    if first_place(s, c) < s.len() {
        assert(s.contains(c));
    }
}

/// The place behind the last `c` in `s`; zero where it holds none.
pub open spec fn last_end(s: Seq<char>, c: char) -> int
    decreases s.len(),
{
    if s.len() == 0 {
        0
    } else if s.last() == c {
        s.len() as int
    } else {
        last_end(s.drop_last(), c)
    }
}

/// The place of the first `->` in `s`; the length of `s` where it holds
/// none.
pub open spec fn first_arrow(s: Seq<char>) -> int
    decreases s.len(),
{
    if s.len() < 2 {
        s.len() as int
    } else if s[0] == '-' && s[1] == '>' {
        0
    } else {
        1 + first_arrow(s.drop_first())
    }
}

/// The place behind the last `->` in `s`; zero where it holds none.
pub open spec fn last_arrow_end(s: Seq<char>) -> int
    decreases s.len(),
{
    if s.len() < 2 {
        0
    } else if s[s.len() - 2] == '-' && s[s.len() - 1] == '>' {
        s.len() as int
    } else {
        last_arrow_end(s.drop_last())
    }
}

/// What stands before the first `c`; all of `s` where it holds none.
pub open spec fn before_first(s: Seq<char>, c: char) -> Seq<char> {
    s.take(first_place(s, c))
}

/// What stands behind the last `c`; all of `s` where it holds none.
pub open spec fn after_last(s: Seq<char>, c: char) -> Seq<char> {
    s.skip(last_end(s, c))
}

/// What stands before the first `->`; all of `s` where it holds none.
pub open spec fn before_arrow(s: Seq<char>) -> Seq<char> {
    s.take(first_arrow(s))
}

/// What stands behind the last `->`; all of `s` where it holds none.
pub open spec fn after_arrow(s: Seq<char>) -> Seq<char> {
    s.skip(last_arrow_end(s))
}

/// The test that every character but `c` passes.
pub open spec fn is_not(c: char) -> spec_fn(char) -> bool {
    |x: char| x != c
}

/// `s` without every `c`.
pub open spec fn without(s: Seq<char>, c: char) -> Seq<char> {
    s.filter(is_not(c))
}

/// White space, as Unicode defines it.
pub open spec fn is_space(c: char) -> bool {
    ||| ('\u{9}' <= c && c <= '\u{d}')
    ||| c == ' '
    ||| c == '\u{85}'
    ||| c == '\u{a0}'
    ||| c == '\u{1680}'
    ||| ('\u{2000}' <= c && c <= '\u{200a}')
    ||| c == '\u{2028}'
    ||| c == '\u{2029}'
    ||| c == '\u{202f}'
    ||| c == '\u{205f}'
    ||| c == '\u{3000}'
}

/// How many white spaces `s` begins with.
pub open spec fn leading_spaces(s: Seq<char>) -> int
    decreases s.len(),
{
    if s.len() > 0 && is_space(s[0]) {
        1 + leading_spaces(s.drop_first())
    } else {
        0
    }
}

/// The place behind the last character of `s` that is no white space.
pub open spec fn unspaced_end(s: Seq<char>) -> int
    decreases s.len(),
{
    if s.len() > 0 && is_space(s.last()) {
        unspaced_end(s.drop_last())
    } else {
        s.len() as int
    }
}

/// `s` without the white space at its ends.
pub open spec fn trimmed(s: Seq<char>) -> Seq<char> {
    if leading_spaces(s) < unspaced_end(s) {
        s.subrange(leading_spaces(s), unspaced_end(s))
    } else {
        Seq::empty()
    }
}

/// The place of the first `c` in `s`.
pub fn find_first(s: &str, c: char) -> (at: usize)
    ensures
        at == first_place(s@, c),
        at <= s@.len(),
{
    let n: usize = s.unicode_len();
    let mut i: usize = 0;
    assert(s@.skip(0) =~= s@);
    while i < n
        invariant
            n == s@.len(),
            i <= n,
            first_place(s@, c) == i + first_place(s@.skip(i as int), c),
        decreases n - i,
    {
        proof {
            lemma_skip_step(s@, i as int);
        }
        if s.get_char(i) == c {
            return i;
        }
        i += 1;
    }
    i
}

/// The place behind the last `c` in `s`.
pub fn find_last_end(s: &str, c: char) -> (at: usize)
    ensures
        at == last_end(s@, c),
        at <= s@.len(),
{
    let n: usize = s.unicode_len();
    let mut i: usize = n;
    assert(s@.take(n as int) =~= s@);
    while i > 0
        invariant
            n == s@.len(),
            i <= n,
            last_end(s@, c) == last_end(s@.take(i as int), c),
        decreases i,
    {
        proof {
            lemma_take_step(s@, i as int);
        }
        if s.get_char(i - 1) == c {
            return i;
        }
        i -= 1;
    }
    0
}

/// The place of the first `->` in `s`.
pub fn find_first_arrow(s: &str) -> (at: usize)
    ensures
        at == first_arrow(s@),
        at <= s@.len(),
{
    let n: usize = s.unicode_len();
    let mut i: usize = 0;
    assert(s@.skip(0) =~= s@);
    while n - i >= 2
        invariant
            n == s@.len(),
            i <= n,
            first_arrow(s@) == i + first_arrow(s@.skip(i as int)),
        decreases n - i,
    {
        proof {
            lemma_skip_step(s@, i as int);
            lemma_skip_step(s@, i + 1);
            assert(s@.skip(i as int)[1] == s@[i + 1]);
        }
        if s.get_char(i) == '-' && s.get_char(i + 1) == '>' {
            return i;
        }
        i += 1;
    }
    assert(first_arrow(s@.skip(i as int)) == n - i);
    n
}

/// The place behind the last `->` in `s`.
pub fn find_last_arrow_end(s: &str) -> (at: usize)
    ensures
        at == last_arrow_end(s@),
        at <= s@.len(),
{
    let n: usize = s.unicode_len();
    let mut i: usize = n;
    assert(s@.take(n as int) =~= s@);
    while i > 1
        invariant
            n == s@.len(),
            i <= n,
            last_arrow_end(s@) == last_arrow_end(s@.take(i as int)),
        decreases i,
    {
        proof {
            lemma_take_step(s@, i as int);
        }
        if s.get_char(i - 2) == '-' && s.get_char(i - 1) == '>' {
            return i;
        }
        i -= 1;
    }
    0
}

/// `s` without every `c`.
pub fn remove_char(s: &str, c: char) -> (out: String)
    ensures
        out@ == without(s@, c),
{
    let ghost keep = is_not(c);
    let n: usize = s.unicode_len();
    let mut out = String::new();
    let mut i: usize = 0;
    assert(s@.take(0).filter(keep) =~= Seq::<char>::empty()) by {
        reveal(Seq::filter);
    }
    while i < n
        invariant
            n == s@.len(),
            i <= n,
            keep == is_not(c),
            out@ == s@.take(i as int).filter(keep),
        decreases n - i,
    {
        proof {
            assert(s@.take(i + 1) =~= s@.take(i as int).push(s@[i as int]));
            s@.take(i as int).lemma_filter_push(s@[i as int], keep);
        }
        if s.get_char(i) != c {
            let piece = s.substring_char(i, i + 1);
            assert(piece@ =~= seq![s@[i as int]]);
            let ghost before = out@;
            out.append(piece);
            assert(out@ =~= before.push(s@[i as int]));
        }
        i += 1;
    }
    assert(s@.take(n as int) =~= s@);
    out
}

/// Whether `c` is white space.
pub fn is_space_char(c: char) -> (r: bool)
    ensures
        r == is_space(c),
{
    ('\u{9}' <= c && c <= '\u{d}') || c == ' ' || c == '\u{85}' || c == '\u{a0}' || c
        == '\u{1680}' || ('\u{2000}' <= c && c <= '\u{200a}') || c == '\u{2028}' || c
        == '\u{2029}' || c == '\u{202f}' || c == '\u{205f}' || c == '\u{3000}'
}

/// `s` without the white space at its ends.
pub fn trim(s: &str) -> (out: &str)
    ensures
        out@ == trimmed(s@),
{
    let n: usize = s.unicode_len();
    let mut a: usize = 0;
    assert(s@.skip(0) =~= s@);
    while a < n && is_space_char(s.get_char(a))
        invariant
            n == s@.len(),
            a <= n,
            leading_spaces(s@) == a + leading_spaces(s@.skip(a as int)),
        decreases n - a,
    {
        proof {
            lemma_skip_step(s@, a as int);
        }
        a += 1;
    }
    proof {
        if a < n {
            lemma_skip_step(s@, a as int);
        }
    }
    let mut b: usize = n;
    assert(s@.take(n as int) =~= s@);
    while b > 0 && is_space_char(s.get_char(b - 1))
        invariant
            n == s@.len(),
            b <= n,
            unspaced_end(s@) == unspaced_end(s@.take(b as int)),
        decreases b,
    {
        proof {
            lemma_take_step(s@, b as int);
        }
        b -= 1;
    }
    proof {
        if b > 0 {
            lemma_take_step(s@, b as int);
        }
    }
    if a < b {
        s.substring_char(a, b)
    } else {
        let out = s.substring_char(0, 0);
        assert(out@ =~= Seq::<char>::empty());
        out
    }
}

} // verus!
