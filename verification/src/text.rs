//! Character-level text utilities with specifications: conversion between
//! `str`/`String` and character sequences, Unicode whitespace, trimming,
//! searching, line splitting and decimal/hexadecimal numbers.

use vstd::prelude::*;

verus! {

/// Appends one character to a `String` (`String::push`).
/// Trusted: the result's characters are the old characters followed by `c`.
#[verifier::external_body]
pub(crate) fn push_char(s: &mut String, c: char)
    ensures
        final(s)@ == old(s)@.push(c),
{
    s.push(c);
}

/// The characters of `s`, in order.
pub fn chars_of(s: &str) -> (v: Vec<char>)
    ensures
        v@ == s@,
{
    let mut v: Vec<char> = Vec::new();
    for c in it: s.chars()
        invariant
            v@ == it.seq().take(it.index() as int),
            it.seq() == s@,
    {
        v.push(c);
    }
    v
}

/// A `String` holding the characters `cs[lo..hi]`.
pub fn string_of_range(cs: &[char], lo: usize, hi: usize) -> (s: String)
    requires
        lo <= hi <= cs@.len(),
    ensures
        s@ == cs@.subrange(lo as int, hi as int),
{
    let mut s = String::new();
    let mut i: usize = lo;
    while i < hi
        invariant
            lo <= i <= hi <= cs@.len(),
            s@ == cs@.subrange(lo as int, i as int),
        decreases hi - i,
    {
        push_char(&mut s, cs[i]);
        assert(cs@.subrange(lo as int, i as int).push(cs@[i as int]) =~= cs@.subrange(
            lo as int,
            i + 1,
        ));
        i = i + 1;
    }
    s
}

/// A `String` holding the characters `cs`.
pub fn string_from(cs: &[char]) -> (s: String)
    ensures
        s@ == cs@,
{
    let s = string_of_range(cs, 0, cs.len());
    assert(cs@.subrange(0, cs@.len() as int) =~= cs@);
    s
}

/// Appends the characters of `t` to `s`.
pub fn push_chars(s: &mut String, t: &[char])
    ensures
        final(s)@ == old(s)@ + t@,
{
    let mut i: usize = 0;
    while i < t.len()
        invariant
            i <= t@.len(),
            s@ == old(s)@ + t@.take(i as int),
        decreases t@.len() - i,
    {
        push_char(s, t[i]);
        assert(old(s)@ + t@.take(i + 1) =~= (old(s)@ + t@.take(i as int)).push(t@[i as int]));
        i = i + 1;
    }
    assert(t@.take(t@.len() as int) =~= t@);
}

/// Appends the characters of `t` to `s`.
pub fn push_str(s: &mut String, t: &str)
    ensures
        final(s)@ == old(s)@ + t@,
{
    let cs = chars_of(t);
    push_chars(s, cs.as_slice());
}

// ---------------------------------------------------------------------------
// Whitespace and trimming
// ---------------------------------------------------------------------------

/// The Unicode `White_Space` property, which `char::is_whitespace`,
/// `str::trim` and `str::trim_start` use.
pub open spec fn is_white_space(c: char) -> bool {
    let u = c as u32;
    (0x09 <= u && u <= 0x0D) || u == 0x20 || u == 0x85 || u == 0xA0 || u == 0x1680 || (0x2000
        <= u && u <= 0x200A) || u == 0x2028 || u == 0x2029 || u == 0x202F || u == 0x205F || u
        == 0x3000
}

/// Exec counterpart of [`is_white_space`].
pub fn is_whitespace(c: char) -> (b: bool)
    ensures
        b == is_white_space(c),
{
    let u = c as u32;
    (0x09 <= u && u <= 0x0D) || u == 0x20 || u == 0x85 || u == 0xA0 || u == 0x1680 || (0x2000
        <= u && u <= 0x200A) || u == 0x2028 || u == 0x2029 || u == 0x202F || u == 0x205F || u
        == 0x3000
}

/// `s` without its leading whitespace.
pub open spec fn trim_start(s: Seq<char>) -> Seq<char>
    decreases s.len(),
{
    if s.len() > 0 && is_white_space(s[0]) {
        trim_start(s.drop_first())
    } else {
        s
    }
}

/// `s` without its trailing whitespace.
pub open spec fn trim_end(s: Seq<char>) -> Seq<char>
    decreases s.len(),
{
    if s.len() > 0 && is_white_space(s.last()) {
        trim_end(s.drop_last())
    } else {
        s
    }
}

/// `s` without leading and trailing whitespace (`str::trim`).
pub open spec fn trim(s: Seq<char>) -> Seq<char> {
    trim_end(trim_start(s))
}

/// The bounds of `trim_start(cs[lo..hi])` inside `cs`.
pub fn trim_start_range(cs: &[char], lo: usize, hi: usize) -> (a: usize)
    requires
        lo <= hi <= cs@.len(),
    ensures
        lo <= a <= hi,
        cs@.subrange(a as int, hi as int) == trim_start(cs@.subrange(lo as int, hi as int)),
{
    let mut a = lo;
    while a < hi && is_whitespace(cs[a])
        invariant
            lo <= a <= hi <= cs@.len(),
            trim_start(cs@.subrange(a as int, hi as int)) == trim_start(
                cs@.subrange(lo as int, hi as int),
            ),
        decreases hi - a,
    {
        assert(cs@.subrange(a as int, hi as int).drop_first() =~= cs@.subrange(a + 1, hi as int));
        a = a + 1;
    }
    a
}

/// The bounds of `trim(cs[lo..hi])` inside `cs`.
pub fn trim_range(cs: &[char], lo: usize, hi: usize) -> (r: (usize, usize))
    requires
        lo <= hi <= cs@.len(),
    ensures
        lo <= r.0 <= r.1 <= hi,
        cs@.subrange(r.0 as int, r.1 as int) == trim(cs@.subrange(lo as int, hi as int)),
{
    let a = trim_start_range(cs, lo, hi);
    let mut b = hi;
    while b > a && is_whitespace(cs[b - 1])
        invariant
            lo <= a <= b <= hi <= cs@.len(),
            trim_end(cs@.subrange(a as int, b as int)) == trim(cs@.subrange(lo as int, hi as int)),
        decreases b - a,
    {
        assert(cs@.subrange(a as int, b as int).drop_last() =~= cs@.subrange(a as int, b - 1));
        b = b - 1;
    }
    (a, b)
}

/// `trim(s)` as a `String`.
pub fn trimmed(s: &str) -> (t: String)
    ensures
        t@ == trim(s@),
{
    let cs = chars_of(s);
    let (a, b) = trim_range(cs.as_slice(), 0, cs.len());
    assert(cs@.subrange(0, cs@.len() as int) =~= cs@);
    string_of_range(cs.as_slice(), a, b)
}

// ---------------------------------------------------------------------------
// Searching
// ---------------------------------------------------------------------------

/// `pat` occurs in `s` at position `i`.
pub open spec fn occurs_at(s: Seq<char>, pat: Seq<char>, i: int) -> bool {
    0 <= i && i + pat.len() <= s.len() && s.subrange(i, i + pat.len()) == pat
}

/// The first position at or after `i` where `pat` occurs in `s`.
pub open spec fn find_from(s: Seq<char>, pat: Seq<char>, i: int) -> Option<int>
    decreases s.len() + 1 - i,
{
    if i < 0 || i + pat.len() > s.len() {
        None
    } else if s.subrange(i, i + pat.len()) == pat {
        Some(i)
    } else {
        find_from(s, pat, i + 1)
    }
}

/// The first position where `pat` occurs in `s` (`str::find`).
pub open spec fn find(s: Seq<char>, pat: Seq<char>) -> Option<int> {
    find_from(s, pat, 0)
}

/// `pat` occurs somewhere in `s` (`str::contains`).
pub open spec fn contains(s: Seq<char>, pat: Seq<char>) -> bool {
    find(s, pat) is Some
}

/// `s` without the prefix `p`, if `s` starts with `p` (`str::strip_prefix`).
pub open spec fn strip_prefix(s: Seq<char>, p: Seq<char>) -> Option<Seq<char>> {
    if p.len() <= s.len() && s.take(p.len() as int) == p {
        Some(s.skip(p.len() as int))
    } else {
        None
    }
}

/// What `find_from` returns is an occurrence, and the first one at or after `i`.
pub proof fn lemma_find_from(s: Seq<char>, pat: Seq<char>, i: int)
    requires
        0 <= i,
    ensures
        find_from(s, pat, i) matches Some(k) ==> i <= k && occurs_at(s, pat, k) && forall|j: int|
            i <= j < k ==> !occurs_at(s, pat, j),
        find_from(s, pat, i) is None ==> forall|j: int| i <= j ==> !occurs_at(s, pat, j),
    decreases s.len() + 1 - i,
{
    if i + pat.len() <= s.len() && s.subrange(i, i + pat.len()) != pat {
        lemma_find_from(s, pat, i + 1);
    }
}

/// `cs[i..i + pat.len()] == pat`.
pub fn occurs_at_exec(cs: &[char], pat: &[char], i: usize) -> (b: bool)
    requires
        i + pat@.len() <= cs@.len(),
    ensures
        b == (cs@.subrange(i as int, i + pat@.len()) == pat@),
{
    let n = cs.len();
    let mut j: usize = 0;
    while j < pat.len()
        invariant
            n == cs@.len(),
            i + pat@.len() <= cs@.len(),
            j <= pat@.len(),
            forall|k: int| 0 <= k < j ==> cs@[i + k] == pat@[k],
        decreases pat@.len() - j,
    {
        assert(i + j < cs@.len());
        if cs[i + j] != pat[j] {
            assert(cs@.subrange(i as int, i + pat@.len())[j as int] != pat@[j as int]);
            return false;
        }
        j = j + 1;
    }
    assert(cs@.subrange(i as int, i + pat@.len()) =~= pat@);
    true
}

/// The first position, relative to `lo`, where `pat` occurs in `cs[lo..hi]`.
pub fn find_in(cs: &[char], lo: usize, hi: usize, pat: &[char]) -> (r: Option<usize>)
    requires
        lo <= hi <= cs@.len(),
    ensures
        r matches Some(k) ==> find(cs@.subrange(lo as int, hi as int), pat@) == Some(k as int),
        r is None ==> find(cs@.subrange(lo as int, hi as int), pat@) is None,
{
    let ghost s = cs@.subrange(lo as int, hi as int);
    if pat.len() > hi - lo {
        return None;
    }
    let last = hi - lo - pat.len();
    let mut i: usize = 0;
    while i <= last
        invariant
            lo <= hi <= cs@.len(),
            s == cs@.subrange(lo as int, hi as int),
            last + pat@.len() == hi - lo,
            i <= last + 1,
            find(s, pat@) == find_from(s, pat@, i as int),
        decreases last + 1 - i,
    {
        let hit = occurs_at_exec(cs, pat, lo + i);
        assert(s.subrange(i as int, i + pat@.len()) =~= cs@.subrange(lo + i, lo + i + pat@.len()));
        if hit {
            return Some(i);
        }
        if i == last {
            assert(find_from(s, pat@, i + 1) is None);
            return None;
        }
        i = i + 1;
    }
    None
}

/// Whether `pat` occurs in `s`.
pub fn str_contains(s: &[char], pat: &str) -> (b: bool)
    ensures
        b == contains(s@, pat@),
{
    let p = chars_of(pat);
    let r = find_in(s, 0, s.len(), p.as_slice());
    assert(s@.subrange(0, s@.len() as int) =~= s@);
    r.is_some()
}

/// Whether `cs[lo..hi]` starts with `p`.
pub fn starts_with_at(cs: &[char], lo: usize, hi: usize, p: &[char]) -> (b: bool)
    requires
        lo <= hi <= cs@.len(),
    ensures
        b == (strip_prefix(cs@.subrange(lo as int, hi as int), p@) is Some),
{
    if p.len() > hi - lo {
        return false;
    }
    let r = occurs_at_exec(cs, p, lo);
    assert(cs@.subrange(lo as int, hi as int).take(p@.len() as int) =~= cs@.subrange(
        lo as int,
        lo + p@.len(),
    ));
    r
}

// ---------------------------------------------------------------------------
// Lines
// ---------------------------------------------------------------------------

/// A separator for splitting: one character, or any whitespace character.
#[derive(Clone, Copy, Debug)]
pub enum Sep {
    Char(char),
    Whitespace,
}

/// `c` is a separator of kind `sep`.
pub open spec fn is_sep(sep: Sep, c: char) -> bool {
    match sep {
        Sep::Char(x) => c == x,
        Sep::Whitespace => is_white_space(c),
    }
}

/// Exec counterpart of [`is_sep`].
pub fn is_sep_exec(sep: Sep, c: char) -> (b: bool)
    ensures
        b == is_sep(sep, c),
{
    match sep {
        Sep::Char(x) => c == x,
        Sep::Whitespace => is_whitespace(c),
    }
}

/// The first position of a separator in `s` at or after `i`.
pub open spec fn find_sep_from(s: Seq<char>, sep: Sep, i: int) -> Option<int>
    decreases s.len() - i,
{
    if i < 0 || i >= s.len() {
        None
    } else if is_sep(sep, s[i]) {
        Some(i)
    } else {
        find_sep_from(s, sep, i + 1)
    }
}

/// A line without the `'\r'` that precedes its `'\n'`.
pub open spec fn strip_cr(l: Seq<char>) -> Seq<char> {
    if l.len() > 0 && l.last() == '\r' {
        l.drop_last()
    } else {
        l
    }
}

/// The lines of `s` (`str::lines`): split after each `'\n'`; a line that
/// ended in `"\r\n"` loses both characters, the last line may lack a
/// terminator, and a trailing terminator yields no empty last line.
pub open spec fn lines(s: Seq<char>) -> Seq<Seq<char>>
    decreases s.len(),
{
    if s.len() == 0 {
        Seq::empty()
    } else {
        match find_sep_from(s, Sep::Char('\n'), 0) {
            None => seq![s],
            Some(k) => if 0 <= k < s.len() {
                seq![strip_cr(s.take(k))] + lines(s.skip(k + 1))
            } else {
                Seq::empty()
            },
        }
    }
}

/// What `find_sep_from` returns is the first separator at or after `i`.
pub proof fn lemma_find_sep_from(s: Seq<char>, sep: Sep, i: int)
    requires
        0 <= i,
    ensures
        find_sep_from(s, sep, i) matches Some(k) ==> i <= k < s.len() && is_sep(sep, s[k])
            && forall|j: int| i <= j < k ==> !is_sep(sep, s[j]),
        find_sep_from(s, sep, i) is None ==> forall|j: int| i <= j < s.len() ==> !is_sep(sep, s[j]),
    decreases s.len() - i,
{
    if i < s.len() && !is_sep(sep, s[i]) {
        lemma_find_sep_from(s, sep, i + 1);
    }
}

/// Searching a suffix is searching the whole from the suffix's start.
pub proof fn lemma_find_sep_shift(s: Seq<char>, sep: Sep, i: int, d: int)
    requires
        0 <= d <= i,
        d <= s.len(),
    ensures
        find_sep_from(s, sep, i) == (match find_sep_from(s.skip(d), sep, i - d) {
            Some(k) => Some(k + d),
            None => None,
        }),
    decreases s.len() - i,
{
    assert(s.skip(d).len() == s.len() - d);
    if i < s.len() {
        assert(s.skip(d)[i - d] == s[i]);
        if !is_sep(sep, s[i]) {
            lemma_find_sep_shift(s, sep, i + 1, d);
        } else {
            assert(find_sep_from(s.skip(d), sep, i - d) == Some(i - d));
        }
    } else {
        assert(find_sep_from(s.skip(d), sep, i - d) is None);
    }
}

/// If `s[k]` is a separator and none precedes it in `s[lo..]`, the first
/// separator of `s.subrange(lo, hi)` is at `k - lo`.
pub proof fn lemma_first_sep_in_range(s: Seq<char>, sep: Sep, lo: int, hi: int, k: int)
    requires
        0 <= lo <= k < hi <= s.len(),
        is_sep(sep, s[k]),
        forall|j: int| lo <= j < k ==> !is_sep(sep, s[j]),
    ensures
        find_sep_from(s.subrange(lo, hi), sep, 0) == Some(k - lo),
{
    let r = s.subrange(lo, hi);
    lemma_find_sep_from(r, sep, 0);
    assert(is_sep(sep, r[k - lo]));
    if let Some(m) = find_sep_from(r, sep, 0) {
        if m < k - lo {
            assert(r[m] == s[lo + m]);
        }
    }
}

/// If no separator is in `s[lo..hi]`, none is found there.
pub proof fn lemma_no_sep_in_range(s: Seq<char>, sep: Sep, lo: int, hi: int)
    requires
        0 <= lo <= hi <= s.len(),
        forall|j: int| lo <= j < hi ==> !is_sep(sep, s[j]),
    ensures
        find_sep_from(s.subrange(lo, hi), sep, 0) is None,
{
    let r = s.subrange(lo, hi);
    lemma_find_sep_from(r, sep, 0);
    if let Some(m) = find_sep_from(r, sep, 0) {
        assert(r[m] == s[lo + m]);
    }
}

/// The lines of `cs` (see [`lines`]).
pub fn lines_of(cs: &[char]) -> (ls: Vec<Vec<char>>)
    ensures
        ls.deep_view() == lines(cs@),
{
    let mut ls: Vec<Vec<char>> = Vec::new();
    let mut start: usize = 0;
    let mut i: usize = 0;
    assert(cs@.skip(0) =~= cs@);
    assert(ls.deep_view() + lines(cs@) =~= lines(cs@));
    while i < cs.len()
        invariant
            start <= i <= cs@.len(),
            forall|j: int| start <= j < i ==> !is_sep(Sep::Char('\n'), cs@[j]),
            lines(cs@) == ls.deep_view() + lines(cs@.skip(start as int)),
        decreases cs@.len() - i,
    {
        if cs[i] == '\n' {
            let ghost rest = cs@.skip(start as int);
            proof {
                lemma_first_sep_in_range(cs@, Sep::Char('\n'), start as int, cs@.len() as int, i as int);
                assert(rest =~= cs@.subrange(start as int, cs@.len() as int));
                assert(rest.skip(i - start + 1) =~= cs@.skip(i + 1));
            }
            let mut end = i;
            if end > start && cs[end - 1] == '\r' {
                end = end - 1;
            }
            let mut line: Vec<char> = Vec::new();
            let mut j = start;
            while j < end
                invariant
                    start <= j <= end <= i < cs@.len(),
                    line@ == cs@.subrange(start as int, j as int),
                decreases end - j,
            {
                line.push(cs[j]);
                assert(cs@.subrange(start as int, j as int).push(cs@[j as int]) =~= cs@.subrange(
                    start as int,
                    j + 1,
                ));
                j = j + 1;
            }
            proof {
                assert(rest.take(i - start) =~= cs@.subrange(start as int, i as int));
                assert(strip_cr(rest.take(i - start)) =~= line@);
            }
            let ghost old_ls = ls.deep_view();
            assert(line.deep_view() =~= line@);
            ls.push(line);
            assert(ls.deep_view() =~= old_ls.push(line@));
            assert(lines(rest) =~= seq![line@] + lines(cs@.skip(i + 1)));
            start = i + 1;
        }
        i = i + 1;
    }
    if start < cs.len() {
        let ghost rest = cs@.skip(start as int);
        proof {
            lemma_no_sep_in_range(cs@, Sep::Char('\n'), start as int, cs@.len() as int);
            assert(rest =~= cs@.subrange(start as int, cs@.len() as int));
        }
        let mut line: Vec<char> = Vec::new();
        let mut j = start;
        while j < cs.len()
            invariant
                start <= j <= cs@.len(),
                line@ == cs@.subrange(start as int, j as int),
            decreases cs@.len() - j,
        {
            line.push(cs[j]);
            assert(cs@.subrange(start as int, j as int).push(cs@[j as int]) =~= cs@.subrange(
                start as int,
                j + 1,
            ));
            j = j + 1;
        }
        assert(rest =~= line@);
        let ghost old_ls = ls.deep_view();
        assert(line.deep_view() =~= line@);
        ls.push(line);
        assert(ls.deep_view() =~= old_ls.push(line@));
        assert(lines(cs@) =~= ls.deep_view());
    } else {
        assert(cs@.skip(start as int).len() == 0);
        assert(lines(cs@) =~= ls.deep_view());
    }
    ls
}

} // verus!

verus! {

// ---------------------------------------------------------------------------
// Numbers
// ---------------------------------------------------------------------------

/// Why text is not a number (`core::num::IntErrorKind`).
#[derive(Clone, Copy, Debug, PartialEq, Eq, Structural)]
pub enum IntErrorKind {
    /// The text is empty.
    Empty,
    /// A character is not a digit of the radix (or the text is only a sign).
    InvalidDigit,
    /// The value does not fit in the target type.
    PosOverflow,
}

/// The value of `c` as a digit of `radix` (`char::to_digit`, radix at most 36).
pub open spec fn digit_of(c: char, radix: nat) -> Option<nat> {
    let u = c as u32;
    let d: int = if 48 <= u && u <= 57 {
        u - 48
    } else if 97 <= u && u <= 122 {
        u - 97 + 10
    } else if 65 <= u && u <= 90 {
        u - 65 + 10
    } else {
        99
    };
    if d < radix {
        Some(d as nat)
    } else {
        None
    }
}

/// Reads the digits `s` after the value `acc` read so far; the first
/// character that is not a digit, or that makes the value exceed `max`,
/// decides the error.
pub open spec fn scan_digits(s: Seq<char>, radix: nat, max: nat, acc: nat) -> Result<
    nat,
    IntErrorKind,
>
    decreases s.len(),
{
    if s.len() == 0 {
        Ok(acc)
    } else {
        match digit_of(s[0], radix) {
            None => Err(IntErrorKind::InvalidDigit),
            Some(d) => if acc * radix + d > max {
                Err(IntErrorKind::PosOverflow)
            } else {
                scan_digits(s.drop_first(), radix, max, acc * radix + d)
            },
        }
    }
}

/// An unsigned integer of at most `max` written in `radix` (`u32::from_str_radix`,
/// `<u64 as FromStr>::from_str` and the like): an optional `+`, then at least
/// one digit.
pub open spec fn parse_unsigned(s: Seq<char>, radix: nat, max: nat) -> Result<nat, IntErrorKind> {
    if s.len() == 0 {
        Err(IntErrorKind::Empty)
    } else if s.len() == 1 && (s[0] == '+' || s[0] == '-') {
        Err(IntErrorKind::InvalidDigit)
    } else if s[0] == '+' {
        scan_digits(s.drop_first(), radix, max, 0)
    } else {
        scan_digits(s, radix, max, 0)
    }
}

proof fn lemma_scan_bound(s: Seq<char>, radix: nat, max: nat, acc: nat)
    requires
        acc <= max,
    ensures
        scan_digits(s, radix, max, acc) matches Ok(v) ==> v <= max,
    decreases s.len(),
{
    if s.len() > 0 {
        if let Some(d) = digit_of(s[0], radix) {
            if acc * radix + d <= max {
                lemma_scan_bound(s.drop_first(), radix, max, acc * radix + d);
            }
        }
    }
}

/// Exec digit value of `c` in `radix`.
pub fn digit_exec(c: char, radix: u32) -> (r: Option<u32>)
    requires
        2 <= radix <= 36,
    ensures
        r matches Some(d) ==> digit_of(c, radix as nat) == Some(d as nat),
        r is None ==> digit_of(c, radix as nat) is None,
{
    let u = c as u32;
    let d: u32 = if 48 <= u && u <= 57 {
        u - 48
    } else if 97 <= u && u <= 122 {
        u - 97 + 10
    } else if 65 <= u && u <= 90 {
        u - 65 + 10
    } else {
        99
    };
    if d < radix {
        Some(d)
    } else {
        None
    }
}

/// `parse_unsigned` of `cs[lo..hi]`.
pub fn parse_unsigned_range(cs: &[char], lo: usize, hi: usize, radix: u32, max: u64) -> (r: Result<
    u64,
    IntErrorKind,
>)
    requires
        lo <= hi <= cs@.len(),
        2 <= radix <= 36,
    ensures
        match r {
            Ok(v) => parse_unsigned(cs@.subrange(lo as int, hi as int), radix as nat, max as nat)
                == Ok::<nat, IntErrorKind>(v as nat),
            Err(e) => parse_unsigned(cs@.subrange(lo as int, hi as int), radix as nat, max as nat)
                == Err::<nat, IntErrorKind>(e),
        },
{
    let ghost s = cs@.subrange(lo as int, hi as int);
    if lo == hi {
        return Err(IntErrorKind::Empty);
    }
    if hi - lo == 1 && (cs[lo] == '+' || cs[lo] == '-') {
        return Err(IntErrorKind::InvalidDigit);
    }
    let mut i = lo;
    if cs[lo] == '+' {
        i = lo + 1;
        assert(s.drop_first() =~= cs@.subrange(i as int, hi as int));
    } else {
        assert(s =~= cs@.subrange(i as int, hi as int));
    }
    let mut acc: u128 = 0;
    while i < hi
        invariant
            lo <= i <= hi <= cs@.len(),
            2 <= radix <= 36,
            acc <= max,
            s == cs@.subrange(lo as int, hi as int),
            parse_unsigned(s, radix as nat, max as nat) == scan_digits(
                cs@.subrange(i as int, hi as int),
                radix as nat,
                max as nat,
                acc as nat,
            ),
        decreases hi - i,
    {
        let ghost rest = cs@.subrange(i as int, hi as int);
        assert(rest[0] == cs@[i as int]);
        assert(rest.drop_first() =~= cs@.subrange(i + 1, hi as int));
        match digit_exec(cs[i], radix) {
            None => {
                return Err(IntErrorKind::InvalidDigit);
            },
            Some(d) => {
                assert(acc * (radix as u128) <= (max as u128) * 36) by (nonlinear_arith)
                    requires
                        acc <= max,
                        radix <= 36,
                ;
                let next: u128 = acc * (radix as u128) + (d as u128);
                if next > max as u128 {
                    return Err(IntErrorKind::PosOverflow);
                }
                acc = next;
            },
        }
        i = i + 1;
    }
    Ok(acc as u64)
}

/// `parse_unsigned` of the characters of `s`.
pub fn parse_unsigned_str(s: &str, radix: u32, max: u64) -> (r: Result<u64, IntErrorKind>)
    requires
        2 <= radix <= 36,
    ensures
        match r {
            Ok(v) => parse_unsigned(s@, radix as nat, max as nat) == Ok::<nat, IntErrorKind>(
                v as nat,
            ),
            Err(e) => parse_unsigned(s@, radix as nat, max as nat) == Err::<nat, IntErrorKind>(e),
        },
{
    let cs = chars_of(s);
    assert(cs@.subrange(0, cs@.len() as int) =~= cs@);
    parse_unsigned_range(cs.as_slice(), 0, cs.len(), radix, max)
}

/// The character of decimal digit `d`.
pub open spec fn digit_char(d: nat) -> char {
    (d + 48) as char
}

/// The decimal digits of `n`, without leading zeros (`n.to_string()`).
pub open spec fn decimal(n: nat) -> Seq<char>
    decreases n,
{
    if n < 10 {
        seq![digit_char(n)]
    } else {
        decimal(n / 10).push(digit_char(n % 10))
    }
}

/// The exec character of decimal digit `d`.
fn digit_char_exec(d: u64) -> (c: char)
    requires
        d < 10,
    ensures
        c == digit_char(d as nat),
{
    let c = if d == 0 {
        '0'
    } else if d == 1 {
        '1'
    } else if d == 2 {
        '2'
    } else if d == 3 {
        '3'
    } else if d == 4 {
        '4'
    } else if d == 5 {
        '5'
    } else if d == 6 {
        '6'
    } else if d == 7 {
        '7'
    } else if d == 8 {
        '8'
    } else {
        '9'
    };
    c
}

/// Appends the decimal digits of `n` to `s`.
pub fn push_decimal(s: &mut String, n: u64)
    ensures
        final(s)@ == old(s)@ + decimal(n as nat),
    decreases n,
{
    if n >= 10 {
        push_decimal(s, n / 10);
    }
    let c = digit_char_exec(n % 10);
    push_char(s, c);
    if n >= 10 {
        assert(old(s)@ + decimal(n as nat) =~= old(s)@ + decimal((n / 10) as nat) + seq![c]);
    } else {
        assert(old(s)@ + decimal(n as nat) =~= old(s)@.push(c));
    }
}

// ---------------------------------------------------------------------------
// ASCII case
// ---------------------------------------------------------------------------

/// The code of `c` with ASCII upper-case letters mapped to lower case.
pub open spec fn ascii_lower(c: char) -> u32 {
    let u = c as u32;
    if 65 <= u && u <= 90 {
        (u + 32) as u32
    } else {
        u
    }
}

/// Exec counterpart of [`ascii_lower`].
pub fn ascii_lower_exec(c: char) -> (u: u32)
    ensures
        u == ascii_lower(c),
{
    let u = c as u32;
    if 65 <= u && u <= 90 {
        u + 32
    } else {
        u
    }
}

/// `a` and `b` are equal up to ASCII case (`str::eq_ignore_ascii_case`).
pub open spec fn eq_ignore_ascii_case(a: Seq<char>, b: Seq<char>) -> bool {
    a.len() == b.len() && forall|i: int| 0 <= i < a.len() ==> ascii_lower(a[i]) == ascii_lower(b[i])
}

/// Exec counterpart of [`eq_ignore_ascii_case`].
pub fn eq_ignore_ascii_case_exec(a: &[char], b: &[char]) -> (r: bool)
    ensures
        r == eq_ignore_ascii_case(a@, b@),
{
    if a.len() != b.len() {
        return false;
    }
    let mut i: usize = 0;
    while i < a.len()
        invariant
            a@.len() == b@.len(),
            i <= a@.len(),
            forall|j: int| 0 <= j < i ==> ascii_lower(a@[j]) == ascii_lower(b@[j]),
        decreases a@.len() - i,
    {
        if ascii_lower_exec(a[i]) != ascii_lower_exec(b[i]) {
            return false;
        }
        i = i + 1;
    }
    true
}

} // verus!

verus! {

/// `a == b`.
pub fn chars_eq(a: &[char], b: &[char]) -> (r: bool)
    ensures
        r == (a@ == b@),
{
    if a.len() != b.len() {
        return false;
    }
    let mut i: usize = 0;
    while i < a.len()
        invariant
            a@.len() == b@.len(),
            i <= a@.len(),
            forall|j: int| 0 <= j < i ==> a@[j] == b@[j],
        decreases a@.len() - i,
    {
        if a[i] != b[i] {
            return false;
        }
        i = i + 1;
    }
    assert(a@ =~= b@);
    true
}

} // verus!

verus! {

// ---------------------------------------------------------------------------
// Splitting
// ---------------------------------------------------------------------------

/// `s.splitn(n, sep)` for `n >= 1`: at most `n` pieces, the last holding the
/// rest of `s`.
pub open spec fn splitn(s: Seq<char>, n: nat, sep: Sep) -> Seq<Seq<char>>
    decreases n,
{
    if n <= 1 {
        seq![s]
    } else {
        match find_sep_from(s, sep, 0) {
            None => seq![s],
            Some(k) => if 0 <= k < s.len() {
                seq![s.take(k)] + splitn(s.skip(k + 1), (n - 1) as nat, sep)
            } else {
                seq![s]
            },
        }
    }
}

/// `s.split(sep)`: the pieces between separators.
pub open spec fn split(s: Seq<char>, sep: Sep) -> Seq<Seq<char>>
    decreases s.len(),
{
    match find_sep_from(s, sep, 0) {
        None => seq![s],
        Some(k) => if 0 <= k < s.len() {
            seq![s.take(k)] + split(s.skip(k + 1), sep)
        } else {
            seq![s]
        },
    }
}

/// With more pieces allowed than `s` has characters, `splitn` is `split`.
pub proof fn lemma_splitn_is_split(s: Seq<char>, n: nat, sep: Sep)
    requires
        n > s.len(),
    ensures
        splitn(s, n, sep) == split(s, sep),
    decreases s.len(),
{
    lemma_find_sep_from(s, sep, 0);
    if let Some(k) = find_sep_from(s, sep, 0) {
        lemma_splitn_is_split(s.skip(k + 1), (n - 1) as nat, sep);
    }
}

/// The pieces of `cs[lo..hi].splitn(n, sep)`, as bounds inside `cs`.
pub fn splitn_ranges(cs: &[char], lo: usize, hi: usize, n: usize, sep: Sep) -> (r: Vec<(usize, usize)>)
    requires
        lo <= hi <= cs@.len(),
        n >= 1,
    ensures
        r@.len() == splitn(cs@.subrange(lo as int, hi as int), n as nat, sep).len(),
        forall|j: int|
            0 <= j < r@.len() ==> lo <= (#[trigger] r@[j]).0 <= r@[j].1 <= hi && cs@.subrange(
                r@[j].0 as int,
                r@[j].1 as int,
            ) == splitn(cs@.subrange(lo as int, hi as int), n as nat, sep)[j],
{
    let ghost whole = splitn(cs@.subrange(lo as int, hi as int), n as nat, sep);
    let mut r: Vec<(usize, usize)> = Vec::new();
    let mut start = lo;
    let mut left = n;
    let mut i = lo;
    while i < hi && left > 1
        invariant
            lo <= start <= i <= hi <= cs@.len(),
            1 <= left <= n,
            forall|j: int| start <= j < i ==> !is_sep(sep, cs@[j]),
            whole == splitn(cs@.subrange(lo as int, hi as int), n as nat, sep),
            whole == r@.map_values(|p: (usize, usize)| cs@.subrange(p.0 as int, p.1 as int))
                + splitn(cs@.subrange(start as int, hi as int), left as nat, sep),
            forall|j: int| 0 <= j < r@.len() ==> lo <= (#[trigger] r@[j]).0 <= r@[j].1 <= hi,
        decreases hi - i,
    {
        if is_sep_exec(sep, cs[i]) {
            let ghost rest = cs@.subrange(start as int, hi as int);
            proof {
                lemma_first_sep_in_range(cs@, sep, start as int, hi as int, i as int);
                assert(rest.take(i - start) =~= cs@.subrange(start as int, i as int));
                assert(rest.skip(i - start + 1) =~= cs@.subrange(i + 1, hi as int));
            }
            let ghost old_r = r@;
            r.push((start, i));
            assert(r@.map_values(|p: (usize, usize)| cs@.subrange(p.0 as int, p.1 as int))
                =~= old_r.map_values(|p: (usize, usize)| cs@.subrange(p.0 as int, p.1 as int)).push(
                cs@.subrange(start as int, i as int),
            ));
            start = i + 1;
            left = left - 1;
        }
        i = i + 1;
    }
    proof {
        let rest = cs@.subrange(start as int, hi as int);
        if left > 1 {
            lemma_no_sep_in_range(cs@, sep, start as int, hi as int);
        }
        assert(splitn(rest, left as nat, sep) =~= seq![rest]);
    }
    let ghost old_r = r@;
    r.push((start, hi));
    assert(r@.map_values(|p: (usize, usize)| cs@.subrange(p.0 as int, p.1 as int)) =~= old_r.map_values(
        |p: (usize, usize)| cs@.subrange(p.0 as int, p.1 as int),
    ).push(cs@.subrange(start as int, hi as int)));
    assert forall|j: int| 0 <= j < r@.len() implies cs@.subrange(
        (#[trigger] r@[j]).0 as int,
        r@[j].1 as int,
    ) == whole[j] by {
        assert(r@.map_values(|p: (usize, usize)| cs@.subrange(p.0 as int, p.1 as int))[j]
            == cs@.subrange(r@[j].0 as int, r@[j].1 as int));
    }
    r
}

} // verus!

verus! {

/// A parsed number never exceeds the bound it was parsed against.
pub proof fn lemma_scan_bound_parse(s: Seq<char>, radix: nat, max: nat)
    ensures
        parse_unsigned(s, radix, max) matches Ok(v) ==> v <= max,
{
    lemma_scan_bound(s, radix, max, 0);
    if s.len() > 0 {
        lemma_scan_bound(s.drop_first(), radix, max, 0);
    }
}

} // verus!

verus! {

/// The pieces of `cs[lo..hi].split(sep)`, as bounds inside `cs`.
pub fn split_ranges(cs: &[char], lo: usize, hi: usize, sep: Sep) -> (r: Vec<(usize, usize)>)
    requires
        lo <= hi <= cs@.len(),
    ensures
        r@.len() == split(cs@.subrange(lo as int, hi as int), sep).len(),
        forall|j: int|
            0 <= j < r@.len() ==> lo <= (#[trigger] r@[j]).0 <= r@[j].1 <= hi && cs@.subrange(
                r@[j].0 as int,
                r@[j].1 as int,
            ) == split(cs@.subrange(lo as int, hi as int), sep)[j],
{
    let ghost whole = split(cs@.subrange(lo as int, hi as int), sep);
    let mut r: Vec<(usize, usize)> = Vec::new();
    let mut start = lo;
    let mut i = lo;
    while i < hi
        invariant
            lo <= start <= i <= hi <= cs@.len(),
            forall|j: int| start <= j < i ==> !is_sep(sep, cs@[j]),
            whole == split(cs@.subrange(lo as int, hi as int), sep),
            whole == r@.map_values(|p: (usize, usize)| cs@.subrange(p.0 as int, p.1 as int))
                + split(cs@.subrange(start as int, hi as int), sep),
            forall|j: int| 0 <= j < r@.len() ==> lo <= (#[trigger] r@[j]).0 <= r@[j].1 <= hi,
        decreases hi - i,
    {
        if is_sep_exec(sep, cs[i]) {
            let ghost rest = cs@.subrange(start as int, hi as int);
            proof {
                lemma_first_sep_in_range(cs@, sep, start as int, hi as int, i as int);
                assert(rest.take(i - start) =~= cs@.subrange(start as int, i as int));
                assert(rest.skip(i - start + 1) =~= cs@.subrange(i + 1, hi as int));
            }
            let ghost old_r = r@;
            r.push((start, i));
            assert(r@.map_values(|p: (usize, usize)| cs@.subrange(p.0 as int, p.1 as int))
                =~= old_r.map_values(|p: (usize, usize)| cs@.subrange(p.0 as int, p.1 as int)).push(
                cs@.subrange(start as int, i as int),
            ));
            start = i + 1;
        }
        i = i + 1;
    }
    proof {
        let rest = cs@.subrange(start as int, hi as int);
        lemma_no_sep_in_range(cs@, sep, start as int, hi as int);
        assert(split(rest, sep) =~= seq![rest]);
    }
    let ghost old_r = r@;
    r.push((start, hi));
    assert(r@.map_values(|p: (usize, usize)| cs@.subrange(p.0 as int, p.1 as int)) =~= old_r.map_values(
        |p: (usize, usize)| cs@.subrange(p.0 as int, p.1 as int),
    ).push(cs@.subrange(start as int, hi as int)));
    assert forall|j: int| 0 <= j < r@.len() implies cs@.subrange(
        (#[trigger] r@[j]).0 as int,
        r@[j].1 as int,
    ) == whole[j] by {
        assert(r@.map_values(|p: (usize, usize)| cs@.subrange(p.0 as int, p.1 as int))[j]
            == cs@.subrange(r@[j].0 as int, r@[j].1 as int));
    }
    r
}

/// Whether the characters of `s` are `t`.
pub fn str_eq_chars(s: &str, t: &[char]) -> (b: bool)
    ensures
        b == (s@ == t@),
{
    let cs = chars_of(s);
    chars_eq(cs.as_slice(), t)
}

/// Whether `a` and `b` hold the same characters.
pub fn str_eq(a: &str, b: &str) -> (r: bool)
    ensures
        r == (a@ == b@),
{
    let x = chars_of(a);
    let y = chars_of(b);
    chars_eq(x.as_slice(), y.as_slice())
}

} // verus!

verus! {

// ---------------------------------------------------------------------------
// Order
// ---------------------------------------------------------------------------

/// `a` comes strictly before `b` in lexicographic order of code points,
/// which is the order of `String` (`Ord` compares the UTF-8 bytes, and
/// UTF-8 preserves the order of code points).
pub open spec fn lex_lt(a: Seq<char>, b: Seq<char>) -> bool
    decreases a.len(),
{
    if b.len() == 0 {
        false
    } else if a.len() == 0 {
        true
    } else if a[0] != b[0] {
        (a[0] as u32) < (b[0] as u32)
    } else {
        lex_lt(a.drop_first(), b.drop_first())
    }
}

/// `a` comes before `b` or equals it.
pub open spec fn lex_le(a: Seq<char>, b: Seq<char>) -> bool {
    lex_lt(a, b) || a == b
}

/// The order is irreflexive.
pub proof fn lemma_lex_irreflexive(a: Seq<char>)
    ensures
        !lex_lt(a, a),
    decreases a.len(),
{
    if a.len() > 0 {
        lemma_lex_irreflexive(a.drop_first());
    }
}

/// The order is transitive.
pub proof fn lemma_lex_transitive(a: Seq<char>, b: Seq<char>, c: Seq<char>)
    requires
        lex_lt(a, b),
        lex_lt(b, c),
    ensures
        lex_lt(a, c),
    decreases a.len(),
{
    if a.len() > 0 && b.len() > 0 && c.len() > 0 && a[0] == b[0] && b[0] == c[0] {
        lemma_lex_transitive(a.drop_first(), b.drop_first(), c.drop_first());
    }
}

/// Any two different sequences are ordered one way or the other.
pub proof fn lemma_lex_total(a: Seq<char>, b: Seq<char>)
    requires
        a != b,
    ensures
        lex_lt(a, b) || lex_lt(b, a),
    decreases a.len(),
{
    if a.len() > 0 && b.len() > 0 && a[0] == b[0] {
        if a.drop_first() == b.drop_first() {
            assert(a =~= seq![a[0]] + a.drop_first());
            assert(b =~= seq![b[0]] + b.drop_first());
        }
        lemma_lex_total(a.drop_first(), b.drop_first());
    } else if a.len() > 0 && b.len() > 0 {
        if (a[0] as u32) == (b[0] as u32) {
            vstd::utf8::char_u32_cast(a[0], a[0] as u32);
            vstd::utf8::char_u32_cast(b[0], b[0] as u32);
        }
    } else if a.len() == 0 && b.len() == 0 {
        assert(a =~= b);
    }
}

/// The order is asymmetric.
pub proof fn lemma_lex_asymmetric(a: Seq<char>, b: Seq<char>)
    requires
        lex_lt(a, b),
    ensures
        !lex_lt(b, a),
{
    if lex_lt(b, a) {
        lemma_lex_transitive(a, b, a);
        lemma_lex_irreflexive(a);
    }
}

/// Compares `a` with `b`: whether `a` comes strictly before, and whether
/// they are equal.
pub fn lex_compare(a: &[char], b: &[char]) -> (r: (bool, bool))
    ensures
        r.0 == lex_lt(a@, b@),
        r.1 == (a@ == b@),
{
    let mut i: usize = 0;
    let na = a.len();
    let nb = b.len();
    assert(a@.skip(0) =~= a@);
    assert(b@.skip(0) =~= b@);
    while i < na && i < nb && a[i] == b[i]
        invariant
            na == a@.len(),
            nb == b@.len(),
            i <= na,
            i <= nb,
            a@.subrange(0, i as int) == b@.subrange(0, i as int),
            lex_lt(a@, b@) == lex_lt(a@.skip(i as int), b@.skip(i as int)),
            (a@ == b@) == (a@.skip(i as int) == b@.skip(i as int)),
        decreases na - i,
    {
        assert(a@.skip(i as int).drop_first() =~= a@.skip(i + 1));
        assert(b@.skip(i as int).drop_first() =~= b@.skip(i + 1));
        assert(a@.subrange(0, i + 1) =~= a@.subrange(0, i as int).push(a@[i as int]));
        assert(b@.subrange(0, i + 1) =~= b@.subrange(0, i as int).push(b@[i as int]));
        proof {
            let sa = a@.skip(i as int);
            let sb = b@.skip(i as int);
            if sa.drop_first() == sb.drop_first() {
                assert(sa =~= seq![sa[0]] + sa.drop_first());
                assert(sb =~= seq![sb[0]] + sb.drop_first());
            }
        }
        i = i + 1;
    }
    let sa = Ghost(a@.skip(i as int));
    let sb = Ghost(b@.skip(i as int));
    if i < na && i < nb {
        assert(sa@[0] != sb@[0]);
        assert(sa@ != sb@);
        ((a[i] as u32) < (b[i] as u32), false)
    } else if i == na && i < nb {
        assert(sa@.len() == 0 && sb@.len() > 0);
        (true, false)
    } else if i < na {
        assert(sb@.len() == 0 && sa@.len() > 0);
        (false, false)
    } else {
        assert(sa@ =~= sb@);
        (false, true)
    }
}

} // verus!

verus! {

// ---------------------------------------------------------------------------
// Paths
// ---------------------------------------------------------------------------

/// `dir` joined with `name` as `Path::join` does on Unix: an absolute
/// `name` replaces `dir`; otherwise a `'/'` goes between them unless `dir`
/// is empty or already ends in one.
pub open spec fn join_path(dir: Seq<char>, name: Seq<char>) -> Seq<char> {
    if name.len() > 0 && name[0] == '/' {
        name
    } else if dir.len() == 0 || dir.last() == '/' {
        dir + name
    } else {
        dir + seq!['/'] + name
    }
}

/// Exec counterpart of [`join_path`].
pub fn join_path_exec(dir: &str, name: &str) -> (p: String)
    ensures
        p@ == join_path(dir@, name@),
{
    let d = chars_of(dir);
    let n = chars_of(name);
    if n.len() > 0 && n[0] == '/' {
        return string_from(n.as_slice());
    }
    let mut p = string_from(d.as_slice());
    if d.len() > 0 && d[d.len() - 1] != '/' {
        push_char(&mut p, '/');
    }
    push_chars(&mut p, n.as_slice());
    p
}

} // verus!

verus! {

/// `s` ends with `suffix` (`str::ends_with`).
pub open spec fn ends_with(s: Seq<char>, suffix: Seq<char>) -> bool {
    s.len() >= suffix.len() && s.subrange(s.len() - suffix.len(), s.len() as int) == suffix
}

/// Exec counterpart of [`ends_with`].
pub fn ends_with_exec(s: &[char], suffix: &str) -> (b: bool)
    ensures
        b == ends_with(s@, suffix@),
{
    let p = chars_of(suffix);
    if s.len() < p.len() {
        return false;
    }
    let start = s.len() - p.len();
    let b = starts_with_at(s, start, s.len(), p.as_slice());
    assert(s@.subrange(start as int, s@.len() as int).take(p@.len() as int) =~= s@.subrange(
        start as int,
        s@.len() as int,
    ));
    b
}

} // verus!
