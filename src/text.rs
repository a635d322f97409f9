use vstd::prelude::*;

verus! {

/// An ASCII decimal digit.
pub open spec fn is_digit(c: char) -> bool {
    '0' <= c && c <= '9'
}

/// The value of a digit character.
pub open spec fn digit_value(c: char) -> int {
    (c as int) - ('0' as int)
}

/// Every character is a digit.
pub open spec fn all_digits(s: Seq<char>) -> bool {
    forall|i: int| 0 <= i < s.len() ==> is_digit(#[trigger] s[i])
}

/// The number that a run of digits denotes, most significant first.
pub open spec fn digits_value(s: Seq<char>) -> int
    decreases s.len(),
{
    if s.len() == 0 {
        0
    } else {
        digits_value(s.drop_last()) * 10 + digit_value(s.last())
    }
}

/// The value of a non-empty run of decimal digits; `None` for anything else.
pub open spec fn spec_digits(s: Seq<char>) -> Option<int> {
    if s.len() > 0 && all_digits(s) {
        Some(digits_value(s))
    } else {
        None
    }
}

/// The value of an unsigned decimal number as Rust's integer parsing reads
/// it: an optional '+' sign, then a non-empty run of digits.
pub open spec fn spec_decimal(s: Seq<char>) -> Option<int> {
    if s.len() > 0 && s[0] == '+' {
        spec_digits(s.drop_first())
    } else {
        spec_digits(s)
    }
}

/// Whitespace as `char::is_whitespace` knows it: the characters with the
/// Unicode property White_Space.
pub open spec fn is_space(c: char) -> bool {
    ||| ('\u{9}' <= c && c <= '\u{D}')
    ||| c == ' '
    ||| c == '\u{85}'
    ||| c == '\u{A0}'
    ||| c == '\u{1680}'
    ||| ('\u{2000}' <= c && c <= '\u{200A}')
    ||| c == '\u{2028}'
    ||| c == '\u{2029}'
    ||| c == '\u{202F}'
    ||| c == '\u{205F}'
    ||| c == '\u{3000}'
}

/// Tells whether `c` is whitespace.
pub fn is_space_char(c: char) -> (r: bool)
    ensures
        r == is_space(c),
{
    ('\u{9}' <= c && c <= '\u{D}') || c == ' ' || c == '\u{85}' || c == '\u{A0}' || c
        == '\u{1680}' || ('\u{2000}' <= c && c <= '\u{200A}') || c == '\u{2028}' || c
        == '\u{2029}' || c == '\u{202F}' || c == '\u{205F}' || c == '\u{3000}'
}

/// The line, once surrounding whitespace is trimmed, is exactly ".".
pub open spec fn is_dot_line(l: Seq<char>) -> bool {
    exists|i: int|
        0 <= i < l.len() && l[i] == '.' && (forall|j: int|
            0 <= j < l.len() && j != i ==> is_space(#[trigger] l[j]))
}

proof fn lemma_digits_value_nonneg(s: Seq<char>)
    requires
        all_digits(s),
    ensures
        digits_value(s) >= 0,
    decreases s.len(),
{
    if s.len() > 0 {
        lemma_digits_value_nonneg(s.drop_last());
    }
}

/// A longer run of digits never has a smaller value than its prefix.
proof fn lemma_digits_value_prefix(s: Seq<char>, i: int)
    requires
        all_digits(s),
        0 <= i <= s.len(),
    ensures
        digits_value(s.subrange(0, i)) <= digits_value(s),
    decreases s.len() - i,
{
    if i < s.len() {
        lemma_digits_value_prefix(s, i + 1);
        let p = s.subrange(0, i + 1);
        assert(p.drop_last() =~= s.subrange(0, i));
        lemma_digits_value_nonneg(s.subrange(0, i));
    } else {
        assert(s.subrange(0, i) =~= s);
    }
}

/// Reads an unsigned decimal number, with an optional '+' sign, as a
/// `usize`; `None` when the text holds anything else or the value does not
/// fit.
pub fn parse_decimal(s: &str) -> (r: Option<usize>)
    ensures
        r == (match spec_decimal(s@) {
            Some(v) => if v <= usize::MAX { Some(v as usize) } else { None },
            None => None,
        }),
        r matches Some(v) ==> spec_decimal(s@) == Some(v as int),
{
    let n = s.unicode_len();
    if n > 0 && s.get_char(0) == '+' {
        let digits = s.substring_char(1, n);
        assert(digits@ =~= s@.drop_first());
        parse_digits(digits)
    } else {
        parse_digits(s)
    }
}

/// Reads a non-empty run of ASCII digits as a `usize`; `None` when the text
/// holds anything else or the value does not fit.
pub fn parse_digits(s: &str) -> (r: Option<usize>)
    ensures
        r == (match spec_digits(s@) {
            Some(v) => if v <= usize::MAX { Some(v as usize) } else { None },
            None => None,
        }),
        r matches Some(v) ==> spec_digits(s@) == Some(v as int),
{
    let n = s.unicode_len();
    if n == 0 {
        return None;
    }
    let mut value: usize = 0;
    let mut i: usize = 0;
    while i < n
        invariant
            n == s@.len(),
            0 <= i <= n,
            all_digits(s@.subrange(0, i as int)),
            value as int == digits_value(s@.subrange(0, i as int)),
        decreases n - i,
    {
        let c = s.get_char(i);
        assert(s@.subrange(0, i + 1).drop_last() =~= s@.subrange(0, i as int));
        if !('0' <= c && c <= '9') {
            assert(!all_digits(s@));
            return None;
        }
        let d = (c as u32 - '0' as u32) as usize;
        if value > (usize::MAX - d) / 10 {
            proof {
                assert forall|k: int| 0 <= k < i + 1 implies is_digit(
                    #[trigger] s@.subrange(0, i + 1)[k],
                ) by {
                    if k < i {
                        assert(s@.subrange(0, i + 1)[k] == s@.subrange(0, i as int)[k]);
                    }
                }
                if all_digits(s@) {
                    lemma_digits_value_prefix(s@, i + 1);
                }
                assert(digits_value(s@.subrange(0, i + 1)) > usize::MAX) by (nonlinear_arith)
                    requires
                        digits_value(s@.subrange(0, i + 1)) == value * 10 + d,
                        value > (usize::MAX - d) / 10,
                        d <= 9,
                ;
            }
            return None;
        }
        assert(value * 10 + d <= usize::MAX) by (nonlinear_arith)
            requires
                value <= (usize::MAX - d) / 10,
                d <= 9,
        ;
        value = value * 10 + d;
        i = i + 1;
        assert forall|k: int| 0 <= k < i implies is_digit(#[trigger] s@.subrange(0, i as int)[k]) by {
            if k < i - 1 {
                assert(s@.subrange(0, i as int)[k] == s@.subrange(0, i - 1)[k]);
            }
        }
    }
    assert(s@.subrange(0, n as int) =~= s@);
    Some(value)
}

/// Tells whether a line, trimmed of surrounding whitespace, is exactly ".".
pub fn is_terminator(line: &str) -> (r: bool)
    ensures
        r == is_dot_line(line@),
{
    let n = line.unicode_len();
    let mut dot: Option<usize> = None;
    let mut i: usize = 0;
    while i < n
        invariant
            n == line@.len(),
            0 <= i <= n,
            match dot {
                Some(d) => d < i && line@[d as int] == '.' && (forall|j: int|
                    0 <= j < i && j != d ==> is_space(#[trigger] line@[j])),
                None => forall|j: int| 0 <= j < i ==> is_space(#[trigger] line@[j]),
            },
        decreases n - i,
    {
        let c = line.get_char(i);
        if c == '.' && dot.is_none() {
            dot = Some(i);
        } else if !is_space_char(c) {
            proof {
                assert forall|k: int|
                    0 <= k < line@.len() && line@[k] == '.' implies exists|j: int|
                    0 <= j < line@.len() && j != k && !is_space(#[trigger] line@[j]) by {
                    if k == i {
                        let d = dot.unwrap();
                        assert(!is_space(line@[d as int]));
                    } else {
                        assert(!is_space(line@[i as int]));
                    }
                }
            }
            return false;
        }
        i = i + 1;
    }
    match dot {
        Some(d) => {
            assert(line@[d as int] == '.');
            true
        },
        None => {
            proof {
                assert forall|k: int| 0 <= k < line@.len() implies line@[k] != '.' by {
                    assert(is_space(line@[k]));
                }
            }
            false
        },
    }
}

} // verus!

verus! {

/// The index of the first whitespace character at or after `k`, or the
/// length of `s` when there is none.
pub open spec fn word_end_from(s: Seq<char>, k: int) -> int
    decreases s.len() - k,
{
    if k >= s.len() {
        s.len() as int
    } else if is_space(s[k]) {
        k
    } else {
        word_end_from(s, k + 1)
    }
}

/// The index of the first `c` at or after `k`, or the length of `s`.
pub open spec fn find_from(s: Seq<char>, c: char, k: int) -> int
    decreases s.len() - k,
{
    if k >= s.len() {
        s.len() as int
    } else if s[k] == c {
        k
    } else {
        find_from(s, c, k + 1)
    }
}

/// The index of the first character at or after `k` that is not
/// whitespace, or the length of `s`.
pub open spec fn word_start_from(s: Seq<char>, k: int) -> int
    decreases s.len() - k,
{
    if k >= s.len() {
        s.len() as int
    } else if !is_space(s[k]) {
        k
    } else {
        word_start_from(s, k + 1)
    }
}

/// The first whitespace-delimited word of `s`: leading whitespace is
/// skipped, and the word runs up to the next whitespace character.
pub open spec fn first_word(s: Seq<char>) -> Seq<char> {
    let a = word_start_from(s, 0);
    s.subrange(a, word_end_from(s, a))
}

pub proof fn lemma_find_bounds(s: Seq<char>, c: char, k: int)
    requires
        0 <= k <= s.len(),
    ensures
        k <= find_from(s, c, k) <= s.len(),
        find_from(s, c, k) < s.len() ==> s[find_from(s, c, k)] == c,
    decreases s.len() - k,
{
    if k < s.len() && s[k] != c {
        lemma_find_bounds(s, c, k + 1);
    }
}

/// The index of the first character of `s` at or after `start` that is
/// not whitespace (`want_space` false), or that is (`want_space` true); the
/// length of `s` when there is none.
fn scan_from(s: &str, start: usize, want_space: bool) -> (r: usize)
    requires
        start <= s@.len(),
    ensures
        start <= r <= s@.len(),
        want_space ==> r as int == word_end_from(s@, start as int),
        !want_space ==> r as int == word_start_from(s@, start as int),
{
    let n = s.unicode_len();
    let mut i: usize = start;
    while i < n
        invariant
            n == s@.len(),
            start <= i <= n,
            want_space ==> word_end_from(s@, start as int) == word_end_from(s@, i as int),
            !want_space ==> word_start_from(s@, start as int) == word_start_from(s@, i as int),
        decreases n - i,
    {
        if is_space_char(s.get_char(i)) == want_space {
            return i;
        }
        i = i + 1;
    }
    i
}

/// The index of the first `c` in `s`, or its length.
pub fn find_char(s: &str, c: char) -> (r: usize)
    ensures
        r as int == find_from(s@, c, 0),
        r <= s@.len(),
        r < s@.len() ==> s@[r as int] == c,
{
    proof {
        lemma_find_bounds(s@, c, 0);
    }
    let n = s.unicode_len();
    let mut i: usize = 0;
    while i < n
        invariant
            n == s@.len(),
            0 <= i <= n,
            find_from(s@, c, 0) == find_from(s@, c, i as int),
        decreases n - i,
    {
        if s.get_char(i) == c {
            return i;
        }
        i = i + 1;
    }
    i
}

/// The first whitespace-delimited word of `s`, leading whitespace skipped.
pub fn first_word_of(s: &str) -> (r: &str)
    ensures
        r@ == first_word(s@),
{
    let a = scan_from(s, 0, false);
    let b = scan_from(s, a, true);
    s.substring_char(a, b)
}

} // verus!
