//! Text as a sequence of characters: trimming, splitting, searching, numbers.
//!
//! The executable functions work on slices of characters, so that a position
//! is an index; `to_chars` and `from_chars` go from and to strings.

use vstd::prelude::*;
use vstd::slice::slice_subrange;

verus! {

/// `String::push` appends one character.
pub assume_specification[ String::push ](s: &mut String, c: char)
    ensures
        final(s)@ == old(s)@.push(c),
;

/// The characters with the Unicode property `White_Space`.
pub open spec fn is_white_space(c: char) -> bool {
    let n = c as int;
    ||| 0x9 <= n <= 0xd
    ||| n == 0x20
    ||| n == 0x85
    ||| n == 0xa0
    ||| n == 0x1680
    ||| 0x2000 <= n <= 0x200a
    ||| n == 0x2028
    ||| n == 0x2029
    ||| n == 0x202f
    ||| n == 0x205f
    ||| n == 0x3000
}

/// `s` without the white space at its start.
pub open spec fn trim_start(s: Seq<char>) -> Seq<char>
    decreases s.len(),
{
    if s.len() > 0 && is_white_space(s[0]) {
        trim_start(s.skip(1))
    } else {
        s
    }
}

/// `s` without the white space at its end.
pub open spec fn trim_end(s: Seq<char>) -> Seq<char>
    decreases s.len(),
{
    if s.len() > 0 && is_white_space(s.last()) {
        trim_end(s.drop_last())
    } else {
        s
    }
}

/// `s` without the white space at both ends.
pub open spec fn trim(s: Seq<char>) -> Seq<char> {
    trim_end(trim_start(s))
}

/// What trimming leaves neither starts nor ends in white space.
pub proof fn lemma_trim_ends(s: Seq<char>)
    ensures
        trim(s).len() > 0 ==> !is_white_space(trim(s)[0]) && !is_white_space(trim(s).last()),
{
    lemma_trim_start_starts(s);
    lemma_trim_end_ends(trim_start(s));
    lemma_trim_end_is_prefix(trim_start(s));
}

proof fn lemma_trim_start_starts(s: Seq<char>)
    ensures
        trim_start(s).len() > 0 ==> !is_white_space(trim_start(s)[0]),
    decreases s.len(),
{
    if s.len() > 0 && is_white_space(s[0]) {
        lemma_trim_start_starts(s.skip(1));
    }
}

proof fn lemma_trim_end_ends(s: Seq<char>)
    ensures
        trim_end(s).len() > 0 ==> !is_white_space(trim_end(s).last()),
    decreases s.len(),
{
    if s.len() > 0 && is_white_space(s.last()) {
        lemma_trim_end_ends(s.drop_last());
    }
}

/// Trimming shortens what ends in white space, and keeps a start that is none.
pub proof fn lemma_trim_of_visible_start(s: Seq<char>)
    requires
        s.len() > 0,
        !is_white_space(s[0]),
    ensures
        trim(s).len() > 0,
        trim(s)[0] == s[0],
        trim(s) == s <==> !is_white_space(s.last()),
        is_white_space(s.last()) ==> trim(s).len() < s.len(),
{
    lemma_trim_end_is_prefix(s);
    if is_white_space(s.last()) {
        lemma_trim_end_is_prefix(s.drop_last());
    }
}

proof fn lemma_trim_end_is_prefix(s: Seq<char>)
    ensures
        trim_end(s).len() <= s.len(),
        trim_end(s) == s.take(trim_end(s).len() as int),
        s.len() > 0 && !is_white_space(s[0]) ==> trim_end(s).len() > 0,
    decreases s.len(),
{
    if s.len() > 0 && is_white_space(s.last()) {
        let t = s.drop_last();
        lemma_trim_end_is_prefix(t);
        assert(t.take(trim_end(t).len() as int) =~= s.take(trim_end(t).len() as int));
        if !is_white_space(s[0]) {
            assert(t[0] == s[0]);
        }
    } else {
        assert(s.take(s.len() as int) =~= s);
    }
}

/// Tests for white space.
pub fn is_space(c: char) -> (r: bool)
    ensures
        r == is_white_space(c),
{
    let n: u32 = c as u32;
    (0x9 <= n && n <= 0xd) || n == 0x20 || n == 0x85 || n == 0xa0 || n == 0x1680 || (0x2000 <= n
        && n <= 0x200a) || n == 0x2028 || n == 0x2029 || n == 0x202f || n == 0x205f || n == 0x3000
}

/// The characters of a string.
pub fn to_chars(s: &str) -> (r: Vec<char>)
    ensures
        r@ == s@,
{
    let mut r: Vec<char> = Vec::new();
    for c in it: s.chars()
        invariant
            r@ == s@.take(it.index() as int),
            it.seq() == s@,
    {
        r.push(c);
        assert(r@ =~= s@.take(it.index() + 1));
    }
    assert(s@.take(s@.len() as int) =~= s@);
    r
}

/// The string made of the characters.
pub fn from_chars(cs: &[char]) -> (r: String)
    ensures
        r@ == cs@,
{
    let mut r = String::new();
    let mut i: usize = 0;
    while i < cs.len()
        invariant
            i <= cs.len(),
            r@ == cs@.take(i as int),
        decreases cs.len() - i,
    {
        r.push(cs[i]);
        i += 1;
        assert(cs@.take(i as int) =~= cs@.take(i - 1).push(cs@[i - 1]));
    }
    assert(cs@.take(i as int) =~= cs@);
    r
}

/// Removes the white space at both ends.
pub fn trim_chars(cs: &[char]) -> (r: &[char])
    ensures
        r@ == trim(cs@),
{
    let mut a: usize = 0;
    assert(cs@.skip(0) =~= cs@);
    while a < cs.len() && is_space(cs[a])
        invariant
            a <= cs.len(),
            trim_start(cs@) == trim_start(cs@.skip(a as int)),
        decreases cs.len() - a,
    {
        assert(cs@.skip(a as int).skip(1) =~= cs@.skip(a + 1));
        a += 1;
    }
    let mut b: usize = cs.len();
    let ghost start = cs@.skip(a as int);
    assert(cs@.subrange(a as int, b as int) =~= start);
    while b > a && is_space(cs[b - 1])
        invariant
            a <= b <= cs.len(),
            trim_end(start) == trim_end(cs@.subrange(a as int, b as int)),
        decreases b - a,
    {
        assert(cs@.subrange(a as int, b as int).drop_last() =~= cs@.subrange(a as int, b - 1));
        b -= 1;
    }
    slice_subrange(cs, a, b)
}

/// Whether `needle` occurs in `s`.
pub open spec fn has_text(s: Seq<char>, needle: Seq<char>) -> bool {
    exists|i: int|
        0 <= i && i + needle.len() <= s.len() && #[trigger] s.subrange(i, i + needle.len())
            == needle
}

/// Compares the characters from position `at` on with a string.
fn matches_at(cs: &[char], at: usize, text: &[char]) -> (r: bool)
    requires
        at + text.len() <= cs.len(),
    ensures
        r == (cs@.subrange(at as int, at + text.len()) == text@),
{
    let mut i: usize = 0;
    while i < text.len()
        invariant
            i <= text.len(),
            at + text.len() <= cs.len(),
            forall|j: int| 0 <= j < i ==> cs@[at + j] == text@[j],
        decreases text.len() - i,
    {
        if cs[at + i] != text[i] {
            assert(cs@.subrange(at as int, at + text.len())[i as int] != text@[i as int]);
            return false;
        }
        i += 1;
    }
    assert(cs@.subrange(at as int, at + text.len()) =~= text@);
    true
}

/// Whether the characters are those of the string.
pub fn same_text(cs: &[char], text: &str) -> (r: bool)
    ensures
        r == (cs@ == text@),
{
    let t = to_chars(text);
    if t.len() != cs.len() {
        return false;
    }
    assert(cs@.subrange(0, cs@.len() as int) =~= cs@);
    matches_at(cs, 0, &t)
}

/// Whether the characters start with the string.
pub fn starts_with(cs: &[char], prefix: &str) -> (r: bool)
    ensures
        r == prefix@.is_prefix_of(cs@),
{
    let t = to_chars(prefix);
    t.len() <= cs.len() && matches_at(cs, 0, &t)
}

/// Whether the characters end with the string.
pub fn ends_with(cs: &[char], suffix: &str) -> (r: bool)
    ensures
        r == suffix@.is_suffix_of(cs@),
{
    let t = to_chars(suffix);
    t.len() <= cs.len() && matches_at(cs, cs.len() - t.len(), &t)
}

/// Whether the string occurs among the characters.
pub fn contains_text(cs: &[char], needle: &str) -> (r: bool)
    ensures
        r == has_text(cs@, needle@),
{
    let t = to_chars(needle);
    if t.len() > cs.len() {
        return false;
    }
    let last: usize = cs.len() - t.len();
    let mut i: usize = 0;
    while i <= last
        invariant
            t@ == needle@,
            last == cs.len() - t.len(),
            i <= last + 1,
            forall|j: int|
                0 <= j < i ==> #[trigger] cs@.subrange(j, j + needle@.len()) != needle@,
        decreases last + 1 - i,
    {
        if matches_at(cs, i, &t) {
            return true;
        }
        if i == last {
            return false;
        }
        i += 1;
    }
    false
}

/// What stands before and after the first `c` in `s`.
pub open spec fn split_once(s: Seq<char>, c: char) -> Option<(Seq<char>, Seq<char>)>
    decreases s.len(),
{
    if s.len() == 0 {
        None
    } else if s[0] == c {
        Some((Seq::empty(), s.skip(1)))
    } else {
        match split_once(s.skip(1), c) {
            Some((before, after)) => Some((seq![s[0]] + before, after)),
            None => None,
        }
    }
}

/// At most `n` pieces of `s`, cut at the first `n - 1` occurrences of `c`.
pub open spec fn splitn(s: Seq<char>, n: nat, c: char) -> Seq<Seq<char>>
    decreases n,
{
    if n == 0 {
        Seq::empty()
    } else if n == 1 {
        seq![s]
    } else {
        match split_once(s, c) {
            Some((before, after)) => seq![before] + splitn(after, (n - 1) as nat, c),
            None => seq![s],
        }
    }
}

/// A sequence is split at the first separator.
pub proof fn lemma_split_once_at(s: Seq<char>, c: char, i: int)
    requires
        0 <= i < s.len(),
        s[i] == c,
        forall|j: int| 0 <= j < i ==> s[j] != c,
    ensures
        split_once(s, c) == Some((s.take(i), s.skip(i + 1))),
    decreases i,
{
    if i == 0 {
        assert(s.take(0) =~= Seq::empty());
    } else {
        let rest = s.skip(1);
        lemma_split_once_at(rest, c, i - 1);
        assert(seq![s[0]] + rest.take(i - 1) =~= s.take(i));
        assert(rest.skip(i) =~= s.skip(i + 1));
    }
}

/// A sequence without the separator is not split.
pub proof fn lemma_split_once_none(s: Seq<char>, c: char)
    requires
        !s.contains(c),
    ensures
        split_once(s, c) is None,
    decreases s.len(),
{
    if s.len() > 0 {
        assert(s.contains(s[0]));
        let rest = s.skip(1);
        assert forall|x: char| rest.contains(x) implies s.contains(x) by {
            let i = choose|i: int| 0 <= i < rest.len() && rest[i] == x;
            assert(s[i + 1] == x);
        }
        lemma_split_once_none(rest, c);
    }
}

/// Splitting undoes joining two pieces with a separator that is not in the first.
pub proof fn lemma_split_once_joined(before: Seq<char>, after: Seq<char>, c: char)
    requires
        !before.contains(c),
    ensures
        split_once(before + seq![c] + after, c) == Some((before, after)),
{
    let s = before + seq![c] + after;
    let i = before.len() as int;
    assert forall|j: int| 0 <= j < i implies s[j] != c by {
        assert(before.contains(before[j]));
    }
    lemma_split_once_at(s, c, i);
    assert(s.take(i) =~= before);
    assert(s.skip(i + 1) =~= after);
}

/// What comes before the first separator does not hold it.
pub proof fn lemma_split_once_before(s: Seq<char>, c: char)
    ensures
        match split_once(s, c) {
            Some((before, after)) => !before.contains(c) && s == before + seq![c] + after,
            None => !s.contains(c),
        },
    decreases s.len(),
{
    if s.len() == 0 {
    } else if s[0] == c {
        assert(s =~= Seq::empty() + seq![c] + s.skip(1));
    } else {
        let rest = s.skip(1);
        lemma_split_once_before(rest, c);
        match split_once(rest, c) {
            Some((before, after)) => {
                let whole = seq![s[0]] + before;
                assert forall|i: int| 0 <= i < whole.len() implies whole[i] != c by {
                    if i > 0 {
                        assert(before.contains(before[i - 1]));
                    }
                }
                assert(s =~= seq![s[0]] + rest);
                assert(s =~= whole + seq![c] + after);
            },
            None => {
                assert forall|i: int| 0 <= i < s.len() implies s[i] != c by {
                    if i > 0 {
                        assert(rest.contains(rest[i - 1]));
                    }
                }
            },
        }
    }
}

/// `s` without a carriage return at its end.
pub open spec fn strip_return(s: Seq<char>) -> Seq<char> {
    if s.len() > 0 && s.last() == '\r' {
        s.drop_last()
    } else {
        s
    }
}

/// The lines of a text: what a line end, or a carriage return and a line end,
/// follows, and what stands after the last line end, if anything does. So
/// `BufRead::lines` gives them.
pub open spec fn text_lines(s: Seq<char>) -> Seq<Seq<char>>
    decreases s.len(),
{
    if s.len() == 0 {
        Seq::empty()
    } else {
        match split_once(s, '\n') {
            Some((line, rest)) => {
                proof {
                    lemma_split_once_before(s, '\n');
                }
                seq![strip_return(line)] + text_lines(rest)
            },
            None => seq![s],
        }
    }
}

/// Whether a text has no line that is not ended.
pub open spec fn is_ended(s: Seq<char>) -> bool {
    s.len() == 0 || s.last() == '\n'
}

/// A line that is appended to a text is its last line.
pub proof fn lemma_append_line(s: Seq<char>, line: Seq<char>)
    requires
        is_ended(s),
        !line.contains('\n'),
    ensures
        text_lines(s + line + seq!['\n']) == text_lines(s).push(strip_return(line)),
    decreases s.len(),
{
    let more = line + seq!['\n'];
    let all = s + line + seq!['\n'];
    if s.len() == 0 {
        assert(all =~= line + seq!['\n'] + Seq::empty());
        lemma_split_once_joined(line, Seq::empty(), '\n');
        assert(text_lines(Seq::empty()) =~= Seq::empty());
        assert(text_lines(all) =~= text_lines(s).push(strip_return(line)));
    } else {
        lemma_split_once_before(s, '\n');
        assert(s.contains(s[s.len() - 1]));
        let (first, rest) = split_once(s, '\n')->0;
        if rest.len() > 0 {
            assert(rest.last() == s.last());
        }
        lemma_append_line(rest, line);
        assert(all =~= first + seq!['\n'] + (rest + line + seq!['\n']));
        lemma_split_once_joined(first, rest + line + seq!['\n'], '\n');
        assert(text_lines(all) =~= text_lines(s).push(strip_return(line)));
    }
}

/// A text with a line end before its last one has more than one line.
pub proof fn lemma_more_than_one_line(s: Seq<char>)
    requires
        s.contains('\n'),
    ensures
        text_lines(s + seq!['\n']).len() > 1,
{
    let all = s + seq!['\n'];
    lemma_split_once_before(s, '\n');
    let (first, rest) = split_once(s, '\n')->0;
    assert(all =~= first + seq!['\n'] + (rest + seq!['\n']));
    lemma_split_once_joined(first, rest + seq!['\n'], '\n');
    assert(text_lines(rest + seq!['\n']).len() > 0);
}

/// The first piece of a joined text is split off.
pub proof fn lemma_splitn_joined(before: Seq<char>, after: Seq<char>, n: nat, c: char)
    requires
        n >= 2,
        !before.contains(c),
    ensures
        splitn(before + seq![c] + after, n, c) == seq![before] + splitn(after, (n - 1) as nat, c),
{
    lemma_split_once_joined(before, after, c);
}

/// A text without the separator is one piece.
pub proof fn lemma_splitn_whole(s: Seq<char>, n: nat, c: char)
    requires
        n >= 1,
        n == 1 || !s.contains(c),
    ensures
        splitn(s, n, c) == seq![s],
{
    if n > 1 {
        lemma_split_once_none(s, c);
    }
}

/// Splits at the first separator.
pub fn split_once_chars(cs: &[char], c: char) -> (r: Option<(&[char], &[char])>)
    ensures
        match r {
            Some((before, after)) => split_once(cs@, c) == Some((before@, after@)),
            None => split_once(cs@, c) is None,
        },
{
    let mut i: usize = 0;
    while i < cs.len()
        invariant
            i <= cs.len(),
            forall|j: int| 0 <= j < i ==> cs@[j] != c,
        decreases cs.len() - i,
    {
        if cs[i] == c {
            proof {
                lemma_split_once_at(cs@, c, i as int);
                assert(cs@.take(i as int) =~= cs@.subrange(0, i as int));
                assert(cs@.skip(i + 1) =~= cs@.subrange(i + 1, cs@.len() as int));
            }
            return Some((slice_subrange(cs, 0, i), slice_subrange(cs, i + 1, cs.len())));
        }
        i += 1;
    }
    proof {
        lemma_split_once_none(cs@, c);
    }
    None
}

/// The views of a list of pieces.
pub open spec fn pieces(v: Seq<&[char]>) -> Seq<Seq<char>> {
    v.map_values(|p: &[char]| p@)
}

/// Splits into at most `n` pieces.
pub fn splitn_chars(cs: &[char], n: usize, c: char) -> (r: Vec<&[char]>)
    requires
        n > 0,
    ensures
        pieces(r@) == splitn(cs@, n as nat, c),
{
    let mut parts: Vec<&[char]> = Vec::new();
    let mut rest: &[char] = cs;
    let mut left: usize = n;
    assert(pieces(parts@) =~= Seq::empty());
    assert(pieces(parts@) + splitn(cs@, n as nat, c) =~= splitn(cs@, n as nat, c));
    while left > 1
        invariant
            1 <= left <= n,
            pieces(parts@) + splitn(rest@, left as nat, c) == splitn(cs@, n as nat, c),
        decreases left,
    {
        match split_once_chars(rest, c) {
            Some((before, after)) => {
                let ghost done = pieces(parts@);
                parts.push(before);
                rest = after;
                left -= 1;
                assert(pieces(parts@) =~= done + seq![before@]);
                assert(pieces(parts@) + splitn(rest@, left as nat, c) =~= done + (seq![before@]
                    + splitn(rest@, left as nat, c)));
            },
            None => {
                let ghost done = pieces(parts@);
                parts.push(rest);
                assert(pieces(parts@) =~= done + seq![rest@]);
                return parts;
            },
        }
    }
    let ghost done = pieces(parts@);
    parts.push(rest);
    assert(pieces(parts@) =~= done + seq![rest@]);
    parts
}

/// Whether `c` is one of `0` to `9`.
pub open spec fn is_digit(c: char) -> bool {
    '0' <= c <= '9'
}

/// The number that a sequence of digits denotes.
pub open spec fn digits_value(s: Seq<char>) -> nat
    decreases s.len(),
{
    if s.len() == 0 {
        0
    } else {
        digits_value(s.drop_last()) * 10 + (s.last() as int - '0' as int) as nat
    }
}

/// Whether every character is a digit.
pub open spec fn all_digits(s: Seq<char>) -> bool {
    forall|i: int| 0 <= i < s.len() ==> is_digit(#[trigger] s[i])
}

/// The `usize` that `s` spells: digits, after a `+` or without one.
pub open spec fn parse_usize(s: Seq<char>) -> Option<usize> {
    let digits = if s.len() > 0 && s[0] == '+' {
        s.skip(1)
    } else {
        s
    };
    if digits.len() > 0 && all_digits(digits) && digits_value(digits) <= usize::MAX {
        Some(digits_value(digits) as usize)
    } else {
        None
    }
}

/// A longer run of digits denotes no smaller number.
proof fn lemma_digits_value_grows(s: Seq<char>, i: int)
    requires
        0 <= i <= s.len(),
        all_digits(s),
    ensures
        digits_value(s.take(i)) <= digits_value(s),
    decreases s.len() - i,
{
    if i < s.len() {
        assert(is_digit(s[i]));
        assert(s.take(i + 1).drop_last() =~= s.take(i));
        lemma_digits_value_grows(s, i + 1);
    } else {
        assert(s.take(i) =~= s);
    }
}

/// Reads a `usize` in decimal notation.
pub fn parse_usize_chars(cs: &[char]) -> (r: Option<usize>)
    ensures
        r == parse_usize(cs@),
{
    let start: usize = if cs.len() > 0 && cs[0] == '+' {
        1
    } else {
        0
    };
    let ghost digits = if cs@.len() > 0 && cs@[0] == '+' {
        cs@.skip(1)
    } else {
        cs@
    };
    assert(digits =~= cs@.skip(start as int));
    if start == cs.len() {
        return None;
    }
    let mut value: usize = 0;
    let mut i: usize = start;
    while i < cs.len()
        invariant
            start <= i <= cs.len(),
            digits == cs@.skip(start as int),
            forall|j: int| 0 <= j < i - start ==> is_digit(#[trigger] digits[j]),
            value == digits_value(digits.take(i - start)),
            parse_usize(cs@) is Some ==> all_digits(digits) && digits_value(digits) <= usize::MAX,
        decreases cs.len() - i,
    {
        let c = cs[i];
        assert(digits[i - start] == c);
        assert(digits.take(i - start + 1).drop_last() =~= digits.take(i - start));
        if !('0' <= c && c <= '9') {
            return None;
        }
        let digit: usize = (c as u32 - '0' as u32) as usize;
        let next = value.checked_mul(10);
        let sum = match next {
            Some(tens) => tens.checked_add(digit),
            None => None,
        };
        match sum {
            Some(total) => {
                value = total;
            },
            None => {
                proof {
                    if all_digits(digits) {
                        lemma_digits_value_grows(digits, i - start + 1);
                    }
                }
                return None;
            },
        }
        i += 1;
    }
    assert(digits.take(i - start) =~= digits);
    Some(value)
}

/// The character of a digit below ten.
pub open spec fn digit_char(d: nat) -> char {
    (d + 48) as char
}

/// `n` in decimal notation.
pub open spec fn decimal(n: nat) -> Seq<char>
    decreases n,
{
    if n < 10 {
        seq![digit_char(n)]
    } else {
        decimal(n / 10).push(digit_char(n % 10))
    }
}

/// Writes a number in decimal notation.
pub fn decimal_chars(n: usize) -> (r: Vec<char>)
    ensures
        r@ == decimal(n as nat),
    decreases n,
{
    if n < 10 {
        let c: char = (n as u8 + 48) as char;
        let mut r: Vec<char> = Vec::new();
        r.push(c);
        r
    } else {
        let mut r = decimal_chars(n / 10);
        let c: char = ((n % 10) as u8 + 48) as char;
        r.push(c);
        r
    }
}

/// Decimal notation is made of digits, and denotes the number.
pub proof fn lemma_decimal(n: nat)
    ensures
        decimal(n).len() > 0,
        all_digits(decimal(n)),
        digits_value(decimal(n)) == n,
    decreases n,
{
    if n < 10 {
        assert(decimal(n).drop_last() =~= Seq::empty());
        assert(digits_value(decimal(n).drop_last()) == 0);
    } else {
        lemma_decimal(n / 10);
        assert(decimal(n).drop_last() =~= decimal(n / 10));
    }
}

/// Reading what was written gives the number back.
pub proof fn law_decimal_roundtrip(n: usize)
    ensures
        parse_usize(decimal(n as nat)) == Some(n),
{
    let s = decimal(n as nat);
    lemma_decimal(n as nat);
    assert(is_digit(s[0]));
}

/// The lower case of an ASCII letter; any other character is kept.
pub open spec fn ascii_lower(c: char) -> char {
    if 'A' <= c <= 'Z' {
        (c as int + 32) as char
    } else {
        c
    }
}

/// `s` with its ASCII letters in lower case.
pub open spec fn ascii_lowercase(s: Seq<char>) -> Seq<char> {
    s.map_values(|c: char| ascii_lower(c))
}

/// Puts an ASCII letter into lower case.
pub fn to_ascii_lower(c: char) -> (r: char)
    ensures
        r == ascii_lower(c),
{
    if 'A' <= c && c <= 'Z' {
        (c as u8 + 32) as char
    } else {
        c
    }
}

/// What `str::to_lowercase` returns: the text in lower case, by Unicode's mapping.
pub uninterp spec fn lowercase(s: Seq<char>) -> Seq<char>;

/// `str::to_lowercase`: the result depends on the text alone.
#[verifier::external_body]
pub(crate) fn to_lowercase(s: &str) -> (r: String)
    ensures
        r@ == lowercase(s@),
{
    s.to_lowercase()
}

/// Whether every character is white space.
pub open spec fn is_blank(s: Seq<char>) -> bool {
    forall|i: int| 0 <= i < s.len() ==> is_white_space(#[trigger] s[i])
}

proof fn lemma_trim_start_of(a: Seq<char>, t: Seq<char>)
    requires
        is_blank(a),
        t.len() > 0 ==> !is_white_space(t[0]),
    ensures
        trim_start(a + t) == t,
    decreases a.len(),
{
    let s = a + t;
    if a.len() == 0 {
        assert(s =~= t);
    } else {
        let rest = a.skip(1);
        assert forall|i: int| 0 <= i < rest.len() implies is_white_space(#[trigger] rest[i]) by {
            assert(rest[i] == a[i + 1]);
        }
        lemma_trim_start_of(rest, t);
        assert(s.skip(1) =~= rest + t);
        assert(s[0] == a[0]);
    }
}

proof fn lemma_trim_end_of(t: Seq<char>, b: Seq<char>)
    requires
        is_blank(b),
        t.len() > 0 ==> !is_white_space(t.last()),
    ensures
        trim_end(t + b) == t,
    decreases b.len(),
{
    let s = t + b;
    if b.len() == 0 {
        assert(s =~= t);
    } else {
        let rest = b.drop_last();
        assert forall|i: int| 0 <= i < rest.len() implies is_white_space(#[trigger] rest[i]) by {
            assert(rest[i] == b[i]);
        }
        lemma_trim_end_of(t, rest);
        assert(s.drop_last() =~= t + rest);
        assert(s.last() == b[b.len() - 1]);
    }
}

/// Trimming takes all the white space around a text, and nothing of the text.
pub proof fn law_white_space_is_trimmed(a: Seq<char>, t: Seq<char>, b: Seq<char>)
    requires
        is_blank(a),
        is_blank(b),
        t.len() > 0 ==> !is_white_space(t[0]) && !is_white_space(t.last()),
    ensures
        trim(a + t + b) == t,
{
    if t.len() == 0 {
        let s = a + t + b;
        assert forall|i: int| 0 <= i < s.len() implies is_white_space(#[trigger] s[i]) by {
            if i < a.len() {
                assert(s[i] == a[i]);
            } else {
                assert(s[i] == b[i - a.len()]);
            }
        }
        lemma_trim_start_of(s, Seq::empty());
        assert(s + Seq::empty() =~= s);
        assert(trim(s) =~= t);
    } else {
        assert(a + t + b =~= a + (t + b));
        lemma_trim_start_of(a, t + b);
        lemma_trim_end_of(t, b);
    }
}

/// A text has another one in it exactly if it is made of that one and what
/// stands before and after it.
pub proof fn law_text_in_text(s: Seq<char>, needle: Seq<char>)
    ensures
        has_text(s, needle) <==> exists|before: Seq<char>, after: Seq<char>|
            s == #[trigger] (before + needle + after),
{
    if has_text(s, needle) {
        let i = choose|i: int|
            0 <= i && i + needle.len() <= s.len() && #[trigger] s.subrange(i, i + needle.len())
                == needle;
        assert(s =~= s.take(i) + needle + s.skip(i + needle.len()));
    }
    if exists|before: Seq<char>, after: Seq<char>| s == #[trigger] (before + needle + after) {
        let (before, after) = choose|before: Seq<char>, after: Seq<char>|
            s == #[trigger] (before + needle + after);
        let i = before.len() as int;
        assert(s.subrange(i, i + needle.len()) =~= needle);
    }
}

/// One more digit makes a number ten times as large, and adds the digit.
pub proof fn law_digits_by_tens(s: Seq<char>, c: char)
    requires
        '0' <= c <= '9',
    ensures
        digits_value(Seq::empty()) == 0,
        digits_value(s.push(c)) == 10 * digits_value(s) + (c as int - '0' as int),
{
    assert(s.push(c).drop_last() =~= s);
}

/// A number is written in digits, without a leading zero unless it is zero.
pub proof fn law_decimal_form(n: nat)
    ensures
        decimal(n).len() > 0,
        forall|i: int| 0 <= i < decimal(n).len() ==> '0' <= #[trigger] decimal(n)[i] <= '9',
        digits_value(decimal(n)) == n,
        decimal(n)[0] == '0' ==> decimal(n).len() == 1,
    decreases n,
{
    lemma_decimal(n);
    assert forall|i: int| 0 <= i < decimal(n).len() implies '0' <= #[trigger] decimal(n)[i]
        <= '9' by {
        assert(is_digit(decimal(n)[i]));
    }
    if n >= 10 {
        law_decimal_form(n / 10);
        if decimal(n / 10)[0] == '0' {
            assert(decimal(n / 10).drop_last() =~= Seq::empty());
            assert(digits_value(decimal(n / 10)) == 0) by {
                law_digits_by_tens(Seq::empty(), '0');
                assert(decimal(n / 10) =~= Seq::empty().push('0'));
            }
        }
    }
}

/// Digits, after a `+` or without one, are read as the number that they denote
/// if that is not too large; nothing else is read as a number.
pub proof fn law_numbers_are_digits(s: Seq<char>, n: usize)
    ensures
        parse_usize(s) == Some(n) <==> exists|digits: Seq<char>|
            (s == digits || s == seq!['+'] + digits) && #[trigger] digits_value(digits) == n
                && digits.len() > 0 && forall|i: int|
                0 <= i < digits.len() ==> '0' <= #[trigger] digits[i] <= '9',
{
    let digits = if s.len() > 0 && s[0] == '+' {
        s.skip(1)
    } else {
        s
    };
    if parse_usize(s) == Some(n) {
        assert(s.len() > 0 && s[0] == '+' ==> s =~= seq!['+'] + digits);
        assert(digits_value(digits) == n);
        assert forall|i: int| 0 <= i < digits.len() implies '0' <= #[trigger] digits[i] <= '9' by {
            assert(is_digit(digits[i]));
        }
    }
    if exists|ds: Seq<char>|
        (s == ds || s == seq!['+'] + ds) && #[trigger] digits_value(ds) == n && ds.len() > 0
            && forall|i: int| 0 <= i < ds.len() ==> '0' <= #[trigger] ds[i] <= '9' {
        let ds = choose|ds: Seq<char>|
            (s == ds || s == seq!['+'] + ds) && #[trigger] digits_value(ds) == n && ds.len() > 0
                && forall|i: int| 0 <= i < ds.len() ==> '0' <= #[trigger] ds[i] <= '9';
        if s == ds {
            assert('0' <= ds[0] <= '9');
            assert(digits == ds);
        } else {
            assert(s[0] == '+');
            assert(digits =~= ds);
        }
        assert(all_digits(digits));
    }
}

} // verus!
