//! Text as a sequence of characters: lines, words, white space and decimal numbers.

#[allow(unused_imports)]
use vstd::arithmetic::power::{lemma_pow0, pow};
use vstd::prelude::*;
use vstd::slice::slice_subrange;
use vstd::string::StringExecFns;
#[allow(unused_imports)]
use vstd::utf8::{encode_scalar, encode_utf8};

verus! {

/// The characters with the Unicode property `White_Space`.
pub open spec fn white_space(c: char) -> bool {
    ||| '\u{9}' <= c <= '\u{d}'
    ||| c == ' '
    ||| c == '\u{85}'
    ||| c == '\u{a0}'
    ||| c == '\u{1680}'
    ||| '\u{2000}' <= c <= '\u{200a}'
    ||| c == '\u{2028}'
    ||| c == '\u{2029}'
    ||| c == '\u{202f}'
    ||| c == '\u{205f}'
    ||| c == '\u{3000}'
}

/// `s` without the white space it starts with.
pub open spec fn trim_start(s: Seq<char>) -> Seq<char>
    decreases s.len(),
{
    if s.len() > 0 && white_space(s[0]) {
        trim_start(s.drop_first())
    } else {
        s
    }
}

/// `s` without the white space it ends with.
pub open spec fn trim_end(s: Seq<char>) -> Seq<char>
    decreases s.len(),
{
    if s.len() > 0 && white_space(s.last()) {
        trim_end(s.drop_last())
    } else {
        s
    }
}

/// `s` without the white space around it.
pub open spec fn trim(s: Seq<char>) -> Seq<char> {
    trim_end(trim_start(s))
}

/// The number of characters before the first white space.
pub open spec fn word_len(s: Seq<char>) -> int
    decreases s.len(),
{
    if s.len() == 0 || white_space(s[0]) {
        0
    } else {
        1 + word_len(s.drop_first())
    }
}

/// The runs of characters between the white space of `s`.
pub open spec fn words(s: Seq<char>) -> Seq<Seq<char>>
    decreases s.len(),
{
    if s.len() == 0 {
        seq![]
    } else if white_space(s[0]) {
        words(s.drop_first())
    } else {
        proof {
            lemma_word_len(s);
        }
        seq![s.take(word_len(s))] + words(s.skip(word_len(s)))
    }
}

/// The number of characters before the first line feed.
pub open spec fn line_len(s: Seq<char>) -> int
    decreases s.len(),
{
    if s.len() == 0 || s[0] == '\n' {
        0
    } else {
        1 + line_len(s.drop_first())
    }
}

/// `s` without one carriage return at its end.
pub open spec fn strip_return(s: Seq<char>) -> Seq<char> {
    if s.len() > 0 && s.last() == '\r' {
        s.drop_last()
    } else {
        s
    }
}

/// The lines of `s`. A line ends with a line feed, or a carriage return and a line feed, neither
/// of which belongs to it; the last line may go without.
pub open spec fn lines(s: Seq<char>) -> Seq<Seq<char>>
    decreases s.len(),
{
    if s.len() == 0 {
        seq![]
    } else if line_len(s) < s.len() {
        proof {
            lemma_line_len(s);
        }
        seq![strip_return(s.take(line_len(s)))] + lines(s.skip(line_len(s) + 1))
    } else {
        seq![s]
    }
}

pub open spec fn is_digit(c: char) -> bool {
    '0' <= c <= '9'
}

pub open spec fn all_digits(s: Seq<char>) -> bool {
    forall|i: int| 0 <= i < s.len() ==> is_digit(#[trigger] s[i])
}

/// The number that a row of decimal digits stands for.
pub open spec fn digits_value(s: Seq<char>) -> nat
    decreases s.len(),
{
    if s.len() == 0 {
        0
    } else {
        digits_value(s.drop_last()) * 10 + (s.last() as nat - '0' as nat) as nat
    }
}

/// `s` without one plus sign at its start.
pub open spec fn strip_plus(s: Seq<char>) -> Seq<char> {
    if s.len() > 0 && s[0] == '+' {
        s.drop_first()
    } else {
        s
    }
}

/// The unsigned number that `s` spells out: a plus sign or none, then one digit or more. There is
/// none if `s` is anything else, or if the number is above `max`.
pub open spec fn parsed_unsigned(s: Seq<char>, max: nat) -> Option<nat> {
    let digits = strip_plus(s);
    if digits.len() > 0 && all_digits(digits) && digits_value(digits) <= max {
        Some(digits_value(digits))
    } else {
        None
    }
}

/// The decimal digits of `n`, without leading zeros.
pub open spec fn decimal(n: nat) -> Seq<char>
    decreases n,
{
    let last = ('0' as nat + n % 10) as char;
    if n < 10 {
        seq![last]
    } else {
        decimal(n / 10).push(last)
    }
}

/// A word is the longest start of `s` without white space.
pub proof fn lemma_word_len(s: Seq<char>)
    ensures
        0 <= word_len(s) <= s.len(),
        s.len() > 0 && !white_space(s[0]) ==> word_len(s) > 0,
        forall|i: int| 0 <= i < word_len(s) ==> !white_space(#[trigger] s[i]),
        word_len(s) < s.len() ==> white_space(s[word_len(s)]),
    decreases s.len(),
{
    if s.len() > 0 && !white_space(s[0]) {
        let rest = s.drop_first();
        lemma_word_len(rest);
        assert forall|i: int| 0 <= i < word_len(s) implies !white_space(#[trigger] s[i]) by {
            if i > 0 {
                assert(s[i] == rest[i - 1]);
            }
        }
    }
}

/// A line is the longest start of `s` without a line feed.
pub proof fn lemma_line_len(s: Seq<char>)
    ensures
        0 <= line_len(s) <= s.len(),
        forall|i: int| 0 <= i < line_len(s) ==> #[trigger] s[i] != '\n',
        line_len(s) < s.len() ==> s[line_len(s)] == '\n',
    decreases s.len(),
{
    if s.len() > 0 && s[0] != '\n' {
        let rest = s.drop_first();
        lemma_line_len(rest);
        assert forall|i: int| 0 <= i < line_len(s) implies #[trigger] s[i] != '\n' by {
            if i > 0 {
                assert(s[i] == rest[i - 1]);
            }
        }
    }
}

/// Leading white space does not count for the words.
proof fn lemma_words_skip(s: Seq<char>, n: int)
    requires
        0 <= n <= s.len(),
        forall|i: int| 0 <= i < n ==> white_space(#[trigger] s[i]),
    ensures
        words(s) == words(s.skip(n)),
    decreases n,
{
    if n > 0 {
        assert(white_space(s[0]));
        let rest = s.drop_first();
        assert forall|i: int| 0 <= i < n - 1 implies white_space(#[trigger] rest[i]) by {
            assert(rest[i] == s[i + 1]);
        }
        lemma_words_skip(rest, n - 1);
        assert(rest.skip(n - 1) =~= s.skip(n));
    } else {
        assert(s.skip(0) =~= s);
    }
}

/// Trimming the start removes the white space before the first other character.
proof fn lemma_trim_start(s: Seq<char>, n: int)
    requires
        0 <= n <= s.len(),
        forall|i: int| 0 <= i < n ==> white_space(#[trigger] s[i]),
        n < s.len() ==> !white_space(s[n]),
    ensures
        trim_start(s) == s.skip(n),
    decreases n,
{
    if n > 0 {
        assert(white_space(s[0]));
        let rest = s.drop_first();
        assert forall|i: int| 0 <= i < n - 1 implies white_space(#[trigger] rest[i]) by {
            assert(rest[i] == s[i + 1]);
        }
        lemma_trim_start(rest, n - 1);
        assert(rest.skip(n - 1) =~= s.skip(n));
    } else {
        assert(s.skip(0) =~= s);
    }
}

/// Trimming the end removes the white space behind the last other character.
proof fn lemma_trim_end(s: Seq<char>, n: int)
    requires
        0 <= n <= s.len(),
        forall|i: int| n <= i < s.len() ==> white_space(#[trigger] s[i]),
        n > 0 ==> !white_space(s[n - 1]),
    ensures
        trim_end(s) == s.take(n),
    decreases s.len(),
{
    if n < s.len() {
        assert(white_space(s[s.len() - 1]));
        let rest = s.drop_last();
        lemma_trim_end(rest, n);
        assert(rest.take(n) =~= s.take(n));
    } else {
        assert(s.take(n) =~= s);
    }
}

/// A longer row of digits stands for a number that is not smaller.
proof fn lemma_prefix_value(s: Seq<char>, n: int)
    requires
        all_digits(s),
        0 <= n <= s.len(),
    ensures
        digits_value(s.take(n)) <= digits_value(s),
    decreases s.len(),
{
    if n < s.len() {
        assert(s.drop_last().take(n) =~= s.take(n));
        assert forall|i: int| 0 <= i < s.drop_last().len() implies is_digit(
            #[trigger] s.drop_last()[i],
        ) by {
            assert(is_digit(s[i]));
        }
        lemma_prefix_value(s.drop_last(), n);
        assert(is_digit(s[s.len() - 1]));
    } else {
        assert(s.take(n) =~= s);
    }
}

/// The characters of a string.
pub fn chars_of(text: &str) -> (chars: Vec<char>)
    ensures
        chars@ == text@,
{
    let mut chars: Vec<char> = Vec::new();
    for c in it: text.chars()
        invariant
            it.seq() == text@,
            chars@ == text@.take(it.index()),
    {
        chars.push(c);
    }
    assert(text@.take(text@.len() as int) =~= text@);
    chars
}

/// Tells whether a character is white space.
pub fn is_white_space(c: char) -> (white: bool)
    ensures
        white == white_space(c),
{
    ('\u{9}' <= c && c <= '\u{d}') || c == ' ' || c == '\u{85}' || c == '\u{a0}' || c == '\u{1680}'
        || ('\u{2000}' <= c && c <= '\u{200a}') || c == '\u{2028}' || c == '\u{2029}' || c
        == '\u{202f}' || c == '\u{205f}' || c == '\u{3000}'
}

/// The number of white space characters that `s` starts with.
fn count_white(s: &[char]) -> (n: usize)
    ensures
        n <= s@.len(),
        forall|i: int| 0 <= i < n ==> white_space(#[trigger] s@[i]),
        n < s@.len() ==> !white_space(s@[n as int]),
{
    let mut n: usize = 0;
    while n < s.len() && is_white_space(s[n])
        invariant
            n <= s@.len(),
            forall|i: int| 0 <= i < n ==> white_space(#[trigger] s@[i]),
        decreases s.len() - n,
    {
        n = n + 1;
    }
    n
}

/// Removes the white space around `s`.
pub fn trim_chars(s: &[char]) -> (inner: &[char])
    ensures
        inner@ == trim(s@),
{
    let start: usize = count_white(s);
    let tail = slice_subrange(s, start, s.len());
    let mut end: usize = tail.len();
    while end > 0 && is_white_space(tail[end - 1])
        invariant
            end <= tail@.len(),
            forall|i: int| end <= i < tail@.len() ==> white_space(#[trigger] tail@[i]),
        decreases end,
    {
        end = end - 1;
    }
    proof {
        assert(tail@ =~= s@.skip(start as int));
        lemma_trim_start(s@, start as int);
        lemma_trim_end(tail@, end as int);
        assert(tail@.subrange(0, end as int) =~= tail@.take(end as int));
    }
    slice_subrange(tail, 0, end)
}

/// The first word of `s` and what comes after it.
pub fn split_word(s: &[char]) -> (split: Option<(&[char], &[char])>)
    ensures
        match split {
            Some((word, rest)) => words(s@) == seq![word@] + words(rest@),
            None => words(s@).len() == 0,
        },
{
    let start: usize = count_white(s);
    let tail = slice_subrange(s, start, s.len());
    proof {
        assert(tail@ =~= s@.skip(start as int));
        lemma_words_skip(s@, start as int);
    }
    if tail.len() == 0 {
        return None;
    }
    let mut n: usize = 0;
    while n < tail.len() && !is_white_space(tail[n])
        invariant
            n <= tail@.len(),
            forall|i: int| 0 <= i < n ==> !white_space(#[trigger] tail@[i]),
        decreases tail.len() - n,
    {
        n = n + 1;
    }
    proof {
        assert(tail@[0] == s@[start as int]);
        lemma_word_len(tail@);
        let m = word_len(tail@);
        assert(n == m) by {
            if n < m {
                assert(!white_space(tail@[n as int]));
            }
            if m < n {
                assert(!white_space(tail@[m]));
            }
        }
        assert(tail@.subrange(0, n as int) =~= tail@.take(m));
        assert(tail@.subrange(n as int, tail@.len() as int) =~= tail@.skip(m));
    }
    Some((slice_subrange(tail, 0, n), slice_subrange(tail, n, tail.len())))
}

/// The first line of `s` and what comes after it.
pub fn split_line(s: &[char]) -> (split: Option<(&[char], &[char])>)
    ensures
        match split {
            Some((line, rest)) => {
                &&& lines(s@) == seq![line@] + lines(rest@)
                &&& rest@.len() < s@.len()
            },
            None => lines(s@).len() == 0,
        },
{
    if s.len() == 0 {
        return None;
    }
    let mut n: usize = 0;
    while n < s.len() && s[n] != '\n'
        invariant
            n <= s@.len(),
            forall|i: int| 0 <= i < n ==> #[trigger] s@[i] != '\n',
        decreases s.len() - n,
    {
        n = n + 1;
    }
    proof {
        lemma_line_len(s@);
        let m = line_len(s@);
        if n < m {
            assert(s@[n as int] != '\n');
        }
        if m < n {
            assert(s@[m] != '\n');
        }
        assert(n == m);
    }
    if n == s.len() {
        let rest = slice_subrange(s, n, n);
        assert(lines(rest@) =~= Seq::<Seq<char>>::empty());
        assert(seq![s@] + lines(rest@) =~= seq![s@]);
        return Some((s, rest));
    }
    let end: usize = if n > 0 && s[n - 1] == '\r' { n - 1 } else { n };
    let line = slice_subrange(s, 0, end);
    let rest = slice_subrange(s, n + 1, s.len());
    proof {
        assert(line@ =~= strip_return(s@.take(n as int)));
        assert(rest@ =~= s@.skip(n + 1));
    }
    Some((line, rest))
}

/// The decimal digits of a number.
pub fn decimal_text(n: u64) -> (text: String)
    ensures
        text@ == decimal(n as nat),
    decreases n,
{
    let digit = digit_text((n % 10) as u8);
    if n < 10 {
        digit
    } else {
        let mut text = decimal_text(n / 10);
        text.append(digit.as_str());
        assert(text@ =~= decimal(n as nat));
        text
    }
}

/// One decimal digit.
fn digit_text(d: u8) -> (text: String)
    requires
        d < 10,
    ensures
        text@ == seq![('0' as nat + d as nat) as char],
{
    proof {
        reveal_strlit("0");
        reveal_strlit("1");
        reveal_strlit("2");
        reveal_strlit("3");
        reveal_strlit("4");
        reveal_strlit("5");
        reveal_strlit("6");
        reveal_strlit("7");
        reveal_strlit("8");
        reveal_strlit("9");
    }
    let text = match d {
        0 => "0",
        1 => "1",
        2 => "2",
        3 => "3",
        4 => "4",
        5 => "5",
        6 => "6",
        7 => "7",
        8 => "8",
        _ => "9",
    };
    assert(text@ =~= seq![('0' as nat + d as nat) as char]);
    text.to_owned()
}

/// Reads an unsigned decimal number of at most `max`.
pub fn parse_unsigned(s: &[char], max: u64) -> (number: Option<u64>)
    ensures
        match number {
            Some(n) => parsed_unsigned(s@, max as nat) == Some(n as nat),
            None => parsed_unsigned(s@, max as nat) is None,
        },
{
    let start: usize = if s.len() > 0 && s[0] == '+' { 1 } else { 0 };
    let ghost digits = strip_plus(s@);
    assert(digits =~= s@.skip(start as int));
    if start == s.len() {
        return None;
    }
    let mut value: u64 = 0;
    let mut i: usize = start;
    assert(digits.take(0) =~= Seq::<char>::empty());
    while i < s.len()
        invariant
            start <= i <= s.len(),
            start <= 1,
            digits == strip_plus(s@),
            digits == s@.skip(start as int),
            digits.len() > 0,
            value == digits_value(digits.take(i - start)),
            value <= max,
            all_digits(digits.take(i - start)),
        decreases s.len() - i,
    {
        let c: char = s[i];
        assert(c == digits[i - start]);
        if c < '0' || c > '9' {
            assert(!is_digit(digits[i - start]));
            return None;
        }
        let d: u64 = (c as u32 - '0' as u32) as u64;
        let ghost next = digits.take(i + 1 - start);
        proof {
            assert(next.drop_last() =~= digits.take(i - start));
            assert(next.last() == c);
            if all_digits(digits) {
                lemma_prefix_value(digits, i + 1 - start);
            }
        }
        if d > max || value > (max - d) / 10 {
            assert(digits_value(next) > max);
            return None;
        }
        value = value * 10 + d;
        assert forall|j: int| 0 <= j < next.len() implies is_digit(#[trigger] next[j]) by {
            if j < i - start {
                assert(is_digit(digits.take(i - start)[j]));
            }
        }
        i = i + 1;
    }
    assert(digits.take(i - start) =~= digits);
    Some(value)
}

/// A number reads back from its decimal digits.
pub proof fn decimal_reads_back(n: nat, max: nat)
    requires
        n <= max,
    ensures
        parsed_unsigned(decimal(n), max) == Some(n),
{
    lemma_decimal(n);
    let digits = decimal(n);
    assert(is_digit(digits[0]));
    assert(strip_plus(digits) == digits);
}

/// The decimal digits of a number are digits, at least one, and stand for it.
pub proof fn lemma_decimal(n: nat)
    ensures
        decimal(n).len() > 0,
        all_digits(decimal(n)),
        digits_value(decimal(n)) == n,
    decreases n,
{
    reveal_with_fuel(digits_value, 2);
    let last = ('0' as nat + n % 10) as char;
    assert(last as nat == '0' as nat + n % 10);
    if n < 10 {
        assert(seq![last].drop_last() =~= Seq::<char>::empty());
    } else {
        lemma_decimal(n / 10);
        assert(decimal(n).drop_last() =~= decimal(n / 10));
        assert forall|i: int| 0 <= i < decimal(n).len() implies is_digit(
            #[trigger] decimal(n)[i],
        ) by {
            if i < decimal(n / 10).len() {
                assert(is_digit(decimal(n / 10)[i]));
            }
        }
    }
}

/// The lines of a text that starts with a line.
pub proof fn lemma_first_line(line: Seq<char>, rest: Seq<char>)
    requires
        forall|i: int| 0 <= i < line.len() ==> #[trigger] line[i] != '\n',
    ensures
        lines(line + "\r\n"@ + rest) == seq![line] + lines(rest),
        line.len() > 0 ==> lines(line) == seq![line],
{
    reveal_strlit("\r\n");
    let s = line + "\r\n"@ + rest;
    let n = line.len() as int + 1;
    lemma_line_len(s);
    let m = line_len(s);
    assert(s[n] == '\n');
    assert forall|i: int| 0 <= i < n implies #[trigger] s[i] != '\n' by {
        if i < line.len() {
            assert(s[i] == line[i]);
        }
    }
    assert(m == n);
    assert(s.take(n).drop_last() =~= line);
    assert(s.take(n).last() == '\r');
    assert(s.skip(n + 1) =~= rest);
    lemma_line_len(line);
    if line_len(line) < line.len() {
        assert(line[line_len(line)] != '\n');
    }
}

/// The words of a text that starts with a word and a space.
pub proof fn lemma_first_word(word: Seq<char>, rest: Seq<char>)
    requires
        word.len() > 0,
        forall|i: int| 0 <= i < word.len() ==> !white_space(#[trigger] word[i]),
    ensures
        words(word + " "@ + rest) == seq![word] + words(rest),
{
    reveal_strlit(" ");
    let s = word + " "@ + rest;
    let n = word.len() as int;
    lemma_word_len(s);
    let m = word_len(s);
    assert(white_space(s[n]));
    assert forall|i: int| 0 <= i < n implies !white_space(#[trigger] s[i]) by {
        assert(s[i] == word[i]);
    }
    assert(m == n);
    assert(s.take(n) =~= word);
    assert(!white_space(s[0]));
    let tail = s.skip(n);
    assert(white_space(tail[0]));
    assert(tail.drop_first() =~= rest);
    assert(words(tail) == words(rest));
}

/// Trimming takes the white space around a number away.
pub proof fn lemma_trim_number(before: Seq<char>, n: nat, after: Seq<char>)
    requires
        forall|i: int| 0 <= i < before.len() ==> white_space(#[trigger] before[i]),
        forall|i: int| 0 <= i < after.len() ==> white_space(#[trigger] after[i]),
    ensures
        trim(before + decimal(n) + after) == decimal(n),
{
    lemma_decimal(n);
    let digits = decimal(n);
    let s = before + digits + after;
    assert(is_digit(digits[0]));
    assert(is_digit(digits[digits.len() - 1]));
    assert(s[before.len() as int] == digits[0]);
    lemma_trim_start(s, before.len() as int);
    let tail = s.skip(before.len() as int);
    assert(tail =~= digits + after);
    lemma_trim_end(tail, digits.len() as int);
    assert(tail.take(digits.len() as int) =~= digits);
}

/// The bytes of two texts in a row are the bytes of the one and then those of the other.
pub proof fn lemma_encode_concat(a: Seq<char>, b: Seq<char>)
    ensures
        encode_utf8(a + b) == encode_utf8(a) + encode_utf8(b),
    decreases a.len(),
{
    if a.len() == 0 {
        assert(a + b =~= b);
        assert(encode_utf8(a) + encode_utf8(b) =~= encode_utf8(b));
    } else {
        assert((a + b).drop_first() =~= a.drop_first() + b);
        lemma_encode_concat(a.drop_first(), b);
        assert(encode_utf8(a + b) =~= encode_utf8(a) + encode_utf8(b));
    }
}

/// A digit stands for its distance from the digit zero.
pub proof fn digit_counts(c: char)
    requires
        '0' <= c <= '9',
    ensures
        digits_value(seq![c]) == c as int - '0' as int,
{
    reveal_with_fuel(digits_value, 2);
    assert(seq![c].drop_last() =~= Seq::<char>::empty());
}

/// Digits count ten times as much for each digit behind them.
pub proof fn digits_count_by_place(a: Seq<char>, b: Seq<char>)
    ensures
        digits_value(a + b) == digits_value(a) * pow(10, b.len()) + digits_value(b),
    decreases b.len(),
{
    if b.len() == 0 {
        lemma_pow0(10);
        assert(a + b =~= a);
    } else {
        let c = b.drop_last();
        digits_count_by_place(a, c);
        assert((a + b).drop_last() =~= a + c);
        assert((a + b).last() == b.last());
        assert(pow(10, b.len()) == 10 * pow(10, c.len())) by {
            reveal(pow);
        }
        let x = digits_value(a) as int;
        let y = pow(10, c.len());
        assert((x * y) * 10 == x * (10 * y)) by (nonlinear_arith);
    }
}

/// A number is written with decimal digits that stand for it, without a zero in front.
pub proof fn decimal_is_plain(n: nat)
    ensures
        decimal(n).len() > 0,
        forall|i: int| 0 <= i < decimal(n).len() ==> '0' <= #[trigger] decimal(n)[i] <= '9',
        decimal(n).len() > 1 ==> decimal(n)[0] != '0',
        digits_value(decimal(n)) == n,
    decreases n,
{
    lemma_decimal(n);
    assert forall|i: int| 0 <= i < decimal(n).len() implies '0' <= #[trigger] decimal(n)[i]
        <= '9' by {
        assert(is_digit(decimal(n)[i]));
    }
    if n >= 10 {
        decimal_is_plain(n / 10);
        assert(decimal(n)[0] == decimal(n / 10)[0]);
        if n < 100 {
            let m = n / 10;
            assert(m < 10);
            assert(decimal(m)[0] == ('0' as nat + m % 10) as char);
            assert(decimal(m)[0] as nat == '0' as nat + m);
        } else {
            assert(decimal(n / 10).len() > 1) by {
                assert(n / 10 >= 10);
                lemma_decimal(n / 10 / 10);
            }
        }
    }
}

/// A row of digits, with or without a plus sign, is the number that it stands for, up to the
/// largest one allowed.
pub proof fn digits_are_a_number(s: Seq<char>, max: nat)
    requires
        s.len() > 0,
        forall|i: int| 0 <= i < s.len() ==> '0' <= #[trigger] s[i] <= '9',
    ensures
        digits_value(s) <= max ==> parsed_unsigned(s, max) == Some(digits_value(s)),
        digits_value(s) > max ==> parsed_unsigned(s, max) is None,
        parsed_unsigned(seq!['+'] + s, max) == parsed_unsigned(s, max),
{
    assert(s[0] != '+');
    assert((seq!['+'] + s).drop_first() =~= s);
    assert(all_digits(s));
}

/// What holds anything but digits behind its sign, or no digit, is no number.
pub proof fn others_are_no_number(s: Seq<char>, i: int, max: nat)
    requires
        0 <= i < s.len(),
        !('0' <= s[i] <= '9'),
        i == 0 ==> s[0] != '+' || s.len() == 1,
    ensures
        parsed_unsigned(s, max) is None,
        parsed_unsigned(seq![], max) is None,
{
    let digits = strip_plus(s);
    if s[0] == '+' {
        if i > 0 {
            assert(digits[i - 1] == s[i]);
            assert(!is_digit(digits[i - 1]));
        }
    } else {
        assert(!is_digit(digits[i]));
    }
}

/// Trimming takes the white space before and behind a text away, and nothing else.
pub proof fn trim_keeps_the_inside(before: Seq<char>, inside: Seq<char>, after: Seq<char>)
    requires
        forall|i: int| 0 <= i < before.len() ==> white_space(#[trigger] before[i]),
        forall|i: int| 0 <= i < after.len() ==> white_space(#[trigger] after[i]),
        inside.len() > 0 ==> !white_space(inside[0]) && !white_space(inside.last()),
    ensures
        trim(before + inside + after) == inside,
{
    let s = before + inside + after;
    if inside.len() > 0 {
        assert(s[before.len() as int] == inside[0]);
        lemma_trim_start(s, before.len() as int);
        let tail = s.skip(before.len() as int);
        assert(tail =~= inside + after);
        lemma_trim_end(tail, inside.len() as int);
        assert(tail.take(inside.len() as int) =~= inside);
    } else {
        assert forall|i: int| 0 <= i < s.len() implies white_space(#[trigger] s[i]) by {
            if i < before.len() {
                assert(s[i] == before[i]);
            } else {
                assert(s[i] == after[i - before.len()]);
            }
        }
        lemma_trim_start(s, s.len() as int);
        assert(s.skip(s.len() as int) =~= inside);
    }
}

/// The first word of a text is what stands before the white space behind it, whatever white space
/// comes first.
pub proof fn words_are_split(before: Seq<char>, word: Seq<char>, c: char, rest: Seq<char>)
    requires
        forall|i: int| 0 <= i < before.len() ==> white_space(#[trigger] before[i]),
        word.len() > 0,
        forall|i: int| 0 <= i < word.len() ==> !white_space(#[trigger] word[i]),
        white_space(c),
    ensures
        words(before).len() == 0,
        words(before + word) == seq![word],
        words(before + word + seq![c] + rest) == seq![word] + words(rest),
{
    assert(before.skip(before.len() as int) =~= Seq::<char>::empty());
    lemma_words_skip(before, before.len() as int);
    let one = before + word;
    assert forall|i: int| 0 <= i < before.len() implies white_space(#[trigger] one[i]) by {
        assert(one[i] == before[i]);
    }
    lemma_words_skip(one, before.len() as int);
    assert(one.skip(before.len() as int) =~= word);
    lemma_word_len(word);
    if word_len(word) < word.len() {
        assert(!white_space(word[word_len(word)]));
    }
    assert(!white_space(word[0]));
    assert(word.take(word.len() as int) =~= word);
    assert(word.skip(word.len() as int) =~= Seq::<char>::empty());
    assert(words(word) =~= seq![word]);

    let s = before + word + seq![c] + rest;
    assert forall|i: int| 0 <= i < before.len() implies white_space(#[trigger] s[i]) by {
        assert(s[i] == before[i]);
    }
    lemma_words_skip(s, before.len() as int);
    let t = s.skip(before.len() as int);
    assert(t =~= word + seq![c] + rest);
    let n = word.len() as int;
    lemma_word_len(t);
    let m = word_len(t);
    assert(t[n] == c);
    assert forall|i: int| 0 <= i < n implies !white_space(#[trigger] t[i]) by {
        assert(t[i] == word[i]);
    }
    if m < n {
        assert(!white_space(t[m]));
    }
    assert(m == n);
    assert(!white_space(t[0]));
    assert(t.take(n) =~= word);
    let tail = t.skip(n);
    assert(white_space(tail[0]));
    assert(tail.drop_first() =~= rest);
    assert(words(tail) == words(rest));
    assert(words(t) == seq![word] + words(tail));
}

/// A line ends at its line feed, and a carriage return before that belongs to the end.
pub proof fn lines_are_split(line: Seq<char>, rest: Seq<char>)
    requires
        forall|i: int| 0 <= i < line.len() ==> #[trigger] line[i] != '\n',
    ensures
        lines(line + seq!['\r', '\n'] + rest) == seq![line] + lines(rest),
        line.len() == 0 || line.last() != '\r' ==> lines(line + seq!['\n'] + rest) == seq![line]
            + lines(rest),
        line.len() > 0 ==> lines(line) == seq![line],
        lines(Seq::<char>::empty()).len() == 0,
{
    reveal_strlit("\r\n");
    assert("\r\n"@ =~= seq!['\r', '\n']);
    lemma_first_line(line, rest);
    let s = line + seq!['\n'] + rest;
    let n = line.len() as int;
    lemma_line_len(s);
    assert(s[n] == '\n');
    assert forall|i: int| 0 <= i < n implies #[trigger] s[i] != '\n' by {
        assert(s[i] == line[i]);
    }
    if line_len(s) < n {
        assert(s[line_len(s)] != '\n');
    }
    assert(line_len(s) == n);
    assert(s.take(n) =~= line);
    assert(s.skip(n + 1) =~= rest);
}

/// A byte of a character that is an ASCII one is the whole character.
proof fn lemma_ascii_byte(c: char, i: int)
    requires
        0 <= i < encode_scalar(c as u32).len(),
        encode_scalar(c as u32)[i] < 0x80,
    ensures
        encode_scalar(c as u32)[i] as int == c as int,
{
    let v = c as u32;
    assert(v <= 0x7f ==> (v & 0x7f) as u8 == v) by (bit_vector);
    let lead_2 = ((v >> 6) & 0x1f) as u8;
    let lead_3 = ((v >> 12) & 0x0f) as u8;
    let lead_4 = ((v >> 18) & 0x7) as u8;
    assert(0xc0u8 | lead_2 >= 0x80) by (bit_vector);
    assert(0xe0u8 | lead_3 >= 0x80) by (bit_vector);
    assert(0xf0u8 | lead_4 >= 0x80) by (bit_vector);
    let last = (v & 0x3f) as u8;
    let second = ((v >> 6) & 0x3f) as u8;
    let third = ((v >> 12) & 0x3f) as u8;
    assert(0x80u8 | last >= 0x80) by (bit_vector);
    assert(0x80u8 | second >= 0x80) by (bit_vector);
    assert(0x80u8 | third >= 0x80) by (bit_vector);
}

/// The bytes of a text start and end with an ASCII character only if the text does.
pub proof fn lemma_encode_both_ends(s: Seq<char>)
    requires
        s.len() > 0,
    ensures
        encode_utf8(s).len() > 0,
        encode_utf8(s)[0] < 0x80 ==> encode_utf8(s)[0] as int == s[0] as int,
        encode_utf8(s).last() < 0x80 ==> encode_utf8(s).last() as int == s.last() as int,
{
    let first = encode_scalar(s[0] as u32);
    assert(first.len() > 0);
    assert(encode_utf8(s)[0] == first[0]);
    if first[0] < 0x80 {
        lemma_ascii_byte(s[0], 0);
    }
    let end = seq![s.last()];
    assert(s =~= s.drop_last() + end);
    lemma_encode_concat(s.drop_last(), end);
    let last = encode_scalar(s.last() as u32);
    assert(end.drop_first() =~= Seq::<char>::empty());
    assert(encode_utf8(Seq::<char>::empty()) =~= Seq::<u8>::empty());
    assert(encode_utf8(end) =~= last);
    assert(encode_utf8(s).last() == last[last.len() - 1]);
    if last[last.len() - 1] < 0x80 {
        lemma_ascii_byte(s.last(), last.len() - 1);
    }
}

} // verus!
