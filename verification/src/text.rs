//! Writing numbers as text, reading them back, and taking text apart.

pub mod laws;

use vstd::prelude::*;

verus! {

/// The views of the strings of a sequence.
pub open spec fn texts(strings: Seq<String>) -> Seq<Seq<char>> {
    strings.map_values(|s: String| s@)
}

/// The sign for `d`, in hexadecimal with capital letters.
pub open spec fn digit(d: int) -> char {
    if d == 0 {
        '0'
    } else if d == 1 {
        '1'
    } else if d == 2 {
        '2'
    } else if d == 3 {
        '3'
    } else if d == 4 {
        '4'
    } else if d == 5 {
        '5'
    } else if d == 6 {
        '6'
    } else if d == 7 {
        '7'
    } else if d == 8 {
        '8'
    } else if d == 9 {
        '9'
    } else if d == 10 {
        'A'
    } else if d == 11 {
        'B'
    } else if d == 12 {
        'C'
    } else if d == 13 {
        'D'
    } else if d == 14 {
        'E'
    } else {
        'F'
    }
}

fn digit_str(d: u8) -> (s: &'static str)
    requires
        d < 16,
    ensures
        s@ == seq![digit(d as int)],
{
    proof {
        reveal_strlit("0");
        reveal_strlit("1");
        reveal_strlit("2");
        reveal_strlit("3");
        reveal_strlit("4");
        reveal_strlit("5");
        reveal_strlit("6");
        reveal_strlit("7");
        reveal_strlit("8");
        reveal_strlit("9");
        reveal_strlit("A");
        reveal_strlit("B");
        reveal_strlit("C");
        reveal_strlit("D");
        reveal_strlit("E");
        reveal_strlit("F");
    }
    let s = match d {
        0 => "0",
        1 => "1",
        2 => "2",
        3 => "3",
        4 => "4",
        5 => "5",
        6 => "6",
        7 => "7",
        8 => "8",
        9 => "9",
        10 => "A",
        11 => "B",
        12 => "C",
        13 => "D",
        14 => "E",
        _ => "F",
    };
    assert(s@ =~= seq![digit(d as int)]);
    s
}

/// `n` in decimal, without leading zeros.
pub open spec fn decimal(n: nat) -> Seq<char>
    decreases n,
{
    if n < 10 {
        seq![digit(n as int)]
    } else {
        decimal(n / 10).push(digit((n % 10) as int))
    }
}

/// Appends `n` in decimal.
pub fn push_decimal(out: &mut String, n: u64)
    ensures
        final(out)@ == old(out)@ + decimal(n as nat),
    decreases n,
{
    if n >= 10 {
        push_decimal(out, n / 10);
    }
    let last: u8 = (n % 10) as u8;
    out.append(digit_str(last));
    assert(out@ =~= old(out)@ + decimal(n as nat));
}

/// `byte` as two hexadecimal digits.
pub open spec fn hex(byte: u8) -> Seq<char> {
    seq![digit(byte as int / 16), digit(byte as int % 16)]
}

/// Appends `byte` as two hexadecimal digits.
pub fn push_hex(out: &mut String, byte: u8)
    ensures
        final(out)@ == old(out)@ + hex(byte),
{
    out.append(digit_str(byte / 16));
    out.append(digit_str(byte % 16));
    assert(out@ =~= old(out)@ + hex(byte));
}

/// `n` times `c`.
pub open spec fn repeated(c: char, n: nat) -> Seq<char> {
    Seq::new(n, |i: int| c)
}

/// Appends the one character of `unit`, `n` times.
pub fn push_repeated(out: &mut String, unit: &str, n: usize)
    requires
        unit@.len() == 1,
    ensures
        final(out)@ == old(out)@ + repeated(unit@[0], n as nat),
{
    let mut i: usize = 0;
    assert(out@ =~= old(out)@ + repeated(unit@[0], 0));
    while i < n
        invariant
            i <= n,
            unit@.len() == 1,
            out@ == old(out)@ + repeated(unit@[0], i as nat),
        decreases n - i,
    {
        out.append(unit);
        i = i + 1;
        assert(out@ =~= old(out)@ + repeated(unit@[0], i as nat));
    }
}

/// The characters of a string.
pub fn to_chars(s: &str) -> (chars: Vec<char>)
    ensures
        chars@ == s@,
{
    let mut chars: Vec<char> = Vec::new();
    for c in iter: s.chars()
        invariant
            iter.seq() == s@,
            chars@ == s@.take(iter.index() as int),
    {
        chars.push(c);
        assert(chars@ =~= s@.take(iter.index() + 1));
    }
    assert(s@.take(s@.len() as int) =~= s@);
    chars
}

/// Whether two strings hold the same text.
pub fn same(a: &str, b: &str) -> (same: bool)
    ensures
        same == (a@ == b@),
{
    a.to_owned() == b.to_owned()
}

/// Why a text is not a number.
#[derive(Debug, Clone, Copy, PartialEq, Eq, Structural)]
pub enum ParseIntError {
    /// There is no text.
    Empty,
    /// Something in it is not a digit.
    InvalidDigit,
    /// The number is too large.
    PosOverflow,
}

/// The value of the digit `c` in the given radix, which is at most 16.
pub open spec fn digit_value(c: char, radix: int) -> Option<int> {
    let value = if '0' <= c <= '9' {
        c as int - '0' as int
    } else if 'a' <= c <= 'f' {
        c as int - 'a' as int + 10
    } else if 'A' <= c <= 'F' {
        c as int - 'A' as int + 10
    } else {
        16
    };
    if value < radix {
        Some(value)
    } else {
        None
    }
}

fn digit_of(c: char, radix: u64) -> (value: Option<u64>)
    requires
        radix <= 16,
    ensures
        match value {
            Some(v) => digit_value(c, radix as int) == Some(v as int) && v < 16,
            None => digit_value(c, radix as int) is None,
        },
{
    let value: u64 = if '0' <= c && c <= '9' {
        c as u64 - '0' as u64
    } else if 'a' <= c && c <= 'f' {
        c as u64 - 'a' as u64 + 10
    } else if 'A' <= c && c <= 'F' {
        c as u64 - 'A' as u64 + 10
    } else {
        16
    };
    if value < radix {
        Some(value)
    } else {
        None
    }
}

/// The number that a run of digits spells, read from the left up to the first sign that is not a
/// digit, or that takes the number beyond `max`.
pub open spec fn digits_value(s: Seq<char>, radix: int, max: int) -> Result<int, ParseIntError>
    decreases s.len(),
{
    if s.len() == 0 {
        Ok(0)
    } else {
        match digits_value(s.drop_last(), radix, max) {
            Err(e) => Err(e),
            Ok(front) => match digit_value(s.last(), radix) {
                None => Err(ParseIntError::InvalidDigit),
                Some(d) => if front * radix + d > max {
                    Err(ParseIntError::PosOverflow)
                } else {
                    Ok(front * radix + d)
                },
            },
        }
    }
}

/// The unsigned number that `s` spells: at least one digit, after an optional plus sign.
pub open spec fn number(s: Seq<char>, radix: int, max: int) -> Result<int, ParseIntError> {
    if s.len() == 0 {
        Err(ParseIntError::Empty)
    } else if s[0] == '+' {
        if s.len() == 1 {
            Err(ParseIntError::InvalidDigit)
        } else {
            digits_value(s.skip(1), radix, max)
        }
    } else {
        digits_value(s, radix, max)
    }
}

/// A digit run that fails stays failed, however it goes on.
proof fn lemma_digits_value_fails(s: Seq<char>, radix: int, max: int, i: int)
    requires
        0 <= i <= s.len(),
        digits_value(s.take(i), radix, max) is Err,
    ensures
        digits_value(s, radix, max) == digits_value(s.take(i), radix, max),
    decreases s.len() - i,
{
    if i < s.len() {
        assert(s.take(i + 1).drop_last() =~= s.take(i));
        lemma_digits_value_fails(s, radix, max, i + 1);
    } else {
        assert(s.take(i) =~= s);
    }
}

/// Reads the characters of `chars` from `from` on as a number.
fn read_digits(chars: &Vec<char>, from: usize, radix: u64, max: u64) -> (value: Result<
    u64,
    ParseIntError,
>)
    requires
        from <= chars@.len(),
        radix <= 16,
    ensures
        match value {
            Ok(v) => digits_value(chars@.skip(from as int), radix as int, max as int) == Ok::<
                int,
                ParseIntError,
            >(v as int) && v <= max,
            Err(e) => digits_value(chars@.skip(from as int), radix as int, max as int) == Err::<
                int,
                ParseIntError,
            >(e),
        },
{
    let ghost s = chars@.skip(from as int);
    let mut value: u64 = 0;
    let mut i: usize = from;
    assert(s.take(0) =~= Seq::empty());
    while i < chars.len()
        invariant
            from <= i <= chars@.len(),
            s == chars@.skip(from as int),
            radix <= 16,
            value <= max,
            digits_value(s.take(i - from), radix as int, max as int) == Ok::<int, ParseIntError>(
                value as int,
            ),
        decreases chars@.len() - i,
    {
        let ghost next = s.take(i - from + 1);
        assert(next.drop_last() =~= s.take(i - from));
        assert(next.last() == chars@[i as int]);
        match digit_of(chars[i], radix) {
            None => {
                proof {
                    lemma_digits_value_fails(s, radix as int, max as int, i - from + 1);
                }
                return Err(ParseIntError::InvalidDigit);
            },
            Some(d) => {
                assert(value * radix <= 0xffff_ffff_ffff_ffff * 16) by (nonlinear_arith)
                    requires
                        0 <= value <= 0xffff_ffff_ffff_ffff,
                        0 <= radix <= 16,
                ;
                let wide: u128 = value as u128 * radix as u128;
                let sum: u128 = wide + d as u128;
                if sum > max as u128 {
                    proof {
                        lemma_digits_value_fails(s, radix as int, max as int, i - from + 1);
                    }
                    return Err(ParseIntError::PosOverflow);
                }
                value = sum as u64;
            },
        }
        i = i + 1;
    }
    assert(s.take(i - from) =~= s);
    Ok(value)
}

/// Reads a number of at most `max` that is spelled with digits alone.
pub fn parse_digits(s: &str, radix: u64, max: u64) -> (value: Result<u64, ParseIntError>)
    requires
        radix <= 16,
    ensures
        match value {
            Ok(v) => digits_value(s@, radix as int, max as int) == Ok::<int, ParseIntError>(
                v as int,
            ) && v <= max,
            Err(e) => digits_value(s@, radix as int, max as int) == Err::<int, ParseIntError>(e),
        },
{
    let chars = to_chars(s);
    assert(chars@.skip(0) =~= chars@);
    read_digits(&chars, 0, radix, max)
}

/// Reads an unsigned number of at most `max`.
pub fn parse_number(s: &str, radix: u64, max: u64) -> (value: Result<u64, ParseIntError>)
    requires
        radix <= 16,
    ensures
        match value {
            Ok(v) => number(s@, radix as int, max as int) == Ok::<int, ParseIntError>(v as int)
                && v <= max,
            Err(e) => number(s@, radix as int, max as int) == Err::<int, ParseIntError>(e),
        },
{
    let chars = to_chars(s);
    if chars.len() == 0 {
        return Err(ParseIntError::Empty);
    }
    if chars[0] == '+' {
        if chars.len() == 1 {
            Err(ParseIntError::InvalidDigit)
        } else {
            read_digits(&chars, 1, radix, max)
        }
    } else {
        parse_digits(s, radix, max)
    }
}

/// A number that is read does not exceed the limit.
pub proof fn lemma_number_is_bounded(s: Seq<char>, radix: int, max: int)
    requires
        0 <= radix,
        0 <= max,
    ensures
        number(s, radix, max) matches Ok(n) ==> 0 <= n <= max,
{
    lemma_digits_value_is_bounded(s, radix, max);
    lemma_digits_value_is_bounded(s.skip(1), radix, max);
}

proof fn lemma_digits_value_is_bounded(s: Seq<char>, radix: int, max: int)
    requires
        0 <= radix,
        0 <= max,
    ensures
        digits_value(s, radix, max) matches Ok(n) ==> 0 <= n <= max,
    decreases s.len(),
{
    if s.len() > 0 {
        lemma_digits_value_is_bounded(s.drop_last(), radix, max);
        if let Ok(front) = digits_value(s.drop_last(), radix, max) {
            assert(0 <= front * radix) by (nonlinear_arith)
                requires
                    0 <= front,
                    0 <= radix,
            ;
        }
    }
}

/// A number that is written in decimal is read back.
pub proof fn law_decimal_is_read_back(n: nat, max: int)
    requires
        n <= max,
    ensures
        number(decimal(n), 10, max) == Ok::<int, ParseIntError>(n as int),
{
    lemma_decimal_digits(n, max);
    lemma_decimal_starts_with_a_digit(n);
}

pub proof fn lemma_decimal_digits(n: nat, max: int)
    requires
        n <= max,
    ensures
        digits_value(decimal(n), 10, max) == Ok::<int, ParseIntError>(n as int),
    decreases n,
{
    if n < 10 {
        assert(decimal(n).drop_last() =~= Seq::empty());
        assert(digits_value(Seq::<char>::empty(), 10, max) == Ok::<int, ParseIntError>(0));
    } else {
        lemma_decimal_digits(n / 10, max);
        assert(decimal(n).drop_last() =~= decimal(n / 10));
    }
}

/// A number in decimal starts with a digit.
pub proof fn lemma_decimal_starts_with_a_digit(n: nat)
    ensures
        decimal(n).len() > 0,
        '0' <= decimal(n)[0] <= '9',
    decreases n,
{
    if n >= 10 {
        lemma_decimal_starts_with_a_digit(n / 10);
    }
}

/// The parts of `s` between the occurrences of `sep`, in order. There is one more of them than
/// there are occurrences.
pub open spec fn split(s: Seq<char>, sep: char) -> Seq<Seq<char>>
    decreases s.len(),
{
    if s.len() == 0 {
        seq![Seq::empty()]
    } else {
        let front = split(s.drop_last(), sep);
        if s.last() == sep {
            front.push(Seq::empty())
        } else {
            front.drop_last().push(front.last().push(s.last()))
        }
    }
}

proof fn lemma_split_not_empty(s: Seq<char>, sep: char)
    ensures
        split(s, sep).len() > 0,
    decreases s.len(),
{
    if s.len() > 0 {
        lemma_split_not_empty(s.drop_last(), sep);
    }
}

/// Splitting at the last separator.
pub proof fn lemma_split_last(front: Seq<char>, sep: char, last: Seq<char>)
    requires
        !last.contains(sep),
    ensures
        split(front.push(sep) + last, sep) == split(front, sep).push(last),
    decreases last.len(),
{
    let s = front.push(sep) + last;
    if last.len() == 0 {
        assert(s =~= front.push(sep));
        assert(s.drop_last() =~= front);
        assert(last =~= Seq::empty());
    } else {
        let shorter = last.drop_last();
        assert(!shorter.contains(sep)) by {
            if shorter.contains(sep) {
                let i = choose|i: int| 0 <= i < shorter.len() && shorter[i] == sep;
                assert(last[i] == sep);
            }
        }
        lemma_split_last(front, sep, shorter);
        assert(s.drop_last() =~= front.push(sep) + shorter);
        assert(s.last() == last.last());
        assert(last[last.len() - 1] != sep);
        assert(shorter.push(last.last()) =~= last);
        assert(split(front, sep).push(shorter).drop_last() =~= split(front, sep));
    }
}

/// A text without a separator is not split.
pub proof fn lemma_split_whole(s: Seq<char>, sep: char)
    requires
        !s.contains(sep),
    ensures
        split(s, sep) == seq![s],
    decreases s.len(),
{
    if s.len() > 0 {
        let shorter = s.drop_last();
        assert(!shorter.contains(sep)) by {
            if shorter.contains(sep) {
                let i = choose|i: int| 0 <= i < shorter.len() && shorter[i] == sep;
                assert(s[i] == sep);
            }
        }
        lemma_split_whole(shorter, sep);
        assert(s[s.len() - 1] != sep);
        assert(seq![shorter].drop_last() =~= Seq::empty());
        assert(shorter.push(s.last()) =~= s);
        assert(split(s, sep) =~= seq![s]);
    } else {
        assert(s =~= Seq::empty());
    }
}

/// Splits a text at each occurrence of `sep`.
pub fn split_text(s: &str, sep: char) -> (pieces: Vec<String>)
    ensures
        texts(pieces@) == split(s@, sep),
{
    let chars = to_chars(s);
    let mut pieces: Vec<String> = Vec::new();
    let mut start: usize = 0;
    let mut i: usize = 0;
    assert(texts(pieces@).push(s@.subrange(0, 0)) =~= split(s@.take(0), sep)) by {
        assert(s@.take(0) =~= Seq::empty());
        assert(s@.subrange(0, 0) =~= Seq::empty());
    }
    while i < chars.len()
        invariant
            chars@ == s@,
            start <= i <= chars@.len(),
            texts(pieces@).push(s@.subrange(start as int, i as int)) == split(
                s@.take(i as int),
                sep,
            ),
        decreases chars@.len() - i,
    {
        let ghost before = split(s@.take(i as int), sep);
        let ghost current = s@.subrange(start as int, i as int);
        assert(s@.take(i + 1).drop_last() =~= s@.take(i as int));
        assert(s@.take(i + 1).last() == s@[i as int]);
        assert(before.drop_last() =~= texts(pieces@));
        assert(before.last() == current);
        if chars[i] == sep {
            let ghost done = texts(pieces@);
            pieces.push(s.substring_char(start, i).to_owned());
            start = i + 1;
            assert(texts(pieces@) =~= done.push(current));
            assert(s@.subrange(i + 1, i + 1) =~= Seq::empty());
        } else {
            assert(s@.subrange(start as int, i + 1) =~= current.push(s@[i as int]));
        }
        i = i + 1;
    }
    assert(s@.take(i as int) =~= s@);
    let ghost done = texts(pieces@);
    pieces.push(s.substring_char(start, i).to_owned());
    assert(texts(pieces@) =~= done.push(s@.subrange(start as int, i as int)));
    pieces
}

/// Space, tab, line feed, form feed and carriage return.
pub open spec fn is_blank(c: char) -> bool {
    c == ' ' || c == '\t' || c == '\n' || c == '\x0C' || c == '\r'
}

/// The words of `s` that are complete, and the one that `s` ends in, if it does not end in a
/// blank.
pub open spec fn words_and_rest(s: Seq<char>) -> (Seq<Seq<char>>, Seq<char>)
    decreases s.len(),
{
    if s.len() == 0 {
        (Seq::empty(), Seq::empty())
    } else {
        let (done, rest) = words_and_rest(s.drop_last());
        if !is_blank(s.last()) {
            (done, rest.push(s.last()))
        } else if rest.len() > 0 {
            (done.push(rest), Seq::empty())
        } else {
            (done, rest)
        }
    }
}

/// The longest runs of characters of `s` that are not blank, in order.
pub open spec fn words(s: Seq<char>) -> Seq<Seq<char>> {
    let (done, rest) = words_and_rest(s);
    if rest.len() > 0 {
        done.push(rest)
    } else {
        done
    }
}

/// Takes a line apart into its words.
pub fn split_words(s: &str) -> (out: Vec<String>)
    ensures
        texts(out@) == words(s@),
{
    let chars = to_chars(s);
    let mut out: Vec<String> = Vec::new();
    let mut start: usize = 0;
    let mut i: usize = 0;
    assert(s@.take(0) =~= Seq::empty());
    assert(s@.subrange(0, 0) =~= Seq::empty());
    assert(texts(out@) =~= Seq::empty());
    while i < chars.len()
        invariant
            chars@ == s@,
            start <= i <= chars@.len(),
            words_and_rest(s@.take(i as int)) == (
                texts(out@),
                s@.subrange(start as int, i as int),
            ),
        decreases chars@.len() - i,
    {
        let ghost done = texts(out@);
        let ghost rest = s@.subrange(start as int, i as int);
        assert(s@.take(i + 1).drop_last() =~= s@.take(i as int));
        assert(s@.take(i + 1).last() == s@[i as int]);
        let c = chars[i];
        if c == ' ' || c == '\t' || c == '\n' || c == '\x0C' || c == '\r' {
            if start < i {
                out.push(s.substring_char(start, i).to_owned());
                assert(texts(out@) =~= done.push(rest));
            }
            start = i + 1;
            assert(s@.subrange(i + 1, i + 1) =~= Seq::empty());
            assert(rest.len() == 0 ==> rest =~= Seq::empty());
        } else {
            assert(s@.subrange(start as int, i + 1) =~= rest.push(s@[i as int]));
        }
        i = i + 1;
    }
    assert(s@.take(i as int) =~= s@);
    let ghost done = texts(out@);
    if start < i {
        out.push(s.substring_char(start, i).to_owned());
        assert(texts(out@) =~= done.push(s@.subrange(start as int, i as int)));
    }
    out
}

/// The number of lines of `s`. A line feed at the end does not start another line.
pub open spec fn line_count(s: Seq<char>) -> nat
    decreases s.len(),
{
    if s.len() == 0 {
        0
    } else if s.len() == 1 || s[s.len() - 2] == '\n' {
        line_count(s.drop_last()) + 1
    } else {
        line_count(s.drop_last())
    }
}

/// Counts the lines of a text.
pub fn count_lines(s: &str) -> (n: usize)
    ensures
        n == line_count(s@),
{
    let chars = to_chars(s);
    let mut n: usize = 0;
    let mut i: usize = 0;
    while i < chars.len()
        invariant
            chars@ == s@,
            n <= i <= chars@.len(),
            n == line_count(s@.take(i as int)),
        decreases chars@.len() - i,
    {
        assert(s@.take(i + 1).drop_last() =~= s@.take(i as int));
        if i == 0 || chars[i - 1] == '\n' {
            n = n + 1;
        }
        i = i + 1;
    }
    assert(s@.take(i as int) =~= s@);
    n
}

} // verus!
