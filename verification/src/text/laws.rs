//! What holds of text that is taken apart, and of numbers that are read.

use crate::text::{
    decimal, digit, digit_value, digits_value, is_blank, line_count, number, split, words,
    words_and_rest, ParseIntError,
};
use vstd::prelude::*;

verus! {

/// Pieces with a separator between each two of them.
pub open spec fn joined(pieces: Seq<Seq<char>>, sep: char) -> Seq<char>
    decreases pieces.len(),
{
    if pieces.len() <= 1 {
        pieces[0]
    } else {
        joined(pieces.drop_last(), sep).push(sep) + pieces.last()
    }
}

/// The pieces that a text is split into make up the text again, and hold no separator.
pub proof fn law_split_pieces_make_up_the_text(s: Seq<char>, sep: char)
    ensures
        split(s, sep).len() > 0,
        joined(split(s, sep), sep) == s,
        forall|i: int|
            0 <= i < split(s, sep).len() ==> !(#[trigger] split(s, sep)[i]).contains(sep),
    decreases s.len(),
{
    let pieces = split(s, sep);
    if s.len() == 0 {
        assert(s =~= Seq::empty());
        assert(!Seq::<char>::empty().contains(sep));
    } else {
        let front = split(s.drop_last(), sep);
        law_split_pieces_make_up_the_text(s.drop_last(), sep);
        if s.last() == sep {
            assert(pieces.drop_last() =~= front);
            assert(joined(pieces, sep) =~= s);
            assert(!Seq::<char>::empty().contains(sep));
        } else {
            assert(pieces.drop_last() =~= front.drop_last());
            let last = front.last().push(s.last());
            assert(front.last() == front[front.len() - 1]);
            assert(!last.contains(sep)) by {
                if last.contains(sep) {
                    let k = choose|k: int| 0 <= k < last.len() && last[k] == sep;
                    assert(front.last()[k] == sep);
                }
            }
            assert(pieces.last() == last);
            if front.len() == 1 {
                assert(joined(pieces, sep) =~= s);
            } else {
                let head = joined(front.drop_last(), sep).push(sep);
                assert(s.drop_last() == head + front.last());
                assert(s =~= s.drop_last().push(s.last()));
                assert(head + last =~= (head + front.last()).push(s.last()));
            }
        }
    }
}

/// A blank ends a word: what stands before it and what stands behind it is taken apart by itself.
/// Blanks are spaces, tabs, line feeds, form feeds and carriage returns.
pub proof fn law_blanks_part_words(before: Seq<char>, blank: char, after: Seq<char>)
    requires
        blank == ' ' || blank == '\t' || blank == '\n' || blank == '\x0C' || blank == '\r',
    ensures
        words(before.push(blank) + after) == words(before) + words(after),
{
    lemma_words_after_a_blank(before, blank, after);
    let (done, rest) = words_and_rest(after);
    if rest.len() > 0 {
        assert((words(before) + done).push(rest) =~= words(before) + done.push(rest));
    }
}

proof fn lemma_words_after_a_blank(before: Seq<char>, blank: char, after: Seq<char>)
    requires
        is_blank(blank),
    ensures
        words_and_rest(before.push(blank) + after) == (
            words(before) + words_and_rest(after).0,
            words_and_rest(after).1,
        ),
    decreases after.len(),
{
    let s = before.push(blank) + after;
    if after.len() == 0 {
        assert(s =~= before.push(blank));
        assert(s.drop_last() =~= before);
        let (done, rest) = words_and_rest(before);
        assert(rest.len() == 0 ==> rest =~= Seq::empty());
        assert(words(before) + Seq::<Seq<char>>::empty() =~= words(before));
    } else {
        lemma_words_after_a_blank(before, blank, after.drop_last());
        assert(s.drop_last() =~= before.push(blank) + after.drop_last());
        let (done, rest) = words_and_rest(after.drop_last());
        assert(words(before) + done.push(rest) =~= (words(before) + done).push(rest));
    }
}

/// A text without blanks is one word, and without anything it is none.
pub proof fn law_what_a_word_is(s: Seq<char>)
    requires
        forall|i: int|
            0 <= i < s.len() ==> #[trigger] s[i] != ' ' && s[i] != '\t' && s[i] != '\n' && s[i]
                != '\x0C' && s[i] != '\r',
    ensures
        words(s) == (if s.len() == 0 {
            Seq::empty()
        } else {
            seq![s]
        }),
{
    lemma_no_blank(s);
    assert(Seq::<Seq<char>>::empty().push(s) =~= seq![s]);
}

proof fn lemma_no_blank(s: Seq<char>)
    requires
        forall|i: int| 0 <= i < s.len() ==> !is_blank(#[trigger] s[i]),
    ensures
        words_and_rest(s) == (Seq::<Seq<char>>::empty(), s),
    decreases s.len(),
{
    if s.len() > 0 {
        let front = s.drop_last();
        assert forall|i: int| 0 <= i < front.len() implies !is_blank(#[trigger] front[i]) by {
            assert(front[i] == s[i]);
        }
        lemma_no_blank(front);
        assert(s.last() == s[s.len() - 1]);
        assert(front.push(s.last()) =~= s);
    } else {
        assert(s =~= Seq::empty());
    }
}

/// What the signs of numbers stand for.
pub proof fn law_what_digits_stand_for(c: char)
    ensures
        '0' <= c <= '9' ==> digit_value(c, 10) == Some(c as int - '0' as int) && digit_value(c, 16)
            == Some(c as int - '0' as int),
        'a' <= c <= 'f' ==> digit_value(c, 10) is None && digit_value(c, 16) == Some(
            c as int - 'a' as int + 10,
        ),
        'A' <= c <= 'F' ==> digit_value(c, 10) is None && digit_value(c, 16) == Some(
            c as int - 'A' as int + 10,
        ),
        !('0' <= c <= '9') && !('a' <= c <= 'f') && !('A' <= c <= 'F') ==> digit_value(c, 10)
            is None && digit_value(c, 16) is None,
{
}

/// How numbers are read: each further digit multiplies what stands before it by the radix. What
/// comes first of a sign that is no digit and a number that is too large is the error.
pub proof fn law_numbers_are_positional(s: Seq<char>, c: char, radix: int, max: int)
    ensures
        digits_value(Seq::empty(), radix, max) == Ok::<int, ParseIntError>(0),
        match digits_value(s, radix, max) {
            Ok(value) => digits_value(s.push(c), radix, max) == (match digit_value(c, radix) {
                Some(d) => if value * radix + d <= max {
                    Ok(value * radix + d)
                } else {
                    Err(ParseIntError::PosOverflow)
                },
                None => Err(ParseIntError::InvalidDigit),
            }),
            Err(e) => digits_value(s.push(c), radix, max) == Err::<int, ParseIntError>(e),
        },
{
    assert(s.push(c).drop_last() =~= s);
}

/// A plus sign before a number changes nothing. Alone it is no number, and nor is nothing.
pub proof fn law_a_plus_sign_changes_nothing(s: Seq<char>, radix: int, max: int)
    requires
        s.len() > 0,
        s[0] != '+',
    ensures
        number(s, radix, max) == digits_value(s, radix, max),
        number(seq!['+'] + s, radix, max) == digits_value(s, radix, max),
        number(seq!['+'], radix, max) == Err::<int, ParseIntError>(ParseIntError::InvalidDigit),
        number(Seq::empty(), radix, max) == Err::<int, ParseIntError>(ParseIntError::Empty),
{
    assert((seq!['+'] + s).skip(1) =~= s);
}

/// The digit that stands for what a sign stands for is the sign.
pub proof fn lemma_digit(c: char)
    requires
        '0' <= c <= '9',
    ensures
        digit(c as int - '0' as int) == c,
{
    let d = c as int - '0' as int;
    assert(d == 0 || d == 1 || d == 2 || d == 3 || d == 4 || d == 5 || d == 6 || d == 7 || d == 8
        || d == 9);
}

/// A number that is written with digits alone, and without a needless zero at its start, is
/// written in decimal.
pub proof fn law_a_number_has_one_notation(s: Seq<char>, max: int)
    requires
        0 <= max,
        s.len() > 0,
        s.len() > 1 ==> s[0] != '0',
        digits_value(s, 10, max) is Ok,
    ensures
        0 <= digits_value(s, 10, max)->Ok_0 <= max,
        decimal(digits_value(s, 10, max)->Ok_0 as nat) == s,
        s.len() > 1 ==> digits_value(s, 10, max)->Ok_0 >= 10,
        s.len() == 1 && s[0] != '0' ==> digits_value(s, 10, max)->Ok_0 > 0,
    decreases s.len(),
{
    let front = s.drop_last();
    let c = s.last();
    let d = c as int - '0' as int;
    let value = digits_value(s, 10, max)->Ok_0;
    assert(front.push(c) =~= s);
    lemma_digit(c);
    if front.len() == 0 {
        assert(front =~= Seq::empty());
        assert(digits_value(front, 10, max) == Ok::<int, ParseIntError>(0));
        assert(value == d);
        assert(decimal(d as nat) =~= s);
    } else {
        assert(front[0] == s[0]);
        law_a_number_has_one_notation(front, max);
        let before = digits_value(front, 10, max)->Ok_0;
        assert(before > 0);
        assert(value == before * 10 + d);
        assert(value / 10 == before && value % 10 == d);
        assert(decimal(value as nat) =~= s);
    }
}

/// How lines are counted: a line feed ends a line, and what stands behind it is counted by itself.
pub proof fn law_line_feeds_end_lines(line: Seq<char>, rest: Seq<char>)
    requires
        !line.contains('\n'),
    ensures
        line_count(Seq::empty()) == 0,
        line.len() > 0 ==> line_count(line) == 1,
        line_count(line.push('\n')) == 1,
        line_count(line.push('\n') + rest) == 1 + line_count(rest),
{
    lemma_one_line(line);
    let ended = line.push('\n');
    assert(ended.drop_last() =~= line);
    if line.len() > 0 {
        assert(line.contains(line[line.len() - 1]));
        assert(ended[ended.len() - 2] == line[line.len() - 1]);
    }
    lemma_lines_after(ended, rest);
}

proof fn lemma_one_line(line: Seq<char>)
    requires
        !line.contains('\n'),
    ensures
        line_count(line) == (if line.len() > 0 {
            1nat
        } else {
            0
        }),
    decreases line.len(),
{
    if line.len() > 0 {
        let front = line.drop_last();
        assert(!front.contains('\n')) by {
            if front.contains('\n') {
                let k = choose|k: int| 0 <= k < front.len() && front[k] == '\n';
                assert(line[k] == '\n');
            }
        }
        lemma_one_line(front);
        if line.len() > 1 {
            assert(line.contains(line[line.len() - 2]));
        }
    }
}

proof fn lemma_lines_after(ended: Seq<char>, rest: Seq<char>)
    requires
        ended.len() > 0,
        ended.last() == '\n',
    ensures
        line_count(ended + rest) == line_count(ended) + line_count(rest),
    decreases rest.len(),
{
    let s = ended + rest;
    if rest.len() == 0 {
        assert(s =~= ended);
    } else {
        lemma_lines_after(ended, rest.drop_last());
        assert(s.drop_last() =~= ended + rest.drop_last());
    }
}

} // verus!
