//! Decimal text: serialised programs as a file holds them, the integers
//! that a program reads, and what a program writes.

use crate::error::Error;
use crate::vm::Output;
use vstd::prelude::*;

verus! {

/// The character of the digit `d`.
pub open spec fn digit(d: int) -> u8 {
    (48 + d) as u8
}

/// Whether `b` is one of the characters `0` to `9`.
pub open spec fn is_digit(b: u8) -> bool {
    48 <= b <= 57
}

/// Whether `b` is a blank: a space, a tab, a line feed, a vertical tab, a
/// form feed or a carriage return.
pub open spec fn is_space(b: u8) -> bool {
    b == 32 || (9 <= b && b <= 13)
}

/// The digits of `n` in decimal, without leading zeros.
pub open spec fn decimal(n: nat) -> Seq<u8>
    decreases n,
{
    if n < 10 {
        seq![digit(n as int)]
    } else {
        decimal(n / 10).push(digit((n % 10) as int))
    }
}

/// The number that a sequence of digits stands for in decimal.
pub open spec fn value(digits: Seq<u8>) -> nat
    decreases digits.len(),
{
    if digits.len() == 0 {
        0
    } else {
        (value(digits.drop_last()) * 10 + (digits.last() - 48)) as nat
    }
}

/// The text of a serialised program: each word in decimal, followed by a space.
pub open spec fn words_text(words: Seq<usize>) -> Seq<u8>
    decreases words.len(),
{
    if words.len() == 0 {
        Seq::empty()
    } else {
        decimal(words.first() as nat).push(32u8) + words_text(words.drop_first())
    }
}

/// The first index from `from` on at which `text` holds no blank.
pub open spec fn blanks_end(text: Seq<u8>, from: nat) -> nat
    decreases text.len() - from,
{
    if from >= text.len() || !is_space(text[from as int]) {
        from
    } else {
        blanks_end(text, from + 1)
    }
}

/// The first index from `from` on at which `text` holds no digit.
pub open spec fn digits_end(text: Seq<u8>, from: nat) -> nat
    decreases text.len() - from,
{
    if from >= text.len() || !is_digit(text[from as int]) {
        from
    } else {
        digits_end(text, from + 1)
    }
}

/// Where blanks and digits end.
pub proof fn lemma_ends(text: Seq<u8>, from: nat)
    requires
        from <= text.len(),
    ensures
        from <= blanks_end(text, from) <= text.len(),
        from <= digits_end(text, from) <= text.len(),
        blanks_end(text, from) < text.len() ==> !is_space(text[blanks_end(text, from) as int]),
    decreases text.len() - from,
{
    if from < text.len() {
        lemma_ends(text, from + 1);
    }
}

/// The words that `text` holds from index `from` on: decimal numbers that
/// fit the machine word, with blanks between and around them. Where the
/// text holds anything else, the index at which that starts.
pub open spec fn words_from(text: Seq<u8>, from: nat) -> Result<Seq<usize>, usize>
    decreases text.len() - from,
{
    let start = blanks_end(text, from);
    let end = digits_end(text, start);
    if from > text.len() || start >= text.len() {
        Ok(Seq::empty())
    } else if end == start || (end < text.len() && !is_space(text[end as int])) || value(
        text.subrange(start as int, end as int),
    ) > usize::MAX {
        Err(start as usize)
    } else {
        proof {
            lemma_ends(text, from);
            lemma_ends(text, start);
        }
        match words_from(text, end) {
            Ok(rest) => Ok(seq![value(text.subrange(start as int, end as int)) as usize] + rest),
            Err(at) => Err(at),
        }
    }
}

/// The words that a text holds.
pub open spec fn text_words(text: Seq<u8>) -> Result<Seq<usize>, usize> {
    words_from(text, 0)
}

/// The text of a program with one more word.
pub proof fn lemma_words_text_push(words: Seq<usize>, word: usize)
    ensures
        words_text(words.push(word)) == words_text(words) + decimal(word as nat).push(32u8),
    decreases words.len(),
{
    let last = decimal(word as nat).push(32u8);
    if words.len() == 0 {
        assert(words.push(word).drop_first() =~= Seq::<usize>::empty());
        assert(words.push(word).first() == word);
        assert(words_text(Seq::<usize>::empty()) =~= Seq::<u8>::empty());
        assert(words_text(words.push(word)) =~= last + Seq::<u8>::empty());
        assert(words_text(words) + last =~= last);
        assert(last + Seq::<u8>::empty() =~= last);
    } else {
        lemma_words_text_push(words.drop_first(), word);
        assert(words.push(word).drop_first() =~= words.drop_first().push(word));
        assert(words.push(word).first() == words.first());
        assert(words_text(words.push(word)) =~= words_text(words) + last);
    }
}

/// Appends the decimal digits of `n`.
fn push_decimal(text: &mut Vec<u8>, n: usize)
    ensures
        final(text)@ == old(text)@ + decimal(n as nat),
    decreases n,
{
    if n >= 10 {
        push_decimal(text, n / 10);
    }
    let d: u8 = (n % 10) as u8;
    text.push(48 + d);
    proof {
        if n >= 10 {
            assert(text@ =~= old(text)@ + decimal((n / 10) as nat).push(digit((n % 10) as int)));
        } else {
            assert(text@ =~= old(text)@ + seq![digit(n as int)]);
        }
    }
}

/// Writes a serialised program as text: each word in decimal, followed by a space.
pub fn translate_to_text(words: &Vec<usize>) -> (text: Vec<u8>)
    ensures
        text@ == words_text(words@),
{
    let mut text: Vec<u8> = Vec::new();
    let mut i: usize = 0;
    while i < words.len()
        invariant
            i <= words.len(),
            text@ == words_text(words@.take(i as int)),
        decreases words.len() - i,
    {
        let ghost before = text@;
        push_decimal(&mut text, words[i]);
        text.push(32);
        proof {
            lemma_words_text_push(words@.take(i as int), words[i as int]);
            assert(words@.take(i as int).push(words[i as int]) =~= words@.take(i + 1));
            assert(text@ =~= before + decimal(words[i as int] as nat).push(32u8));
        }
        i = i + 1;
    }
    assert(words@.take(words.len() as int) =~= words@);
    text
}


/// Whether `b` is a blank.
fn blank(b: u8) -> (r: bool)
    ensures
        r == is_space(b),
{
    b == 32 || (9 <= b && b <= 13)
}

/// The first index from `from` on at which `text` holds no blank.
fn skip_blanks(text: &Vec<u8>, from: usize) -> (start: usize)
    requires
        from <= text.len(),
    ensures
        start == blanks_end(text@, from as nat),
        from <= start <= text.len(),
{
    let mut i = from;
    while i < text.len() && blank(text[i])
        invariant
            from <= i <= text.len(),
            blanks_end(text@, from as nat) == blanks_end(text@, i as nat),
        decreases text.len() - i,
    {
        i = i + 1;
    }
    i
}

/// The number that `digits` with one more digit stands for.
proof fn lemma_value_push(digits: Seq<u8>, d: u8)
    requires
        is_digit(d),
    ensures
        value(digits.push(d)) == value(digits) * 10 + (d - 48),
{
    assert(digits.push(d).drop_last() =~= digits);
}

/// Reads the digits from `start` on: the index at which they end, and the
/// number they stand for if it fits the machine word.
fn read_digits(text: &Vec<u8>, start: usize) -> (r: (usize, Option<usize>))
    requires
        start <= text.len(),
    ensures
        r.0 == digits_end(text@, start as nat),
        start <= r.0 <= text.len(),
        r.1 == if value(text@.subrange(start as int, r.0 as int)) <= usize::MAX {
            Some(value(text@.subrange(start as int, r.0 as int)) as usize)
        } else {
            None
        },
{
    let mut i = start;
    let mut acc: Option<usize> = Some(0);
    assert(text@.subrange(start as int, start as int) =~= Seq::<u8>::empty());
    while i < text.len() && 48 <= text[i] && text[i] <= 57
        invariant
            start <= i <= text.len(),
            digits_end(text@, start as nat) == digits_end(text@, i as nat),
            acc == if value(text@.subrange(start as int, i as int)) <= usize::MAX {
                Some(value(text@.subrange(start as int, i as int)) as usize)
            } else {
                None
            },
        decreases text.len() - i,
    {
        let d = (text[i] - 48) as usize;
        proof {
            let sofar = text@.subrange(start as int, i as int);
            lemma_value_push(sofar, text@[i as int]);
            assert(sofar.push(text@[i as int]) =~= text@.subrange(start as int, i + 1));
            assert(value(sofar) * 10 + d >= value(sofar)) by (nonlinear_arith)
                requires
                    value(sofar) >= 0,
                    d >= 0,
            ;
        }
        acc = match acc {
            None => None,
            Some(a) => match a.checked_mul(10) {
                None => None,
                Some(b) => b.checked_add(d),
            },
        };
        i = i + 1;
    }
    (i, acc)
}

/// Reads a serialised program from its text: decimal numbers with blanks
/// between and around them.
///
/// Fails where the text holds anything but digits and blanks, or a number
/// that does not fit the machine word, and reports the index at which that
/// starts.
pub fn translate_from_text(text: &Vec<u8>) -> (r: Result<Vec<usize>, Error>)
    ensures
        match text_words(text@) {
            Ok(words) => r matches Ok(v) && v@ == words,
            Err(at) => r matches Err(Error::TextError(p)) && p == at,
        },
{
    let mut words: Vec<usize> = Vec::new();
    let mut pos: usize = 0;
    let len = text.len();
    loop
        invariant
            pos <= len,
            len == text.len(),
            text_words(text@) == match words_from(text@, pos as nat) {
                Ok(rest) => Ok::<Seq<usize>, usize>(words@ + rest),
                Err(at) => Err(at),
            },
        decreases len - pos,
    {
        let start = skip_blanks(text, pos);
        if start >= len {
            proof {
                assert(words@ + Seq::<usize>::empty() =~= words@);
            }
            return Ok(words);
        }
        let (end, number) = read_digits(text, start);
        if end == start || (end < len && !blank(text[end])) {
            return Err(Error::TextError(start));
        }
        match number {
            None => {
                return Err(Error::TextError(start));
            },
            Some(word) => {
                proof {
                    if let Ok(rest) = words_from(text@, end as nat) {
                        assert(words@.push(word) + rest =~= words@ + (seq![word] + rest));
                    }
                }
                words.push(word);
                pos = end;
            },
        }
    }
}


/// The decimal digits of a number are digits, at least one, and stand for the number.
pub proof fn lemma_decimal(n: nat)
    ensures
        decimal(n).len() >= 1,
        forall|i: int| 0 <= i < decimal(n).len() ==> is_digit(#[trigger] decimal(n)[i]),
        value(decimal(n)) == n,
    decreases n,
{
    if n < 10 {
        assert(decimal(n).drop_last() =~= Seq::<u8>::empty());
        assert(value(decimal(n).drop_last()) == 0);
    } else {
        lemma_decimal(n / 10);
        lemma_value_push(decimal(n / 10), digit((n % 10) as int));
    }
}

/// Where a run of `k` digits ends.
proof fn lemma_digits_run(text: Seq<u8>, from: nat, k: nat)
    requires
        from + k <= text.len(),
        forall|j: int| from <= j < from + k ==> is_digit(#[trigger] text[j]),
        from + k < text.len() ==> !is_digit(text[from as int + k]),
    ensures
        digits_end(text, from) == from + k,
    decreases k,
{
    if k > 0 {
        lemma_digits_run(text, from + 1, (k - 1) as nat);
    }
}

/// A blank before the words changes nothing.
proof fn lemma_skip_blank(text: Seq<u8>, from: nat)
    requires
        from < text.len(),
        is_space(text[from as int]),
    ensures
        words_from(text, from) == words_from(text, from + 1),
{
    lemma_ends(text, from + 1);
}

/// Reading the text `before + words_text(words)` from the end of `before` gives `words`.
proof fn lemma_words_from_text(before: Seq<u8>, words: Seq<usize>)
    ensures
        words_from(before + words_text(words), before.len()) == Ok::<Seq<usize>, usize>(words),
    decreases words.len(),
{
    let text = before + words_text(words);
    let from = before.len();
    if words.len() == 0 {
        assert(text =~= before);
        assert(words =~= Seq::<usize>::empty());
    } else {
        let digits = decimal(words.first() as nat);
        let head = digits.push(32u8);
        let rest = words.drop_first();
        lemma_decimal(words.first() as nat);
        assert(text =~= (before + head) + words_text(rest));
        lemma_words_from_text(before + head, rest);
        let end = from + digits.len();
        assert forall|j: int| from <= j < end implies is_digit(#[trigger] text[j]) by {
            assert(text[j] == digits[j - from]);
        }
        assert(text[end as int] == 32u8);
        lemma_digits_run(text, from, digits.len());
        assert(text[from as int] == digits[0]);
        assert(blanks_end(text, from) == from);
        assert(text.subrange(from as int, end as int) =~= digits);
        lemma_skip_blank(text, end);
        assert(seq![words.first()] + rest =~= words);
    }
}

/// Reading what was written gives back the words.
pub proof fn lemma_text_round_trip(words: Seq<usize>)
    ensures
        text_words(words_text(words)) == Ok::<Seq<usize>, usize>(words),
{
    lemma_words_from_text(Seq::empty(), words);
    assert(Seq::<u8>::empty() + words_text(words) =~= words_text(words));
}


/// The text of an integer: its digits in decimal, after a minus sign where
/// it is negative.
pub open spec fn int_text(v: i32) -> Seq<u8> {
    if v < 0 {
        seq![45u8] + decimal((-(v as int)) as nat)
    } else {
        decimal(v as nat)
    }
}

/// The text of what a program wrote: each integer in decimal, each line
/// break as a line feed.
pub open spec fn output_text(output: Seq<Output>) -> Seq<u8>
    decreases output.len(),
{
    if output.len() == 0 {
        Seq::empty()
    } else {
        output_text(output.drop_last()) + match output.last() {
            Output::Item(v) => int_text(v),
            Output::Newline => seq![10u8],
        }
    }
}

/// The integer that a line of input holds: a decimal number that fits 32
/// bits, with or without a sign before it and with blanks around it;
/// `None` for any other line.
pub open spec fn line_int(line: Seq<u8>) -> Option<i32> {
    let start = blanks_end(line, 0);
    let minus = start < line.len() && line[start as int] == 45;
    let plus = start < line.len() && line[start as int] == 43;
    let first = if minus || plus {
        start + 1
    } else {
        start
    };
    let end = digits_end(line, first);
    let magnitude = value(line.subrange(first as int, end as int));
    let number = if minus {
        -magnitude
    } else {
        magnitude as int
    };
    if end <= first || blanks_end(line, end) < line.len() || number < i32::MIN || number
        > i32::MAX {
        None
    } else {
        Some(number as i32)
    }
}

/// Writes an integer in decimal.
pub fn int_to_text(v: i32) -> (text: Vec<u8>)
    ensures
        text@ == int_text(v),
{
    let mut text: Vec<u8> = Vec::new();
    if v < 0 {
        text.push(45);
        let magnitude: usize = if v == i32::MIN {
            2147483648
        } else {
            (-v) as usize
        };
        push_decimal(&mut text, magnitude);
    } else {
        push_decimal(&mut text, v as usize);
        assert(text@ =~= decimal(v as nat));
    }
    text
}

/// Writes what a program wrote as text.
pub fn render(output: &Vec<Output>) -> (text: Vec<u8>)
    ensures
        text@ == output_text(output@),
{
    let mut text: Vec<u8> = Vec::new();
    let mut i: usize = 0;
    while i < output.len()
        invariant
            i <= output.len(),
            text@ == output_text(output@.take(i as int)),
        decreases output.len() - i,
    {
        let ghost before = text@;
        match output[i] {
            Output::Item(v) => {
                let mut item = int_to_text(v);
                text.append(&mut item);
            },
            Output::Newline => {
                text.push(10);
            },
        }
        proof {
            let upto = output@.take(i + 1);
            assert(upto.drop_last() =~= output@.take(i as int));
            assert(upto.last() == output[i as int]);
            assert(text@ =~= before + match output[i as int] {
                Output::Item(v) => int_text(v),
                Output::Newline => seq![10u8],
            });
        }
        i = i + 1;
    }
    assert(output@.take(output.len() as int) =~= output@);
    text
}

/// Reads the integer that a line of input holds.
pub fn parse_int(line: &Vec<u8>) -> (r: Option<i32>)
    ensures
        r == line_int(line@),
{
    let len = line.len();
    let start = skip_blanks(line, 0);
    let minus = start < len && line[start] == 45;
    let plus = start < len && line[start] == 43;
    let first = if minus || plus {
        start + 1
    } else {
        start
    };
    let (end, magnitude) = read_digits(line, first);
    if end <= first {
        return None;
    }
    if skip_blanks(line, end) < len {
        return None;
    }
    match magnitude {
        None => None,
        Some(m) => {
            if minus {
                if m > 2147483648 {
                    None
                } else if m == 2147483648 {
                    Some(i32::MIN)
                } else {
                    Some(-(m as i32))
                }
            } else if m > 2147483647 {
                None
            } else {
                Some(m as i32)
            }
        },
    }
}


/// An integer that a program wrote can be read back.
pub proof fn lemma_int_round_trip(v: i32)
    ensures
        line_int(int_text(v)) == Some(v),
{
    let text = int_text(v);
    let magnitude = if v < 0 {
        (-(v as int)) as nat
    } else {
        v as nat
    };
    let digits = decimal(magnitude);
    let first: nat = if v < 0 {
        1
    } else {
        0
    };
    lemma_decimal(magnitude);
    assert(text.len() == first + digits.len());
    assert forall|j: int| first <= j < text.len() implies is_digit(#[trigger] text[j]) by {
        assert(text[j] == digits[j - first]);
    }
    lemma_digits_run(text, first, digits.len());
    assert(text.subrange(first as int, text.len() as int) =~= digits);
    assert(blanks_end(text, 0) == 0);
    assert(blanks_end(text, text.len()) == text.len());
}

} // verus!
