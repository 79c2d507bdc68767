//! How a coordinate is written: a decimal number with an optional sign,
//! fraction and exponent, or one of the words `inf`, `infinity` and `nan`.

use crate::text::Span;
use crate::text::is_digit;
use vstd::prelude::*;

verus! {

/// The minus sign.
pub const MINUS: u8 = 45;

/// The dot.
pub const DOT: u8 = 46;

/// The letter `A`.
pub const UPPER_A: u8 = 65;

/// The letter `Z`.
pub const UPPER_Z: u8 = 90;

/// The letter `a`.
pub const LOWER_A: u8 = 97;

/// The letter `e`.
pub const LOWER_E: u8 = 101;

/// The letter `f`.
pub const LOWER_F: u8 = 102;

/// The letter `i`.
pub const LOWER_I: u8 = 105;

/// The letter `n`.
pub const LOWER_N: u8 = 110;

/// The letter `t`.
pub const LOWER_T: u8 = 116;

/// The letter `y`.
pub const LOWER_Y: u8 = 121;

/// The plus and the minus sign.
pub open spec fn is_sign(b: u8) -> bool {
    b == crate::text::PLUS || b == MINUS
}

/// A capital letter as its small letter; any other byte as it is.
pub open spec fn lower(b: u8) -> u8 {
    if UPPER_A <= b <= UPPER_Z {
        (b + 32) as u8
    } else {
        b
    }
}

/// The number of digits that stand in `s` from place `i` on, one after
/// another.
pub open spec fn digit_run(s: Seq<u8>, i: int) -> nat
    decreases s.len() - i,
{
    if 0 <= i < s.len() && is_digit(s[i]) {
        1 + digit_run(s, i + 1)
    } else {
        0
    }
}

/// `s` is `word`, whatever the case of its letters.
pub open spec fn is_word(s: Seq<u8>, word: Seq<u8>) -> bool {
    &&& s.len() == word.len()
    &&& forall|i: int| 0 <= i < s.len() ==> lower(#[trigger] s[i]) == word[i]
}

/// The word `inf`.
pub open spec fn inf() -> Seq<u8> {
    seq![LOWER_I, LOWER_N, LOWER_F]
}

/// The word `infinity`.
pub open spec fn infinity() -> Seq<u8> {
    seq![LOWER_I, LOWER_N, LOWER_F, LOWER_I, LOWER_N, LOWER_I, LOWER_T, LOWER_Y]
}

/// The word `nan`.
pub open spec fn nan() -> Seq<u8> {
    seq![LOWER_N, LOWER_A, LOWER_N]
}

/// From place `i` to its end, `s` is an exponent: the letter `e`, an optional
/// sign, and one or more digits.
pub open spec fn is_exponent(s: Seq<u8>, i: int) -> bool {
    let digits = if i + 1 < s.len() && is_sign(s[i + 1]) {
        i + 2
    } else {
        i + 1
    };
    &&& 0 <= i < s.len()
    &&& lower(s[i]) == LOWER_E
    &&& digit_run(s, digits) >= 1
    &&& digits + digit_run(s, digits) == s.len()
}

/// `s` is a number without sign: digits, optionally a dot and more digits,
/// with at least one digit before or after the dot, and optionally an exponent.
pub open spec fn is_plain_number(s: Seq<u8>) -> bool {
    let whole = digit_run(s, 0) as int;
    let dotted = whole < s.len() && s[whole] == DOT;
    let fraction = if dotted {
        digit_run(s, whole + 1) as int
    } else {
        0
    };
    let after = if dotted {
        whole + 1 + fraction
    } else {
        whole
    };
    &&& whole + fraction >= 1
    &&& (after == s.len() || is_exponent(s, after))
}

/// What may follow the sign of a coordinate.
pub open spec fn writes_magnitude(s: Seq<u8>) -> bool {
    is_plain_number(s) || is_word(s, inf()) || is_word(s, infinity()) || is_word(s, nan())
}

/// `s` is a coordinate as a mesh text writes it.
pub open spec fn writes_coordinate(s: Seq<u8>) -> bool {
    if s.len() > 0 && is_sign(s[0]) {
        writes_magnitude(s.skip(1))
    } else {
        writes_magnitude(s)
    }
}

/// Turns a capital letter into its small letter.
fn to_lower(b: u8) -> (r: u8)
    ensures
        r == lower(b),
{
    if UPPER_A <= b && b <= UPPER_Z {
        b + 32
    } else {
        b
    }
}

/// Skips the digits that stand in `text` from `i` on, before `end`.
fn skip_digits(text: &[u8], from: usize, i: usize, end: usize) -> (stop: usize)
    requires
        from <= i <= end <= text.len(),
    ensures
        i <= stop <= end,
        stop == i + digit_run(text@.subrange(from as int, end as int), i - from),
{
    let ghost s = text@.subrange(from as int, end as int);
    let mut j = i;
    while j < end && crate::text::ZERO <= text[j] && text[j] <= crate::text::NINE
        invariant
            from <= i <= j <= end <= text.len(),
            s == text@.subrange(from as int, end as int),
            digit_run(s, i - from) == (j - i) + digit_run(s, j - from),
        decreases end - j,
    {
        assert(s[j - from] == text@[j as int]);
        j += 1;
    }
    proof {
        if j < end {
            assert(s[j - from] == text@[j as int]);
        }
    }
    j
}

/// Tells whether the bytes `from..end` are the three letters given, in any
/// case.
fn is_word_of_three(text: &[u8], from: usize, end: usize, a: u8, b: u8, c: u8) -> (r: bool)
    requires
        from <= end <= text.len(),
    ensures
        r == is_word(text@.subrange(from as int, end as int), seq![a, b, c]),
{
    let ghost s = text@.subrange(from as int, end as int);
    let r = end - from == 3 && to_lower(text[from]) == a && to_lower(text[from + 1]) == b
        && to_lower(text[from + 2]) == c;
    proof {
        assert(seq![a, b, c].len() == 3);
        if end - from == 3 {
            assert(s[0] == text@[from as int]);
            assert(s[1] == text@[from + 1]);
            assert(s[2] == text@[from + 2]);
        }
    }
    r
}

/// Tells whether the bytes `from..end` are the word `infinity`, in any case.
fn is_infinity(text: &[u8], from: usize, end: usize) -> (r: bool)
    requires
        from <= end <= text.len(),
    ensures
        r == is_word(text@.subrange(from as int, end as int), infinity()),
{
    let ghost s = text@.subrange(from as int, end as int);
    let r = end - from == 8 && to_lower(text[from]) == LOWER_I && to_lower(text[from + 1])
        == LOWER_N && to_lower(text[from + 2]) == LOWER_F && to_lower(text[from + 3]) == LOWER_I
        && to_lower(text[from + 4]) == LOWER_N && to_lower(text[from + 5]) == LOWER_I && to_lower(
        text[from + 6],
    ) == LOWER_T && to_lower(text[from + 7]) == LOWER_Y;
    proof {
        assert(infinity().len() == 8);
        if end - from == 8 {
            assert(s[0] == text@[from as int]);
            assert(s[1] == text@[from + 1]);
            assert(s[2] == text@[from + 2]);
            assert(s[3] == text@[from + 3]);
            assert(s[4] == text@[from + 4]);
            assert(s[5] == text@[from + 5]);
            assert(s[6] == text@[from + 6]);
            assert(s[7] == text@[from + 7]);
        }
    }
    r
}

/// Tells whether the bytes `from..end` are a number without sign.
fn is_number_text(text: &[u8], from: usize, end: usize) -> (r: bool)
    requires
        from <= end <= text.len(),
    ensures
        r == is_plain_number(text@.subrange(from as int, end as int)),
{
    let ghost s = text@.subrange(from as int, end as int);
    let whole = skip_digits(text, from, from, end);
    let mut after = whole;
    let mut digits = whole - from;
    if whole < end && text[whole] == DOT {
        after = skip_digits(text, from, whole + 1, end);
        digits = digits + (after - whole - 1);
    }
    proof {
        if whole < end {
            assert(s[whole - from] == text@[whole as int]);
        }
    }
    if digits == 0 {
        return false;
    }
    if after == end {
        return true;
    }
    proof {
        assert(s[after - from] == text@[after as int]);
        if after + 1 < end {
            assert(s[after + 1 - from] == text@[after + 1]);
        }
    }
    if to_lower(text[after]) != LOWER_E {
        return false;
    }
    let mut power = after + 1;
    if power < end && (text[power] == crate::text::PLUS || text[power] == MINUS) {
        power += 1;
    }
    let stop = skip_digits(text, from, power, end);
    stop > power && stop == end
}

/// Tells whether the word `word` of `text` is a coordinate.
pub(crate) fn is_coordinate_at(text: &[u8], word: Span) -> (r: bool)
    requires
        word.start <= word.end <= text.len(),
    ensures
        r == writes_coordinate(word.of(text@)),
{
    let end = word.end;
    let mut from = word.start;
    if from < end && (text[from] == crate::text::PLUS || text[from] == MINUS) {
        from += 1;
    }
    proof {
        if word.start < end {
            assert(word.of(text@)[0] == text@[word.start as int]);
        }
        if from > word.start {
            assert(word.of(text@).skip(1) =~= text@.subrange(from as int, end as int));
        }
    }
    is_number_text(text, from, end) || is_word_of_three(text, from, end, LOWER_I, LOWER_N, LOWER_F)
        || is_infinity(text, from, end) || is_word_of_three(
        text,
        from,
        end,
        LOWER_N,
        LOWER_A,
        LOWER_N,
    )
}

/// Tells whether a word is a coordinate.
pub fn is_coordinate(word: &[u8]) -> (r: bool)
    ensures
        r == writes_coordinate(word@),
{
    let whole = Span { start: 0, end: word.len() };
    assert(whole.of(word@) =~= word@);
    is_coordinate_at(word, whole)
}

} // verus!
