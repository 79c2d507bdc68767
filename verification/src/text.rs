//! Plain-text building blocks shared by the two file formats: lines, words
//! separated by blanks, and unsigned decimal numbers.

use vstd::prelude::*;

verus! {

/// The bytes from `start` up to, but not including, `end` of some text.
#[derive(Clone, Copy, Debug, PartialEq, Eq, Structural)]
pub struct Span {
    pub start: usize,
    pub end: usize,
}

impl Span {
    /// The bytes of `text` that the span covers.
    pub open spec fn of(self, text: Seq<u8>) -> Seq<u8> {
        text.subrange(self.start as int, self.end as int)
    }

    /// The span is not empty and lies inside the bytes `from..to`.
    pub open spec fn within(self, from: int, to: int) -> bool {
        from <= self.start < self.end <= to
    }
}

/// The line feed.
pub const LINE_FEED: u8 = 10;

/// The carriage return.
pub const CARRIAGE_RETURN: u8 = 13;

/// The space.
pub const BLANK: u8 = 32;

/// The plus sign.
pub const PLUS: u8 = 43;

/// The digit `0`.
pub const ZERO: u8 = 48;

/// The digit `9`.
pub const NINE: u8 = 57;

/// Blanks are what separates words: tab, line feed, vertical tab, form feed,
/// carriage return and the space.
pub open spec fn is_space(b: u8) -> bool {
    9 <= b <= 13 || b == BLANK
}

/// The decimal digits.
pub open spec fn is_digit(b: u8) -> bool {
    ZERO <= b <= NINE
}

/// The number of bytes before the first line feed of `s`, or the length of `s`
/// where it holds none.
pub open spec fn line_len(s: Seq<u8>) -> nat
    decreases s.len(),
{
    if s.len() == 0 || s[0] == LINE_FEED {
        0
    } else {
        1 + line_len(s.skip(1))
    }
}

/// `s` without the carriage return at its end, if it has one.
pub open spec fn chomp(s: Seq<u8>) -> Seq<u8> {
    if s.len() > 0 && s.last() == CARRIAGE_RETURN {
        s.drop_last()
    } else {
        s
    }
}

/// The lines of a text. A line ends at a line feed; the line feed, and a
/// carriage return directly before it, are not part of the line. Bytes after
/// the last line feed form a last line as they stand. An empty text has no
/// lines.
pub open spec fn lines(s: Seq<u8>) -> Seq<Seq<u8>>
    decreases s.len(),
{
    let n = line_len(s);
    if s.len() == 0 {
        Seq::empty()
    } else if n >= s.len() {
        seq![s]
    } else {
        seq![chomp(s.take(n as int))] + lines(s.skip(n as int + 1))
    }
}

/// The number of bytes before the first blank of `s`, or the length of `s`
/// where it holds none.
pub open spec fn word_len(s: Seq<u8>) -> nat
    decreases s.len(),
{
    if s.len() == 0 || is_space(s[0]) {
        0
    } else {
        1 + word_len(s.skip(1))
    }
}

/// The words of a line: the longest runs of bytes that are not blanks, from
/// left to right.
pub open spec fn words(s: Seq<u8>) -> Seq<Seq<u8>>
    decreases s.len(),
{
    let n = word_len(s);
    if s.len() == 0 {
        Seq::empty()
    } else if n == 0 {
        words(s.skip(1))
    } else if n >= s.len() {
        seq![s]
    } else {
        seq![s.take(n as int)] + words(s.skip(n as int))
    }
}

/// The value of a run of decimal digits, the most significant first.
pub open spec fn digits_value(s: Seq<u8>) -> nat
    decreases s.len(),
{
    if s.len() == 0 {
        0
    } else {
        digits_value(s.drop_last()) * 10 + (s.last() - ZERO) as nat
    }
}

/// Every byte of `s` is a decimal digit.
pub open spec fn all_digits(s: Seq<u8>) -> bool {
    forall|i: int| 0 <= i < s.len() ==> is_digit(#[trigger] s[i])
}

/// The digits of a written number: the word itself, less one leading plus sign.
pub open spec fn unsigned_digits(s: Seq<u8>) -> Seq<u8> {
    if s.len() > 0 && s[0] == PLUS {
        s.skip(1)
    } else {
        s
    }
}

/// The number that a word writes: an optional plus sign and then one or more
/// decimal digits, read in base ten. Any other word writes no number.
pub open spec fn number(s: Seq<u8>) -> Option<nat> {
    let d = unsigned_digits(s);
    if d.len() > 0 && all_digits(d) {
        Some(digits_value(d))
    } else {
        None
    }
}

/// The number that a word writes, if it is at most `max`.
pub open spec fn number_up_to(s: Seq<u8>, max: nat) -> Option<nat> {
    match number(s) {
        Some(v) => if v <= max {
            Some(v)
        } else {
            None
        },
        None => None,
    }
}

/// A number written in base ten, without sign and without leading zeros.
pub open spec fn decimal(n: nat) -> Seq<u8>
    decreases n,
{
    if n < 10 {
        seq![(ZERO + n) as u8]
    } else {
        decimal(n / 10).push((ZERO + n % 10) as u8)
    }
}

/// `spans` mark, in order, exactly the byte runs `parts` of `text`.
pub open spec fn spells(text: Seq<u8>, spans: Seq<Span>, parts: Seq<Seq<u8>>) -> bool {
    &&& spans.len() == parts.len()
    &&& forall|k: int| 0 <= k < spans.len() ==> (#[trigger] spans[k]).of(text) == parts[k]
}

/// The first line of a text stops at its first line feed, or at its end.
pub proof fn lemma_line_len_bound(s: Seq<u8>)
    ensures
        line_len(s) <= s.len(),
        line_len(s) < s.len() ==> s[line_len(s) as int] == LINE_FEED,
        forall|i: int| 0 <= i < line_len(s) ==> s[i] != LINE_FEED,
    decreases s.len(),
{
    if s.len() != 0 && s[0] != LINE_FEED {
        let t = s.skip(1);
        lemma_line_len_bound(t);
        assert forall|i: int| 0 <= i < line_len(s) implies s[i] != LINE_FEED by {
            if i > 0 {
                assert(s[i] == t[i - 1]);
            }
        }
    }
}

/// A run of digits is worth at least as much as any run it starts with.
pub proof fn lemma_digits_prefix(s: Seq<u8>, k: int)
    requires
        0 <= k <= s.len(),
    ensures
        digits_value(s.take(k)) <= digits_value(s),
    decreases s.len() - k,
{
    if k == s.len() {
        assert(s.take(k) =~= s);
    } else {
        let t = s.drop_last();
        lemma_digits_prefix(t, k);
        assert(t.take(k) =~= s.take(k));
    }
}

/// A run of bytes without a line feed, put before a line feed, is a line of
/// its own length.
pub proof fn lemma_line_len_before_feed(l: Seq<u8>, rest: Seq<u8>)
    requires
        forall|i: int| 0 <= i < l.len() ==> l[i] != LINE_FEED,
    ensures
        line_len(l.push(LINE_FEED) + rest) == l.len(),
    decreases l.len(),
{
    let s = l.push(LINE_FEED) + rest;
    if l.len() > 0 {
        let t = l.skip(1);
        assert(s.skip(1) =~= t.push(LINE_FEED) + rest);
        lemma_line_len_before_feed(t, rest);
    }
}

/// Writing a line, a line feed and more text gives that line and then the
/// lines of the rest, as long as the line holds no line feed and does not end
/// in a carriage return.
pub proof fn lemma_lines_cons(l: Seq<u8>, rest: Seq<u8>)
    requires
        forall|i: int| 0 <= i < l.len() ==> l[i] != LINE_FEED,
        l.len() == 0 || l.last() != CARRIAGE_RETURN,
    ensures
        lines(l.push(LINE_FEED) + rest) == seq![l] + lines(rest),
{
    let s = l.push(LINE_FEED) + rest;
    lemma_line_len_before_feed(l, rest);
    assert(s.take(l.len() as int) =~= l);
    assert(s.skip(l.len() as int + 1) =~= rest);
}

/// A run of bytes without a blank, put before a blank, is a word of its own
/// length.
pub proof fn lemma_word_len_before_blank(w: Seq<u8>, rest: Seq<u8>)
    requires
        forall|i: int| 0 <= i < w.len() ==> !is_space(w[i]),
    ensures
        word_len(w.push(BLANK) + rest) == w.len(),
    decreases w.len(),
{
    let s = w.push(BLANK) + rest;
    if w.len() > 0 {
        let t = w.skip(1);
        assert(s.skip(1) =~= t.push(BLANK) + rest);
        lemma_word_len_before_blank(t, rest);
    }
}

/// Writing a word, a blank and more text gives that word and then the words
/// of the rest.
pub proof fn lemma_words_cons(w: Seq<u8>, rest: Seq<u8>)
    requires
        w.len() > 0,
        forall|i: int| 0 <= i < w.len() ==> !is_space(w[i]),
    ensures
        words(w.push(BLANK) + rest) == seq![w] + words(rest),
{
    let s = w.push(BLANK) + rest;
    let n = w.len() as int;
    lemma_word_len_before_blank(w, rest);
    assert(s.take(n) =~= w);
    let t = s.skip(n);
    assert(t[0] == BLANK);
    assert(t.skip(1) =~= rest);
    assert(words(t) == words(rest));
}

/// A run of bytes without a blank is the one word of the line it forms.
pub proof fn lemma_words_single(w: Seq<u8>)
    requires
        w.len() > 0,
        forall|i: int| 0 <= i < w.len() ==> !is_space(w[i]),
    ensures
        words(w) == seq![w],
        word_len(w) == w.len(),
    decreases w.len(),
{
    assert(!is_space(w[0]));
    let t = w.skip(1);
    if w.len() > 1 {
        assert forall|i: int| 0 <= i < t.len() implies !is_space(t[i]) by {
            assert(t[i] == w[i + 1]);
        }
        lemma_words_single(t);
    } else {
        assert(word_len(t) == 0);
    }
}

/// A number as this library writes it is read back as that number.
pub proof fn lemma_decimal_reads_back(n: nat)
    ensures
        decimal(n).len() > 0,
        all_digits(decimal(n)),
        digits_value(decimal(n)) == n,
        number(decimal(n)) == Some(n),
    decreases n,
{
    let d = decimal(n);
    if n < 10 {
        assert(d.drop_last() =~= Seq::<u8>::empty());
        assert(digits_value(d.drop_last()) == 0);
    } else {
        let front = decimal(n / 10);
        lemma_decimal_reads_back(n / 10);
        assert(d.drop_last() =~= front);
        assert forall|i: int| 0 <= i < d.len() implies is_digit(#[trigger] d[i]) by {
            if i < front.len() {
                assert(d[i] == front[i]);
            }
        }
    }
    assert(is_digit(d[0]));
}

/// Tells whether a byte is a blank.
pub(crate) fn space(b: u8) -> (r: bool)
    ensures
        r == is_space(b),
{
    (9 <= b && b <= 13) || b == BLANK
}

/// Finds where the line that starts at `start` stops: at its line feed, or at
/// the end of the text.
fn line_stop(text: &[u8], start: usize) -> (stop: usize)
    requires
        start <= text.len(),
    ensures
        start <= stop <= text.len(),
        stop == start + line_len(text@.skip(start as int)),
{
    let mut i = start;
    while i < text.len() && text[i] != LINE_FEED
        invariant
            start <= i <= text.len(),
            line_len(text@.skip(start as int)) == (i - start) + line_len(text@.skip(i as int)),
        decreases text.len() - i,
    {
        assert(text@.skip(i as int).skip(1) =~= text@.skip(i + 1));
        i += 1;
    }
    i
}

/// Reads the line that starts at `start`. Returns where the line stands and
/// where the rest of the text begins.
pub(crate) fn read_line(text: &[u8], start: usize) -> (r: (Span, usize))
    requires
        start < text.len(),
    ensures
        start <= r.0.start <= r.0.end <= r.1 <= text.len(),
        start < r.1,
        lines(text@.skip(start as int)) == seq![r.0.of(text@)] + lines(text@.skip(r.1 as int)),
{
    let stop = line_stop(text, start);
    let ghost rest = text@.skip(start as int);
    let ghost n = line_len(rest) as int;
    if stop == text.len() {
        let line = Span { start, end: stop };
        proof {
            assert(line.of(text@) =~= rest);
            assert(text@.skip(stop as int).len() == 0);
            assert(lines(rest) =~= seq![rest] + lines(text@.skip(stop as int)));
        }
        (line, stop)
    } else {
        proof {
            lemma_line_len_bound(rest);
            assert(rest.take(n) =~= text@.subrange(start as int, stop as int));
            assert(rest.skip(n + 1) =~= text@.skip(stop + 1));
        }
        let end = if stop > start && text[stop - 1] == CARRIAGE_RETURN {
            stop - 1
        } else {
            stop
        };
        let line = Span { start, end };
        proof {
            let whole = text@.subrange(start as int, stop as int);
            assert(line.of(text@) =~= chomp(whole));
        }
        (line, stop + 1)
    }
}

/// Finds where the word that starts at `start` stops: at the next blank, or at
/// `end`.
fn word_stop(text: &[u8], start: usize, end: usize) -> (stop: usize)
    requires
        start <= end <= text.len(),
    ensures
        start <= stop <= end,
        stop == start + word_len(text@.subrange(start as int, end as int)),
{
    let mut i = start;
    while i < end && !space(text[i])
        invariant
            start <= i <= end <= text.len(),
            word_len(text@.subrange(start as int, end as int)) == (i - start) + word_len(
                text@.subrange(i as int, end as int),
            ),
        decreases end - i,
    {
        assert(text@.subrange(i as int, end as int).skip(1) =~= text@.subrange(
            i + 1,
            end as int,
        ));
        i += 1;
    }
    i
}

/// Splits a line into its words.
pub(crate) fn split_words(text: &[u8], line: Span) -> (out: Vec<Span>)
    requires
        line.start <= line.end <= text.len(),
    ensures
        spells(text@, out@, words(line.of(text@))),
        forall|k: int| 0 <= k < out.len() ==> (#[trigger] out[k]).within(
            line.start as int,
            line.end as int,
        ),
{
    let mut out: Vec<Span> = Vec::new();
    let mut i = line.start;
    let end = line.end;
    let ghost done: Seq<Seq<u8>> = Seq::empty();
    while i < end
        invariant
            line.start <= i <= end <= text.len(),
            end == line.end,
            words(line.of(text@)) == done + words(text@.subrange(i as int, end as int)),
            spells(text@, out@, done),
            forall|k: int| 0 <= k < out.len() ==> (#[trigger] out[k]).within(
                line.start as int,
                line.end as int,
            ),
        decreases end - i,
    {
        let ghost rest = text@.subrange(i as int, end as int);
        if space(text[i]) {
            proof {
                assert(rest.skip(1) =~= text@.subrange(i + 1, end as int));
            }
            i += 1;
        } else {
            let stop = word_stop(text, i, end);
            let word = Span { start: i, end: stop };
            proof {
                let n = word_len(rest) as int;
                let after = text@.subrange(stop as int, end as int);
                if stop == end {
                    assert(word.of(text@) =~= rest);
                    assert(words(rest) =~= seq![word.of(text@)] + words(after));
                } else {
                    assert(rest.take(n) =~= word.of(text@));
                    assert(rest.skip(n) =~= after);
                }
                assert(done + (seq![word.of(text@)] + words(after)) =~= done.push(word.of(text@))
                    + words(after));
                done = done.push(word.of(text@));
            }
            out.push(word);
            i = stop;
        }
    }
    proof {
        assert(words(text@.subrange(i as int, end as int)) =~= Seq::<Seq<u8>>::empty());
        assert(done + Seq::<Seq<u8>>::empty() =~= done);
    }
    out
}

/// Reads the number that a word writes, provided that it is at most `max`.
pub(crate) fn parse_number(text: &[u8], word: Span, max: u64) -> (r: Option<u64>)
    requires
        word.start <= word.end <= text.len(),
        max <= u32::MAX,
    ensures
        match r {
            Some(v) => number_up_to(word.of(text@), max as nat) == Some(v as nat),
            None => number_up_to(word.of(text@), max as nat) is None,
        },
{
    let end = word.end;
    let mut i = word.start;
    if i < end && text[i] == PLUS {
        i += 1;
    }
    let first = i;
    let ghost d = text@.subrange(first as int, end as int);
    assert(d =~= unsigned_digits(word.of(text@)));
    if i == end {
        return None;
    }
    let mut acc: u64 = 0;
    while i < end
        invariant
            first <= i <= end <= text.len(),
            d == text@.subrange(first as int, end as int),
            d == unsigned_digits(word.of(text@)),
            all_digits(d.take(i - first)),
            acc == digits_value(d.take(i - first)),
            acc <= max <= u32::MAX,
        decreases end - i,
    {
        let b = text[i];
        if b < ZERO || b > NINE {
            assert(!is_digit(d[i - first]));
            return None;
        }
        let next = acc * 10 + (b - ZERO) as u64;
        proof {
            let upto = d.take(i - first + 1);
            assert(upto.drop_last() =~= d.take(i - first));
            assert(upto.last() == b);
            assert(all_digits(upto)) by {
                assert forall|k: int| 0 <= k < upto.len() implies is_digit(#[trigger] upto[k]) by {
                    if k < i - first {
                        assert(upto[k] == d.take(i - first)[k]);
                    }
                }
            }
        }
        if next > max {
            proof {
                lemma_digits_prefix(d, i - first + 1);
            }
            return None;
        }
        acc = next;
        i += 1;
    }
    assert(d.take(i - first) =~= d);
    Some(acc)
}

/// Appends `n`, written in base ten, to `out`.
pub(crate) fn push_decimal(out: &mut Vec<u8>, n: u32)
    ensures
        final(out)@ == old(out)@ + decimal(n as nat),
    decreases n,
{
    if n >= 10 {
        push_decimal(out, n / 10);
    }
    let digit = (n % 10) as u8;
    out.push(ZERO + digit);
    proof {
        assert(final(out)@ =~= old(out)@ + decimal(n as nat));
    }
}

} // verus!
