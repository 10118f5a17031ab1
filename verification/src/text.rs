//! Text: decimal numbers, white space and words.

use vstd::prelude::*;

verus! {

/// [`String::push`] appends one character to the end of the string.
pub assume_specification[ String::push ](s: &mut String, c: char)
    ensures
        final(s)@ == old(s)@.push(c),
;

/// What [`String::from_utf8_lossy`] makes of bytes that are not UTF-8.
pub uninterp spec fn lossy_text(bytes: Seq<u8>) -> Seq<char>;

/// The text that `bytes` are shown as: the text that they are the UTF-8 of,
/// if there is one.
pub open spec fn shown(bytes: Seq<u8>) -> Seq<char> {
    if vstd::utf8::valid_utf8(bytes) {
        vstd::utf8::decode_utf8(bytes)
    } else {
        lossy_text(bytes)
    }
}

/// [`String::from_utf8_lossy`] gives the text that the bytes are the UTF-8
/// of. Of other bytes it makes a text that depends on the bytes alone: it has
/// replacement characters in place of what is not UTF-8. Where these stand is
/// not stated.
#[verifier::external_body]
pub(crate) fn show(bytes: &[u8]) -> (s: String)
    ensures
        vstd::utf8::valid_utf8(bytes@) ==> s@ == vstd::utf8::decode_utf8(bytes@),
        !vstd::utf8::valid_utf8(bytes@) ==> s@ == lossy_text(bytes@),
{
    String::from_utf8_lossy(bytes).into_owned()
}

/// The decimal digit for `d`, which is less than ten.
pub open spec fn digit(d: nat) -> char {
    (48 + d) as char
}

/// `n` in decimal, without leading zeros.
pub open spec fn decimal(n: nat) -> Seq<char>
    decreases n,
{
    if n < 10 {
        seq![digit(n)]
    } else {
        decimal(n / 10).push(digit(n % 10))
    }
}

/// `n` in decimal, with leading zeros where it has fewer than `width` digits.
pub open spec fn zero_padded(n: nat, width: nat) -> Seq<char> {
    let digits = decimal(n);
    if digits.len() >= width {
        digits
    } else {
        Seq::new((width - digits.len()) as nat, |i: int| '0') + digits
    }
}

/// `n` in decimal, with a minus sign where it is negative and with leading
/// zeros after it; the sign counts towards `width`.
pub open spec fn signed_zero_padded(n: int, width: nat) -> Seq<char> {
    if n < 0 {
        seq!['-'] + zero_padded((-n) as nat, if width > 0 { (width - 1) as nat } else { 0 })
    } else {
        zero_padded(n as nat, width)
    }
}

/// Appends one decimal digit.
pub(crate) fn push_digit(out: &mut String, d: u64)
    requires
        d < 10,
    ensures
        final(out)@ == old(out)@.push(digit(d as nat)),
{
    let c: char = (48 + d as u8) as char;
    out.push(c);
}

/// Appends `n` in decimal.
pub(crate) fn push_decimal(out: &mut String, n: u64)
    ensures
        final(out)@ == old(out)@ + decimal(n as nat),
    decreases n,
{
    if n >= 10 {
        push_decimal(out, n / 10);
    }
    push_digit(out, n % 10);
    proof {
        assert(final(out)@ =~= old(out)@ + decimal(n as nat));
    }
}

/// The number of decimal digits of `n`.
fn decimal_len(n: u64) -> (len: u64)
    ensures
        len == decimal(n as nat).len(),
{
    let mut rest: u64 = n;
    let mut len: u64 = 1;
    while rest >= 10
        invariant
            len + decimal(rest as nat).len() == 1 + decimal(n as nat).len(),
            len + rest <= n + 1,
        decreases rest,
    {
        rest = rest / 10;
        len = len + 1;
    }
    len
}

/// Appends `n` in decimal, padded with leading zeros to `width` digits.
pub(crate) fn push_zero_padded(out: &mut String, n: u64, width: u64)
    ensures
        final(out)@ == old(out)@ + zero_padded(n as nat, width as nat),
{
    let len: u64 = decimal_len(n);
    let mut zeros: u64 = 0;
    while len + zeros < width
        invariant
            len == decimal(n as nat).len(),
            zeros == 0 || len + zeros <= width,
            out@ == old(out)@ + Seq::new(zeros as nat, |i: int| '0'),
        decreases width - zeros,
    {
        out.push('0');
        zeros = zeros + 1;
        proof {
            assert(out@ =~= old(out)@ + Seq::new(zeros as nat, |i: int| '0'));
        }
    }
    push_decimal(out, n);
    proof {
        assert(final(out)@ =~= old(out)@ + zero_padded(n as nat, width as nat));
    }
}

/// Appends `n` in decimal with its sign, padded with leading zeros to `width`.
pub(crate) fn push_signed_zero_padded(out: &mut String, n: i32, width: u64)
    ensures
        final(out)@ == old(out)@ + signed_zero_padded(n as int, width as nat),
{
    if n < 0 {
        out.push('-');
        let size: u64 = (-(n as i64)) as u64;
        push_zero_padded(out, size, if width > 0 { width - 1 } else { 0 });
        proof {
            assert(final(out)@ =~= old(out)@ + signed_zero_padded(n as int, width as nat));
        }
    } else {
        push_zero_padded(out, n as u64, width);
    }
}

/// The characters of `s`.
pub(crate) fn chars_of(s: &str) -> (v: Vec<char>)
    ensures
        v@ == s@,
{
    let mut v: Vec<char> = Vec::new();
    for c in it: s.chars()
        invariant
            v@ == it.seq().take(it.index() as int),
    {
        proof {
            assert(it.seq().take(it.index() + 1) =~= v@.push(c));
        }
        v.push(c);
    }
    proof {
        assert(s@.take(s@.len() as int) =~= s@);
    }
    v
}

/// The characters of `v` from `from` to before `to`, as text.
pub(crate) fn text_between(v: &Vec<char>, from: usize, to: usize) -> (s: String)
    requires
        from <= to <= v@.len(),
    ensures
        s@ == v@.subrange(from as int, to as int),
{
    let mut s = String::new();
    let mut i: usize = from;
    while i < to
        invariant
            from <= i <= to <= v@.len(),
            s@ == v@.subrange(from as int, i as int),
        decreases to - i,
    {
        s.push(v[i]);
        i = i + 1;
        proof {
            assert(s@ =~= v@.subrange(from as int, i as int));
        }
    }
    s
}

/// Whether `a` and `b` are the same text.
pub(crate) fn same_text(a: &str, b: &str) -> (r: bool)
    ensures
        r == (a@ == b@),
{
    a.to_owned() == b.to_owned()
}

/// Whether `c` is white space: it has the Unicode property `White_Space`.
pub open spec fn is_space(c: char) -> bool {
    ||| '\u{9}' <= c <= '\u{d}'
    ||| c == '\u{20}'
    ||| c == '\u{85}'
    ||| c == '\u{a0}'
    ||| c == '\u{1680}'
    ||| '\u{2000}' <= c <= '\u{200a}'
    ||| c == '\u{2028}'
    ||| c == '\u{2029}'
    ||| c == '\u{202f}'
    ||| c == '\u{205f}'
    ||| c == '\u{3000}'
}

/// Whether `c` is white space.
pub fn is_white_space(c: char) -> (r: bool)
    ensures
        r == is_space(c),
{
    ('\u{9}' <= c && c <= '\u{d}') || c == '\u{20}' || c == '\u{85}' || c == '\u{a0}' || c
        == '\u{1680}' || ('\u{2000}' <= c && c <= '\u{200a}') || c == '\u{2028}' || c == '\u{2029}'
        || c == '\u{202f}' || c == '\u{205f}' || c == '\u{3000}'
}

/// `s` without the white space that it starts with.
pub open spec fn trimmed(s: Seq<char>) -> Seq<char>
    decreases s.len(),
{
    if s.len() > 0 && is_space(s[0]) {
        trimmed(s.drop_first())
    } else {
        s
    }
}

/// The number of characters of `s` before its first white space.
pub open spec fn word_len(s: Seq<char>) -> nat
    decreases s.len(),
{
    if s.len() == 0 || is_space(s[0]) {
        0
    } else {
        1 + word_len(s.drop_first())
    }
}

/// What is left after trimming is no longer, and starts with no white space.
pub proof fn lemma_trimmed_len(s: Seq<char>)
    ensures
        trimmed(s).len() <= s.len(),
        trimmed(s).len() > 0 ==> !is_space(trimmed(s)[0]),
    decreases s.len(),
{
    if s.len() > 0 && is_space(s[0]) {
        lemma_trimmed_len(s.drop_first());
    }
}

/// A text starts with as many characters of a word as [`word_len`] says.
pub proof fn lemma_word_len(s: Seq<char>)
    ensures
        word_len(s) <= s.len(),
        s.len() > 0 && !is_space(s[0]) ==> word_len(s) > 0,
        forall|i: int| 0 <= i < word_len(s) ==> !is_space(#[trigger] s[i]),
        word_len(s) < s.len() ==> is_space(s[word_len(s) as int]),
    decreases s.len(),
{
    if !(s.len() == 0 || is_space(s[0])) {
        lemma_word_len(s.drop_first());
        assert forall|i: int| 0 <= i < word_len(s) implies !is_space(#[trigger] s[i]) by {
            if i > 0 {
                assert(s[i] == s.drop_first()[i - 1]);
            }
        }
    }
}

/// The words of `s`: its longest runs of characters that are not white space.
pub open spec fn words(s: Seq<char>) -> Seq<Seq<char>>
    decreases s.len(),
{
    let t = trimmed(s);
    if t.len() == 0 {
        Seq::empty()
    } else {
        let n = word_len(t) as int;
        proof {
            lemma_trimmed_len(s);
            lemma_word_len(t);
        }
        seq![t.take(n)] + words(t.skip(n))
    }
}

/// Whether `s` is one word: it has characters, and none is white space.
pub open spec fn is_word(s: Seq<char>) -> bool {
    s.len() > 0 && forall|i: int| 0 <= i < s.len() ==> !is_space(#[trigger] s[i])
}

/// Whether `s` is white space throughout.
pub open spec fn is_gap(s: Seq<char>) -> bool {
    forall|i: int| 0 <= i < s.len() ==> is_space(#[trigger] s[i])
}

/// White space in front of a text adds no word.
pub proof fn lemma_words_after_gap(gap: Seq<char>, s: Seq<char>)
    requires
        is_gap(gap),
    ensures
        trimmed(gap + s) == trimmed(s),
        words(gap + s) == words(s),
    decreases gap.len(),
{
    if gap.len() == 0 {
        assert(gap + s =~= s);
    } else {
        assert((gap + s).drop_first() =~= gap.drop_first() + s);
        lemma_words_after_gap(gap.drop_first(), s);
    }
}

/// A text that starts with a word has that word first.
pub proof fn lemma_words_of_word(w: Seq<char>, s: Seq<char>)
    requires
        is_word(w),
        s.len() == 0 || is_space(s[0]),
    ensures
        words(w + s) == seq![w] + words(s),
{
    let t = w + s;
    assert(t[0] == w[0]);
    assert(trimmed(t) == t);
    lemma_word_len(t);
    let n = word_len(t) as int;
    if n < w.len() {
        assert(t[n] == w[n]);
    }
    if n > w.len() {
        assert(t[w.len() as int] == s[0]);
    }
    assert(t.take(n) =~= w);
    assert(t.skip(n) =~= s);
}

/// Trimming takes off white space at the start, and nothing else.
pub proof fn lemma_trimmed_is_suffix(s: Seq<char>)
    ensures
        trimmed(s).len() <= s.len(),
        s.skip(s.len() - trimmed(s).len()) == trimmed(s),
        is_gap(s.take(s.len() - trimmed(s).len())),
    decreases s.len(),
{
    if s.len() > 0 && is_space(s[0]) {
        let rest = s.drop_first();
        lemma_trimmed_is_suffix(rest);
        let n = s.len() - trimmed(s).len();
        assert(s.skip(n) =~= rest.skip(n - 1));
        assert forall|i: int| 0 <= i < n implies is_space(#[trigger] s.take(n)[i]) by {
            if i > 0 {
                assert(s.take(n)[i] == rest.take(n - 1)[i - 1]);
            }
        }
    } else {
        assert(s.skip(0) =~= s);
    }
}

/// The first word of a text is a word.
pub proof fn lemma_first_word(s: Seq<char>)
    ensures
        words(s).len() > 0 ==> is_word(words(s)[0]),
{
    let t = trimmed(s);
    lemma_trimmed_len(s);
    lemma_word_len(t);
    if t.len() > 0 {
        let w = t.take(word_len(t) as int);
        assert forall|i: int| 0 <= i < w.len() implies !is_space(#[trigger] w[i]) by {
            assert(w[i] == t[i]);
        }
        assert(words(s)[0] == w);
    }
}

/// The contents of each string.
pub open spec fn texts(v: Seq<String>) -> Seq<Seq<char>> {
    v.map_values(|s: String| s@)
}

/// The index of the first character of `v` at or after `from` that is not
/// white space.
pub(crate) fn skip_space(v: &Vec<char>, from: usize) -> (to: usize)
    requires
        from <= v@.len(),
    ensures
        from <= to <= v@.len(),
        v@.skip(to as int) == trimmed(v@.skip(from as int)),
{
    let mut i: usize = from;
    while i < v.len() && is_white_space(v[i])
        invariant
            from <= i <= v@.len(),
            trimmed(v@.skip(from as int)) == trimmed(v@.skip(i as int)),
        decreases v@.len() - i,
    {
        proof {
            assert(v@.skip(i as int).drop_first() =~= v@.skip(i + 1));
        }
        i = i + 1;
    }
    i
}

/// The words of `v` from index `from` on.
pub(crate) fn split_words(v: &Vec<char>, from: usize) -> (r: Vec<String>)
    requires
        from <= v@.len(),
    ensures
        texts(r@) == words(v@.skip(from as int)),
{
    let mut r: Vec<String> = Vec::new();
    let mut i: usize = skip_space(v, from);
    proof {
        lemma_trimmed_len(v@.skip(from as int));
        lemma_trimmed_twice(v@.skip(from as int));
        assert(texts(r@) =~= Seq::empty());
        assert(texts(r@) + words(v@.skip(i as int)) =~= words(v@.skip(from as int)));
    }
    while i < v.len()
        invariant
            i <= v@.len(),
            i < v@.len() ==> !is_space(v@[i as int]),
            texts(r@) + words(v@.skip(i as int)) == words(v@.skip(from as int)),
        decreases v@.len() - i,
    {
        let start: usize = i;
        let ghost t = v@.skip(start as int);
        proof {
            lemma_word_len(t);
            assert(trimmed(t) == t);
        }
        while i < v.len() && !is_white_space(v[i])
            invariant
                start <= i <= v@.len(),
                word_len(t) == i - start + word_len(v@.skip(i as int)),
            decreases v@.len() - i,
        {
            proof {
                assert(v@.skip(i as int).drop_first() =~= v@.skip(i + 1));
            }
            i = i + 1;
        }
        let end: usize = i;
        r.push(text_between(v, start, end));
        i = skip_space(v, end);
        proof {
            assert(end - start == word_len(t));
            assert(t.take(end - start) =~= v@.subrange(start as int, end as int));
            assert(t.skip(end - start) =~= v@.skip(end as int));
            lemma_trimmed_len(v@.skip(end as int));
            lemma_trimmed_twice(v@.skip(end as int));
            assert(words(v@.skip(i as int)) == words(v@.skip(end as int)));
            let before = r@.drop_last();
            assert(texts(r@) =~= texts(before).push(t.take(end - start)));
            assert(texts(r@) + words(v@.skip(i as int)) =~= texts(before) + (seq![
                t.take(end - start),
            ] + words(t.skip(end - start))));
        }
    }
    proof {
        assert(v@.skip(i as int) =~= Seq::empty());
        assert(texts(r@) =~= words(v@.skip(from as int)));
    }
    r
}

proof fn lemma_trimmed_twice(s: Seq<char>)
    ensures
        trimmed(trimmed(s)) == trimmed(s),
        words(trimmed(s)) == words(s),
    decreases s.len(),
{
    if s.len() > 0 && is_space(s[0]) {
        lemma_trimmed_twice(s.drop_first());
    }
}

/// The digits of a decimal number are digits, and there is at least one.
pub proof fn lemma_decimal_digits(n: nat)
    ensures
        decimal(n).len() > 0,
        forall|i: int| 0 <= i < decimal(n).len() ==> '0' <= #[trigger] decimal(n)[i] <= '9',
    decreases n,
{
    if n >= 10 {
        lemma_decimal_digits(n / 10);
    }
}

/// Different numbers have different decimal texts.
pub proof fn lemma_decimal_injective(a: nat, b: nat)
    requires
        decimal(a) == decimal(b),
    ensures
        a == b,
    decreases a,
{
    lemma_decimal_digits(a / 10);
    lemma_decimal_digits(b / 10);
    let da = decimal(a);
    let db = decimal(b);
    assert(da.last() == digit(a % 10));
    assert(db.last() == digit(b % 10));
    if a >= 10 && b >= 10 {
        assert(da.drop_last() =~= decimal(a / 10));
        assert(db.drop_last() =~= decimal(b / 10));
        lemma_decimal_injective(a / 10, b / 10);
    }
}

/// Whether `s` is one decimal digit or more.
pub open spec fn is_digits(s: Seq<char>) -> bool {
    s.len() > 0 && forall|i: int| 0 <= i < s.len() ==> '0' <= #[trigger] s[i] <= '9'
}

/// The number that the decimal digits `s` denote.
pub open spec fn digits_value(s: Seq<char>) -> nat
    decreases s.len(),
{
    if s.len() == 0 {
        0
    } else {
        digits_value(s.drop_last()) * 10 + (s.last() as nat - 48) as nat
    }
}

/// `s` without one leading plus sign.
pub open spec fn unsigned_part(s: Seq<char>) -> Seq<char> {
    if s.len() > 0 && s[0] == '+' {
        s.drop_first()
    } else {
        s
    }
}

/// The number that `s` denotes: decimal digits after an optional plus sign,
/// with a value that a `u64` can hold.
pub open spec fn number_in(s: Seq<char>) -> Option<u64> {
    if is_digits(unsigned_part(s)) && digits_value(unsigned_part(s)) <= u64::MAX {
        Some(digits_value(unsigned_part(s)) as u64)
    } else {
        None
    }
}

/// A longer run of digits denotes no smaller number.
proof fn lemma_digits_grow(s: Seq<char>, n: int)
    requires
        0 <= n <= s.len(),
    ensures
        digits_value(s.take(n)) <= digits_value(s),
    decreases s.len() - n,
{
    if n == s.len() {
        assert(s.take(n) =~= s);
    } else {
        lemma_digits_grow(s, n + 1);
        assert(s.take(n + 1).drop_last() =~= s.take(n));
    }
}

/// Parses an unsigned decimal number.
pub fn parse_u64(s: &str) -> (r: Option<u64>)
    ensures
        r == number_in(s@),
{
    let v = chars_of(s);
    let start: usize = if v.len() > 0 && v[0] == '+' { 1 } else { 0 };
    let ghost d = unsigned_part(s@);
    proof {
        assert(d =~= v@.skip(start as int));
    }
    if start == v.len() {
        return None;
    }
    let mut value: u64 = 0;
    let mut i: usize = start;
    proof {
        assert(d.take(0) =~= Seq::empty());
    }
    while i < v.len()
        invariant
            start <= i <= v@.len(),
            d == v@.skip(start as int),
            d == unsigned_part(s@),
            value == digits_value(d.take(i - start)),
            forall|j: int| 0 <= j < i - start ==> '0' <= #[trigger] d[j] <= '9',
        decreases v@.len() - i,
    {
        let c: char = v[i];
        assert(d[i - start] == c);
        if c < '0' || c > '9' {
            return None;
        }
        proof {
            assert(d.take(i - start + 1).drop_last() =~= d.take(i - start));
            lemma_digits_grow(d, i - start + 1);
        }
        let step: u64 = (c as u32 - 48) as u64;
        if value > (u64::MAX - step) / 10 {
            return None;
        }
        value = value * 10 + step;
        i = i + 1;
    }
    proof {
        assert(d.take(i - start) =~= d);
    }
    Some(value)
}

/// Parsing gives back the number whose decimal text was written.
pub proof fn law_parse_of_decimal(n: u64)
    ensures
        number_in(decimal(n as nat)) == Some(n),
{
    lemma_decimal_digits(n as nat);
    lemma_value_of_decimal(n as nat);
}

proof fn lemma_value_of_decimal(n: nat)
    ensures
        digits_value(decimal(n)) == n,
    decreases n,
{
    let s = decimal(n);
    if n >= 10 {
        lemma_value_of_decimal(n / 10);
        assert(s.drop_last() =~= decimal(n / 10));
    } else {
        reveal_with_fuel(digits_value, 2);
        assert(s.drop_last() =~= Seq::empty());
    }
}

/// Whether `s` is the number `n` written in decimal digits, without zeros in
/// front of it.
pub open spec fn denotes(s: Seq<char>, n: nat) -> bool {
    is_digits(s) && digits_value(s) == n && (s.len() > 1 ==> s[0] != '0')
}

/// A number in decimal is made of digits that denote that very number.
pub proof fn law_decimal_denotes_the_number(n: nat)
    ensures
        denotes(decimal(n), n),
    decreases n,
{
    lemma_decimal_digits(n);
    lemma_value_of_decimal(n);
    if n >= 10 {
        law_decimal_denotes_the_number(n / 10);
        lemma_decimal_digits(n / 10);
        assert(decimal(n)[0] == decimal(n / 10)[0]);
        if decimal(n / 10).len() == 1 {
            let d = decimal(n / 10);
            reveal_with_fuel(digits_value, 2);
            assert(d.drop_last() =~= Seq::empty());
            assert(d[0] == d.last());
            if n >= 100 {
                lemma_decimal_digits(n / 100);
            }
        }
    }
}

proof fn lemma_value_of_zeros(zeros: nat, s: Seq<char>)
    ensures
        digits_value(Seq::new(zeros, |i: int| '0') + s) == digits_value(s),
    decreases zeros + s.len(),
{
    let z = Seq::new(zeros, |i: int| '0');
    if s.len() > 0 {
        lemma_value_of_zeros(zeros, s.drop_last());
        assert((z + s).drop_last() =~= z + s.drop_last());
        assert((z + s).last() == s.last());
    } else if zeros > 0 {
        let y = Seq::new((zeros - 1) as nat, |i: int| '0');
        lemma_value_of_zeros((zeros - 1) as nat, s);
        assert((z + s).drop_last() =~= y + s);
        assert((z + s).last() == '0');
    } else {
        assert(z + s =~= s);
    }
}

/// A number with zeros in front of it is made of digits that denote that very
/// number, and there are as many of them as were asked for, or more where the
/// number has more.
pub proof fn law_padding_keeps_the_number(n: nat, width: nat)
    ensures
        is_digits(zero_padded(n, width)),
        digits_value(zero_padded(n, width)) == n,
        zero_padded(n, width).len() == if decimal(n).len() > width {
            decimal(n).len()
        } else {
            width
        },
{
    lemma_decimal_digits(n);
    lemma_value_of_decimal(n);
    if decimal(n).len() < width {
        lemma_value_of_zeros((width - decimal(n).len()) as nat, decimal(n));
    }
}

/// Numbers below a hundred have at most two digits.
pub proof fn lemma_short_decimals(n: nat)
    requires
        n < 100,
    ensures
        decimal(n).len() <= 2,
{
    reveal_with_fuel(decimal, 3);
}

/// Digits denote their number with a plus sign in front of them too, as far as
/// a `u64` can hold it, and else nothing.
pub proof fn law_digits_are_parsed(s: Seq<char>)
    requires
        is_digits(s),
    ensures
        digits_value(s) <= u64::MAX ==> number_in(s) == Some(digits_value(s) as u64),
        digits_value(s) <= u64::MAX ==> number_in(seq!['+'] + s) == Some(digits_value(s) as u64),
        digits_value(s) > u64::MAX ==> number_in(s) is None,
        digits_value(s) > u64::MAX ==> number_in(seq!['+'] + s) is None,
{
    assert((seq!['+'] + s).drop_first() =~= s);
}

/// A text without a digit, or with anything but digits behind its first
/// character, is no number; nor is one that starts with anything but a digit
/// or a plus sign.
pub proof fn law_other_text_is_no_number(s: Seq<char>, i: int)
    requires
        s.len() == 0 || s == seq!['+'] || (0 <= i < s.len() && !('0' <= s[i] <= '9') && (i > 0 || s[i]
            != '+')),
    ensures
        number_in(s) is None,
{
    if s.len() > 0 && s[0] == '+' {
        assert(s.drop_first().len() == s.len() - 1);
        if i > 0 && s != seq!['+'] {
            assert(s.drop_first()[i - 1] == s[i]);
        }
    } else if s == seq!['+'] {
        assert(s[0] == '+');
    }
}

/// Each digit counts ten times as much as the one after it.
pub proof fn law_digits_count_by_place(s: Seq<char>, c: char)
    requires
        '0' <= c <= '9',
    ensures
        digits_value(s.push(c)) == 10 * digits_value(s) + (c as int - '0' as int),
{
    assert(s.push(c).drop_last() =~= s);
}

/// Text is shown as it is.
pub proof fn law_text_is_shown_as_it_is(s: Seq<char>)
    ensures
        shown(vstd::utf8::encode_utf8(s)) == s,
{
    vstd::utf8::encode_utf8_valid_utf8(s);
    vstd::utf8::encode_utf8_decode_utf8(s);
}

} // verus!
