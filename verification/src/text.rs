//! Characters and digits: decimal numerals, whitespace, and the passage
//! between strings and sequences of characters.

use vstd::prelude::*;
use vstd::utf8::{decode_utf8, valid_utf8};

verus! {

/// Whether `c` is one of the ten decimal digits.
pub open spec fn is_digit(c: char) -> bool {
    '0' <= c && c <= '9'
}

/// The digit that stands for `d`, for `d` from 0 to 9.
pub open spec fn digit_char(d: int) -> char {
    ((48 + d) as u8) as char
}

/// The number that the digit `c` stands for.
pub open spec fn digit_value(c: char) -> int {
    (c as u32) as int - 48
}

/// Whether every character of `s` is a decimal digit.
pub open spec fn all_digits(s: Seq<char>) -> bool {
    forall|i: int| 0 <= i < s.len() ==> is_digit(#[trigger] s[i])
}

/// The decimal numeral of `n`: most significant digit first, and no leading
/// zero but for zero itself.
pub open spec fn decimal_nat(n: nat) -> Seq<char>
    decreases n,
{
    if n < 10 {
        seq![digit_char(n as int)]
    } else {
        decimal_nat(n / 10).push(digit_char((n % 10) as int))
    }
}

/// The decimal numeral of `n`, with a minus sign in front of a negative one.
pub open spec fn decimal_int(n: int) -> Seq<char> {
    if n < 0 {
        seq!['-'] + decimal_nat((-n) as nat)
    } else {
        decimal_nat(n as nat)
    }
}

/// The number that a run of digits writes. The empty run writes zero.
pub open spec fn digits_value(s: Seq<char>) -> nat
    decreases s.len(),
{
    if s.len() == 0 {
        0
    } else {
        (digits_value(s.drop_last()) * 10 + digit_value(s.last())) as nat
    }
}

/// Whether `s` begins with a plus or a minus sign.
pub open spec fn has_sign(s: Seq<char>) -> bool {
    s.len() > 0 && (s[0] == '-' || s[0] == '+')
}

/// The digits of a numeral: `s` without its sign.
pub open spec fn numeral_body(s: Seq<char>) -> Seq<char> {
    if has_sign(s) {
        s.drop_first()
    } else {
        s
    }
}

/// The integer that `s` writes, if it writes one: an optional sign, then one
/// digit or more, and nothing else.
pub open spec fn integer_of(s: Seq<char>) -> Option<int> {
    let body = numeral_body(s);
    if body.len() > 0 && all_digits(body) {
        if s[0] == '-' {
            Some(-(digits_value(body) as int))
        } else {
            Some(digits_value(body) as int)
        }
    } else {
        None
    }
}

/// The integer that `s` writes, if it writes one that fits in 64 bits.
pub open spec fn i64_of(s: Seq<char>) -> Option<i64> {
    match integer_of(s) {
        Some(n) => if i64::MIN <= n && n <= i64::MAX {
            Some(n as i64)
        } else {
            None
        },
        None => None,
    }
}

/// The digit of a number below ten.
pub fn digit(d: u8) -> (c: char)
    requires
        d < 10,
    ensures
        c == digit_char(d as int),
        is_digit(c),
        digit_value(c) == d,
{
    (48u8 + d) as char
}

/// The number that a digit stands for; `None` for any other character.
pub fn digit_of(c: char) -> (r: Option<u8>)
    ensures
        r is Some <==> is_digit(c),
        r matches Some(d) ==> d == digit_value(c) && d < 10 && digit_char(d as int) == c,
{
    if '0' <= c && c <= '9' {
        Some(((c as u32) - 48) as u8)
    } else {
        None
    }
}

/// Appends the decimal numeral of `n` to `buf`.
pub fn push_decimal(buf: &mut Vec<char>, n: u128)
    ensures
        final(buf)@ == old(buf)@ + decimal_nat(n as nat),
    decreases n,
{
    if n >= 10 {
        push_decimal(buf, n / 10);
    }
    buf.push(digit((n % 10) as u8));
}

/// Appends the decimal numeral of `n` to `buf`, with its sign if negative.
pub fn push_signed(buf: &mut Vec<char>, n: i64)
    ensures
        final(buf)@ == old(buf)@ + decimal_int(n as int),
{
    if n < 0 {
        buf.push('-');
        let magnitude: u128 = (-(n as i128)) as u128;
        push_decimal(buf, magnitude);
    } else {
        push_decimal(buf, n as u128);
    }
}

/// The decimal numeral of `n`.
pub fn decimal(n: i64) -> (out: Vec<char>)
    ensures
        out@ == decimal_int(n as int),
{
    let mut out: Vec<char> = Vec::new();
    push_signed(&mut out, n);
    out
}

/// A run of digits writes at least what any of its prefixes writes.
pub proof fn lemma_digits_value_grows(s: Seq<char>, k: int)
    requires
        all_digits(s),
        0 <= k <= s.len(),
    ensures
        digits_value(s.take(k)) <= digits_value(s),
    decreases s.len(),
{
    if k == s.len() {
        assert(s.take(k) == s);
    } else {
        let shorter = s.drop_last();
        assert(is_digit(s.last()));
        assert(all_digits(shorter)) by {
            assert forall|i: int| 0 <= i < shorter.len() implies is_digit(#[trigger] shorter[i]) by {
                assert(shorter[i] == s[i]);
            }
        }
        lemma_digits_value_grows(shorter, k);
        assert(shorter.take(k) == s.take(k));
    }
}

/// The integer of 64 bits that `s` writes: an optional sign, one digit or
/// more, nothing else, and a value within range.
pub fn parse_i64(s: &Vec<char>) -> (r: Option<i64>)
    ensures
        r == i64_of(s@),
{
    let n = s.len();
    if n == 0 {
        return None;
    }
    let negative = s[0] == '-';
    let start: usize = if s[0] == '-' || s[0] == '+' {
        1
    } else {
        0
    };
    if start == n {
        return None;
    }
    let ghost body = numeral_body(s@);
    assert(body == s@.skip(start as int));
    let mut acc: u64 = 0;
    let mut i: usize = start;
    while i < n
        invariant
            start <= i <= n,
            n == s.len(),
            start < n,
            body == s@.skip(start as int),
            body == numeral_body(s@),
            all_digits(body.take(i - start)),
            acc == digits_value(body.take(i - start)),
            acc <= 9223372036854775808,
        decreases n - i,
    {
        let ghost seen = body.take(i - start);
        let ghost more = body.take(i - start + 1);
        assert(more.drop_last() == seen);
        assert(more.last() == s[i as int]);
        match digit_of(s[i]) {
            None => {
                assert(!all_digits(body)) by {
                    assert(body[i - start] == s[i as int]);
                }
                return None;
            },
            Some(d) => {
                assert(all_digits(more)) by {
                    assert forall|j: int| 0 <= j < more.len() implies is_digit(#[trigger] more[j]) by {
                        if j < seen.len() {
                            assert(more[j] == seen[j]);
                        }
                    }
                }
                let next: u128 = acc as u128 * 10 + d as u128;
                assert(next == digits_value(more));
                if next > 9223372036854775808 {
                    proof {
                        if all_digits(body) {
                            lemma_digits_value_grows(body, i - start + 1);
                        }
                    }
                    return None;
                }
                acc = next as u64;
            },
        }
        i += 1;
    }
    assert(body.take(i - start) == body);
    if negative {
        Some((-(acc as i128)) as i64)
    } else if acc <= 9223372036854775807 {
        Some(acc as i64)
    } else {
        None
    }
}

/// A decimal numeral is a run of digits, one or more, that writes its number.
pub proof fn lemma_decimal_nat_reads_back(n: nat)
    ensures
        decimal_nat(n).len() > 0,
        all_digits(decimal_nat(n)),
        digits_value(decimal_nat(n)) == n,
    decreases n,
{
    if n < 10 {
        let s = decimal_nat(n);
        assert(s.drop_last() == Seq::<char>::empty());
        assert(digits_value(s.drop_last()) == 0);
        assert(digit_value(s.last()) == n);
    } else {
        lemma_decimal_nat_reads_back(n / 10);
        let shorter = decimal_nat(n / 10);
        let s = decimal_nat(n);
        assert(s.drop_last() == shorter);
        assert(digit_value(s.last()) == n % 10);
        assert(all_digits(s)) by {
            assert forall|i: int| 0 <= i < s.len() implies is_digit(#[trigger] s[i]) by {
                if i < shorter.len() {
                    assert(s[i] == shorter[i]);
                }
            }
        }
    }
}

/// Reading the decimal numeral of an integer gives that integer back.
pub proof fn lemma_decimal_round_trip(n: int)
    ensures
        integer_of(decimal_int(n)) == Some(n),
{
    let s = decimal_int(n);
    if n < 0 {
        let digits = decimal_nat((-n) as nat);
        lemma_decimal_nat_reads_back((-n) as nat);
        assert(s[0] == '-');
        assert(s.drop_first() == digits);
    } else {
        lemma_decimal_nat_reads_back(n as nat);
        assert(is_digit(s[0]));
    }
}

/// Whether `c` is white space, as Unicode has it.
pub open spec fn is_space(c: char) -> bool {
    ||| c == ' '
    ||| ('\u{9}' <= c && c <= '\u{d}')
    ||| c == '\u{85}'
    ||| c == '\u{a0}'
    ||| c == '\u{1680}'
    ||| ('\u{2000}' <= c && c <= '\u{200a}')
    ||| c == '\u{2028}'
    ||| c == '\u{2029}'
    ||| c == '\u{202f}'
    ||| c == '\u{205f}'
    ||| c == '\u{3000}'
}

/// `s` without the white space at its start.
pub open spec fn trim_start(s: Seq<char>) -> Seq<char>
    decreases s.len(),
{
    if s.len() > 0 && is_space(s[0]) {
        trim_start(s.drop_first())
    } else {
        s
    }
}

/// `s` without the white space at its end.
pub open spec fn trim_end(s: Seq<char>) -> Seq<char>
    decreases s.len(),
{
    if s.len() > 0 && is_space(s.last()) {
        trim_end(s.drop_last())
    } else {
        s
    }
}

/// `s` without the white space at either end.
pub open spec fn trim(s: Seq<char>) -> Seq<char> {
    trim_end(trim_start(s))
}

/// Whether `c` is white space.
pub fn space(c: char) -> (b: bool)
    ensures
        b == is_space(c),
{
    c == ' ' || ('\u{9}' <= c && c <= '\u{d}') || c == '\u{85}' || c == '\u{a0}' || c == '\u{1680}'
        || ('\u{2000}' <= c && c <= '\u{200a}') || c == '\u{2028}' || c == '\u{2029}' || c
        == '\u{202f}' || c == '\u{205f}' || c == '\u{3000}'
}

/// The characters of `s` from `from` up to `to`, as a vector of their own.
pub fn slice(s: &Vec<char>, from: usize, to: usize) -> (out: Vec<char>)
    requires
        from <= to <= s.len(),
    ensures
        out@ == s@.subrange(from as int, to as int),
{
    let mut out: Vec<char> = Vec::new();
    let mut i: usize = from;
    while i < to
        invariant
            from <= i <= to,
            to <= s.len(),
            out@ == s@.subrange(from as int, i as int),
        decreases to - i,
    {
        out.push(s[i]);
        i += 1;
    }
    out
}

/// `s` without the white space at either end.
pub fn trimmed(s: &Vec<char>) -> (out: Vec<char>)
    ensures
        out@ == trim(s@),
{
    let n = s.len();
    let mut lo: usize = 0;
    assert(s@.skip(0) == s@);
    while lo < n && space(s[lo])
        invariant
            lo <= n,
            n == s.len(),
            trim_start(s@) == trim_start(s@.skip(lo as int)),
        decreases n - lo,
    {
        assert(s@.skip(lo as int).drop_first() == s@.skip(lo + 1));
        lo += 1;
    }
    let ghost rest = s@.skip(lo as int);
    assert(trim_start(s@) == rest);
    let mut hi: usize = n;
    while hi > lo && space(s[hi - 1])
        invariant
            lo <= hi <= n,
            n == s.len(),
            rest == s@.skip(lo as int),
            trim_end(rest) == trim_end(s@.subrange(lo as int, hi as int)),
        decreases hi,
    {
        assert(s@.subrange(lo as int, hi as int).drop_last() == s@.subrange(
            lo as int,
            hi - 1,
        ));
        hi -= 1;
    }
    assert(rest == s@.subrange(lo as int, n as int));
    slice(s, lo, hi)
}

/// The characters of `s`, in order.
pub fn chars_of(s: &str) -> (out: Vec<char>)
    ensures
        out@ == s@,
{
    let mut out: Vec<char> = Vec::new();
    for c in it: s.chars()
        invariant
            it.seq() == s@,
            out@ == s@.take(it.index() as int),
    {
        out.push(c);
    }
    out
}

/// The string made of `chars`, in order. Trusted: `String::from_iter` of the
/// standard library collects the characters it is handed into a string, none
/// added, none left out.
#[verifier::external_body]
pub(crate) fn string_of(chars: &Vec<char>) -> (out: String)
    ensures
        out@ == chars@,
{
    String::from_iter(chars)
}

/// The decimal numeral of `n`, as a string.
pub fn numeral(n: u128) -> (out: String)
    ensures
        out@ == decimal_nat(n as nat),
{
    let mut digits: Vec<char> = Vec::new();
    push_decimal(&mut digits, n);
    string_of(&digits)
}

/// The decimal numeral of `n`, with its sign if negative, as a string.
pub fn signed_numeral(n: i64) -> (out: String)
    ensures
        out@ == decimal_int(n as int),
{
    string_of(&decimal(n))
}

/// `text` with blanks in front of it until it is `width` long; a text that
/// is as long or longer stays as it is.
pub open spec fn padded(text: Seq<char>, width: nat) -> Seq<char>
    decreases width - text.len(),
{
    if text.len() >= width {
        text
    } else {
        padded(seq![' '] + text, width)
    }
}

/// `text` with blanks in front of it until it is `width` characters long.
pub fn pad_left(text: &str, width: usize) -> (out: String)
    ensures
        out@ == padded(text@, width as nat),
{
    let chars = chars_of(text);
    let mut blanks: Vec<char> = Vec::new();
    let missing: usize = if chars.len() < width {
        width - chars.len()
    } else {
        0
    };
    assert(Seq::<char>::empty() + chars@ == chars@);
    while blanks.len() < missing
        invariant
            chars@ == text@,
            missing + chars.len() == width || (missing == 0 && chars.len() >= width),
            blanks.len() <= missing,
            padded(text@, width as nat) == padded(blanks@ + chars@, width as nat),
            forall|i: int| 0 <= i < blanks@.len() ==> blanks@[i] == ' ',
        decreases missing - blanks.len(),
    {
        let ghost before = blanks@;
        blanks.push(' ');
        assert(blanks@ + chars@ == seq![' '] + (before + chars@)) by {
            assert(blanks@ =~= seq![' '] + before);
            assert((seq![' '] + before) + chars@ =~= seq![' '] + (before + chars@));
        }
    }
    let mut all = blanks;
    let mut i: usize = 0;
    let ghost front = all@;
    while i < chars.len()
        invariant
            i <= chars.len(),
            all@ == front + chars@.take(i as int),
        decreases chars.len() - i,
    {
        all.push(chars[i]);
        assert(chars@.take(i + 1) == chars@.take(i as int).push(chars@[i as int]));
        i += 1;
    }
    assert(chars@.take(chars.len() as int) == chars@);
    string_of(&all)
}

/// The text that the bytes `bytes` stand for, with a replacement character
/// wherever they are not UTF-8.
pub uninterp spec fn lossy_text(bytes: Seq<u8>) -> Seq<char>;

/// The text of `bytes`. Trusted: `String::from_utf8_lossy` of the standard
/// library gives the string that the bytes encode where they are UTF-8, and
/// else that string with U+FFFD in place of what is not; it depends on the
/// bytes alone.
#[verifier::external_body]
pub(crate) fn lossy(bytes: &Vec<u8>) -> (out: String)
    ensures
        out@ == lossy_text(bytes@),
{
    String::from_utf8_lossy(bytes).into_owned()
}

/// The text that `bytes` encode, if they are UTF-8. Trusted:
/// `String::from_utf8` of the standard library gives the string that the
/// bytes encode, and fails if and only if they are not UTF-8.
#[verifier::external_body]
pub(crate) fn utf8_text(bytes: Vec<u8>) -> (out: Option<String>)
    ensures
        out is Some <==> valid_utf8(bytes@),
        out matches Some(text) ==> text@ == decode_utf8(bytes@),
{
    String::from_utf8(bytes).ok()
}

/// The text of an optional string.
pub open spec fn option_text(value: Option<String>) -> Option<Seq<char>> {
    match value {
        Some(text) => Some(text@),
        None => None,
    }
}

/// An optional text as the standard library writes it for a reader of
/// programs: `None`, or `Some` and the text in quotes, with what cannot be
/// printed escaped.
pub uninterp spec fn debug_text(value: Option<Seq<char>>) -> Seq<char>;

/// An optional text, written for a reader of programs. Trusted: the
/// `Debug` form of `Option<String>` in the standard library depends on the
/// value alone.
#[verifier::external_body]
pub(crate) fn debug_option(value: &Option<String>) -> (out: String)
    ensures
        out@ == debug_text(option_text(*value)),
{
    format!("{:?}", value)
}

} // verus!
