//! Bytes of instruction text: character classes, runs of a class, and
//! decimal numerals.
//!
//! Instruction text is a sequence of bytes. Everything the grammar looks at
//! is ASCII, so a byte and a character are the same thing wherever a rule
//! applies.

use vstd::prelude::*;
use vstd::utf8::*;

verus! {

/// The classes of bytes that tokens are made of.
#[derive(Clone, Copy, Debug, PartialEq, Eq, Structural)]
pub enum ByteClass {
    /// ASCII letters.
    Alpha,
    /// ASCII decimal digits.
    Digit,
    /// ASCII letters and decimal digits.
    Alphanumeric,
    /// Bytes that may follow the first byte of an identifier: letters,
    /// digits, `_`, `.` and `$`.
    IdentTail,
}

pub open spec fn is_alpha(b: u8) -> bool {
    ('A' as u8 <= b && b <= 'Z' as u8) || ('a' as u8 <= b && b <= 'z' as u8)
}

pub open spec fn is_digit(b: u8) -> bool {
    '0' as u8 <= b && b <= '9' as u8
}

pub open spec fn is_punct(b: u8) -> bool {
    b == '_' as u8 || b == '.' as u8 || b == '$' as u8
}

impl ByteClass {
    /// Whether `b` belongs to the class.
    pub open spec fn has(self, b: u8) -> bool {
        match self {
            ByteClass::Alpha => is_alpha(b),
            ByteClass::Digit => is_digit(b),
            ByteClass::Alphanumeric => is_alpha(b) || is_digit(b),
            ByteClass::IdentTail => is_alpha(b) || is_digit(b) || is_punct(b),
        }
    }
}

/// The separator between the tokens of an instruction: one space.
pub open spec fn space() -> u8 {
    ' ' as u8
}

/// The length of the longest prefix of `s` whose bytes all belong to
/// `class`.
pub open spec fn run_len(s: Seq<u8>, class: ByteClass) -> nat
    decreases s.len(),
{
    if s.len() > 0 && class.has(s[0]) {
        1 + run_len(s.skip(1), class)
    } else {
        0
    }
}

/// Whether every byte of `s` belongs to `class`.
pub open spec fn all_in(s: Seq<u8>, class: ByteClass) -> bool {
    forall|i: int| 0 <= i < s.len() ==> class.has(#[trigger] s[i])
}

/// A run is a prefix, every byte of it is in the class, and the byte after
/// it, if there is one, is not.
pub proof fn lemma_run_len(s: Seq<u8>, class: ByteClass)
    ensures
        run_len(s, class) <= s.len(),
        all_in(s.take(run_len(s, class) as int), class),
        run_len(s, class) < s.len() ==> !class.has(s[run_len(s, class) as int]),
    decreases s.len(),
{
    if s.len() > 0 && class.has(s[0]) {
        let t = s.skip(1);
        lemma_run_len(t, class);
        let n = run_len(t, class);
        assert forall|i: int| 0 <= i < n + 1 implies class.has(#[trigger] s.take(n + 1 as int)[i]) by {
            if i > 0 {
                assert(s.take(n + 1 as int)[i] == t.take(n as int)[i - 1]);
            }
        }
        if n + 1 < s.len() {
            assert(s[n + 1 as int] == t[n as int]);
        }
    }
}

/// What `lemma_run_len` says of a run holds of nothing else.
pub proof fn lemma_run_len_is(s: Seq<u8>, class: ByteClass, n: nat)
    requires
        n <= s.len(),
        forall|i: int| 0 <= i < n ==> class.has(#[trigger] s[i]),
        n < s.len() ==> !class.has(s[n as int]),
    ensures
        run_len(s, class) == n,
    decreases n,
{
    if n > 0 {
        let t = s.skip(1);
        assert forall|i: int| 0 <= i < n - 1 implies class.has(#[trigger] t[i]) by {
            assert(t[i] == s[i + 1]);
        }
        lemma_run_len_is(t, class, (n - 1) as nat);
    }
}

/// The value of a decimal digit, 0 for any other byte.
pub open spec fn digit_value(b: u8) -> nat {
    if is_digit(b) {
        (b - '0' as u8) as nat
    } else {
        0
    }
}

/// The decimal digit that stands for `d`, for `d` below 10.
pub open spec fn digit_byte(d: nat) -> u8 {
    ('0' as u8 + d) as u8
}

/// The number that a sequence of decimal digits stands for, most
/// significant digit first. The empty sequence stands for 0.
pub open spec fn decimal_value(digits: Seq<u8>) -> nat
    decreases digits.len(),
{
    if digits.len() == 0 {
        0
    } else {
        decimal_value(digits.drop_last()) * 10 + digit_value(digits.last())
    }
}

/// The decimal numeral of `n`: no sign, no leading zeros, `0` for zero.
pub open spec fn decimal_digits(n: nat) -> Seq<u8>
    decreases n,
{
    if n < 10 {
        seq![digit_byte(n)]
    } else {
        decimal_digits(n / 10).push(digit_byte(n % 10))
    }
}

/// A numeral is not empty, is made of digits, and stands for its number.
pub proof fn lemma_decimal_digits(n: nat)
    ensures
        decimal_digits(n).len() >= 1,
        all_in(decimal_digits(n), ByteClass::Digit),
        decimal_value(decimal_digits(n)) == n,
    decreases n,
{
    if n < 10 {
        let s = decimal_digits(n);
        assert(s.drop_last().len() == 0);
        assert(decimal_value(s.drop_last()) == 0);
        assert(s.last() == digit_byte(n));
    } else {
        lemma_decimal_digits(n / 10);
        let s = decimal_digits(n);
        assert(s.drop_last() =~= decimal_digits(n / 10));
        assert(s.last() == digit_byte(n % 10));
    }
}

/// Digits that follow can only make the number larger.
pub proof fn lemma_decimal_value_prefix(digits: Seq<u8>, k: int)
    requires
        0 <= k <= digits.len(),
    ensures
        decimal_value(digits.take(k)) <= decimal_value(digits),
    decreases digits.len(),
{
    if k < digits.len() {
        let front = digits.drop_last();
        assert(front.take(k) =~= digits.take(k));
        lemma_decimal_value_prefix(front, k);
        assert(decimal_value(front) <= decimal_value(front) * 10) by (nonlinear_arith);
    } else {
        assert(digits.take(k) =~= digits);
    }
}

/// One more digit: the value of the first `k + 1` digits from that of the
/// first `k`.
pub proof fn lemma_decimal_value_step(digits: Seq<u8>, k: int)
    requires
        0 <= k < digits.len(),
    ensures
        decimal_value(digits.take(k + 1)) == decimal_value(digits.take(k)) * 10 + digit_value(
            digits[k],
        ),
{
    assert(digits.take(k + 1).drop_last() =~= digits.take(k));
}

/// Encoding text as UTF-8 goes piece by piece.
pub proof fn lemma_encode_utf8_concat(a: Seq<char>, b: Seq<char>)
    ensures
        encode_utf8(a + b) == encode_utf8(a) + encode_utf8(b),
    decreases a.len(),
{
    if a.len() == 0 {
        assert(a + b =~= b);
        assert(encode_utf8(a) + encode_utf8(b) =~= encode_utf8(b));
    } else {
        lemma_encode_utf8_concat(a.drop_first(), b);
        assert((a + b).drop_first() =~= a.drop_first() + b);
        assert((a + b)[0] == a[0]);
        assert(encode_utf8(a + b) =~= encode_utf8(a) + encode_utf8(b));
    }
}

/// Two texts with the same UTF-8 encoding are the same text.
pub proof fn lemma_encode_utf8_injective(a: Seq<char>, b: Seq<char>)
    requires
        encode_utf8(a) == encode_utf8(b),
    ensures
        a == b,
{
    encode_utf8_decode_utf8(a);
    encode_utf8_decode_utf8(b);
}

/// Bytes below 128 are valid UTF-8.
pub proof fn lemma_ascii_valid_utf8(bytes: Seq<u8>)
    requires
        forall|i: int| 0 <= i < bytes.len() ==> #[trigger] bytes[i] < 0x80,
    ensures
        valid_utf8(bytes),
{
    assert forall|i: int| 0 <= i < bytes.len() implies #[trigger] is_leading_byte_width_1(
        bytes[i],
    ) by {
        utf8_byte_ranges_bitwise(bytes[i]);
    }
    assert(bytes.subrange(0, 0) =~= Seq::<u8>::empty());
    assert(partial_valid_utf8(bytes, 0));
    partial_valid_utf8_extend_ascii_block(bytes, 0, bytes.len() as int);
    assert(bytes.subrange(0, bytes.len() as int) =~= bytes);
}

} // verus!
