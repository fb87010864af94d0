//! Whole numbers in decimal, and bytes in hexadecimal.
use vstd::prelude::*;

use crate::text::chars_of;

verus! {

/// The character of a decimal digit.
pub open spec fn digit_char(digit: int) -> char {
    (48 + digit) as char
}

/// A number in decimal, without leading zeros.
pub open spec fn decimal(n: nat) -> Seq<char>
    decreases n,
{
    if n < 10 {
        seq![digit_char(n as int)]
    } else {
        decimal(n / 10).push(digit_char((n % 10) as int))
    }
}

/// A number in decimal, without leading zeros.
pub fn decimal_text(n: u64) -> (text: String)
    ensures
        text@ == decimal(n as nat),
    decreases n,
{
    let digit: char = (48u8 + (n % 10) as u8) as char;
    assert(digit == digit_char((n % 10) as int));
    let mut text: String = if n < 10 {
        String::new()
    } else {
        decimal_text(n / 10)
    };
    text.push(digit);
    assert(n < 10 ==> text@ =~= seq![digit]);
    text
}

pub open spec fn is_digit(c: char) -> bool {
    '0' <= c <= '9'
}

pub open spec fn digit_value(c: char) -> nat {
    (c as u32 - 48) as nat
}

pub open spec fn all_digits(s: Seq<char>) -> bool {
    forall|i: int| 0 <= i < s.len() ==> is_digit(#[trigger] s[i])
}

/// The number that a run of decimal digits writes.
pub open spec fn digits_value(s: Seq<char>) -> nat
    decreases s.len(),
{
    if s.len() == 0 {
        0
    } else {
        digits_value(s.drop_last()) * 10 + digit_value(s.last())
    }
}

/// The number that a text writes: at least one digit, with an optional plus sign
/// before.
pub open spec fn unsigned(s: Seq<char>) -> Option<nat> {
    let digits = if s.len() > 0 && s[0] == '+' {
        s.skip(1)
    } else {
        s
    };
    if digits.len() > 0 && all_digits(digits) {
        Some(digits_value(digits))
    } else {
        None
    }
}

/// The number that a text writes: at least one digit, with an optional sign
/// before.
pub open spec fn signed(s: Seq<char>) -> Option<int> {
    if s.len() > 0 && s[0] == '-' {
        let digits = s.skip(1);
        if digits.len() > 0 && all_digits(digits) {
            Some(-(digits_value(digits) as int))
        } else {
            None
        }
    } else {
        match unsigned(s) {
            Some(n) => Some(n as int),
            None => None,
        }
    }
}

proof fn lemma_value_grows(s: Seq<char>, count: int)
    requires
        0 <= count <= s.len(),
        all_digits(s),
    ensures
        digits_value(s.take(count)) <= digits_value(s),
    decreases s.len() - count,
{
    if count == s.len() {
        assert(s.take(count) =~= s);
    } else {
        let next = s.take(count + 1);
        assert(next.drop_last() =~= s.take(count));
        assert(is_digit(s[count]));
        lemma_value_grows(s, count + 1);
    }
}

fn digits(chars: &Vec<char>, start: usize) -> (value: Option<u64>)
    requires
        start <= chars@.len(),
    ensures
        ({
            let s = chars@.skip(start as int);
            value == (if s.len() > 0 && all_digits(s) && digits_value(s) <= u64::MAX {
                Some(digits_value(s) as u64)
            } else {
                None
            })
        }),
{
    let ghost s = chars@.skip(start as int);
    if start == chars.len() {
        return None;
    }
    let mut value: u64 = 0;
    for i in start..chars.len()
        invariant
            start <= i <= chars@.len(),
            s == chars@.skip(start as int),
            all_digits(s.take(i - start)),
            value == digits_value(s.take(i - start)),
    {
        let c = chars[i];
        let ghost next = s.take(i - start + 1);
        assert(next.drop_last() =~= s.take(i - start));
        assert(next.last() == c);
        if !('0' <= c && c <= '9') {
            assert(s[i - start] == c);
            return None;
        }
        assert(all_digits(next)) by {
            assert forall|j: int| 0 <= j < next.len() implies is_digit(#[trigger] next[j]) by {
                if j < i - start {
                    assert(next[j] == s.take(i - start)[j]);
                }
            }
        }
        let digit: u64 = (c as u64) - 48;
        if value > u64::MAX / 10 || (value == u64::MAX / 10 && digit > u64::MAX % 10) {
            proof {
                if all_digits(s) {
                    lemma_value_grows(s, i - start + 1);
                }
            }
            return None;
        }
        value = value * 10 + digit;
    }
    assert(s.take(s.len() as int) =~= s);
    Some(value)
}

/// Reads a number that fits in 64 bits.
pub fn parse_u64(text: &str) -> (value: Option<u64>)
    ensures
        value == (match unsigned(text@) {
            Some(n) => if n <= u64::MAX {
                Some(n as u64)
            } else {
                None
            },
            None => None,
        }),
{
    let chars = chars_of(text);
    let start: usize = if chars.len() > 0 && chars[0] == '+' {
        1
    } else {
        0
    };
    assert(chars@.skip(0) =~= chars@);
    digits(&chars, start)
}

/// Reads a signed number that fits in 64 bits.
pub fn parse_i64(text: &str) -> (value: Option<i64>)
    ensures
        value == (match signed(text@) {
            Some(n) => if i64::MIN <= n <= i64::MAX {
                Some(n as i64)
            } else {
                None
            },
            None => None,
        }),
{
    let chars = chars_of(text);
    assert(chars@.skip(0) =~= chars@);
    if chars.len() > 0 && chars[0] == '-' {
        match digits(&chars, 1) {
            Some(n) => if n <= 0x7fff_ffff_ffff_ffff {
                Some(-(n as i64))
            } else if n == 0x8000_0000_0000_0000 {
                Some(i64::MIN)
            } else {
                None
            },
            None => None,
        }
    } else {
        match parse_u64(text) {
            Some(n) => if n <= 0x7fff_ffff_ffff_ffff {
                Some(n as i64)
            } else {
                None
            },
            None => None,
        }
    }
}

/// Why a text is not a number without a sign that fits in 64 bits.
pub uninterp spec fn u64_failure(text: Seq<char>) -> Seq<char>;

/// `str::parse::<u64>` on a text that it refuses: the text of the error, which is
/// a function of the text alone and is named `u64_failure`. Its wording is not
/// spelled out.
#[verifier::external_body]
pub(crate) fn u64_error(text: &str) -> (cause: String)
    ensures
        cause@ == u64_failure(text@),
{
    text.parse::<u64>().map_err(|error| error.to_string()).err().unwrap_or_default()
}

/// Why a text is not a number with a sign that fits in 64 bits.
pub uninterp spec fn i64_failure(text: Seq<char>) -> Seq<char>;

/// `str::parse::<i64>` on a text that it refuses: the text of the error, which is
/// a function of the text alone and is named `i64_failure`. Its wording is not
/// spelled out.
#[verifier::external_body]
pub(crate) fn i64_error(text: &str) -> (cause: String)
    ensures
        cause@ == i64_failure(text@),
{
    text.parse::<i64>().map_err(|error| error.to_string()).err().unwrap_or_default()
}

/// The value of a number's decimal text is the number.
pub proof fn lemma_decimal_value(n: nat)
    ensures
        all_digits(decimal(n)),
        decimal(n).len() > 0,
        digits_value(decimal(n)) == n,
    decreases n,
{
    if n >= 10 {
        lemma_decimal_value(n / 10);
        assert(decimal(n).drop_last() =~= decimal(n / 10));
        assert(digit_value(decimal(n).last()) == n % 10);
        assert forall|i: int| 0 <= i < decimal(n).len() implies is_digit(
            #[trigger] decimal(n)[i],
        ) by {
            if i < decimal(n / 10).len() {
                assert(decimal(n)[i] == decimal(n / 10)[i]);
            }
        }
    } else {
        assert(decimal(n).drop_last() =~= Seq::<char>::empty());
        assert(digits_value(Seq::<char>::empty()) == 0);
        assert(digit_value(decimal(n).last()) == n);
    }
}

/// Reading a number's decimal text gives the number back.
pub proof fn unsigned_reads_decimal(n: nat)
    ensures
        unsigned(decimal(n)) == Some(n),
{
    lemma_decimal_value(n);
    assert(is_digit(decimal(n)[0]));
}

// ---------------------------------------------------------------------------
// Hexadecimal
// ---------------------------------------------------------------------------

/// The character of a hexadecimal digit, in lower case.
pub open spec fn hex_char(digit: int) -> char {
    if digit < 10 {
        (48 + digit) as char
    } else {
        (87 + digit) as char
    }
}

/// Bytes in hexadecimal, two lower-case digits each.
pub open spec fn hex_text(bytes: Seq<u8>) -> Seq<char> {
    Seq::new(
        2 * bytes.len(),
        |i: int|
            if i % 2 == 0 {
                hex_char((bytes[i / 2] / 16) as int)
            } else {
                hex_char((bytes[i / 2] % 16) as int)
            },
    )
}

pub open spec fn is_hex_digit(c: char) -> bool {
    '0' <= c <= '9' || 'a' <= c <= 'f' || 'A' <= c <= 'F'
}

/// The value of a hexadecimal digit of either case.
pub open spec fn hex_value(c: char) -> int {
    if c <= '9' {
        c as int - 48
    } else if c <= 'F' {
        c as int - 55
    } else {
        c as int - 87
    }
}

pub open spec fn all_hex_digits(s: Seq<char>) -> bool {
    forall|i: int| 0 <= i < s.len() ==> is_hex_digit(#[trigger] s[i])
}

/// The bytes that a text writes in hexadecimal, two digits each.
pub open spec fn hex_bytes(s: Seq<char>) -> Option<Seq<u8>> {
    if s.len() % 2 == 0 && all_hex_digits(s) {
        Some(
            Seq::new(
                s.len() / 2,
                |i: int| (16 * hex_value(s[2 * i]) + hex_value(s[2 * i + 1])) as u8,
            ),
        )
    } else {
        None
    }
}

/// `hex::encode`: two lower-case hexadecimal digits for each byte, in order.
#[verifier::external_body]
pub(crate) fn hex_encode(bytes: &[u8]) -> (text: String)
    ensures
        text@ == hex_text(bytes@),
{
    hex::encode(bytes)
}

/// Why a text is not the hexadecimal form of bytes.
pub uninterp spec fn hex_failure(text: Seq<char>) -> Seq<char>;

/// `hex::decode`: succeeds exactly on an even number of hexadecimal digits of
/// either case, and gives one byte for each two of them. The text of the error
/// is a function of the text alone, and is named `hex_failure`; its wording is
/// not spelled out.
#[verifier::external_body]
pub(crate) fn decode_hex(text: &str) -> (bytes: Result<Vec<u8>, String>)
    ensures
        match bytes {
            Ok(bytes) => hex_bytes(text@) == Some(bytes@),
            Err(cause) => hex_bytes(text@) is None && cause@ == hex_failure(text@),
        },
{
    hex::decode(text).map_err(|error| error.to_string())
}

/// The bytes that a text writes in hexadecimal.
pub fn hex_decode(text: &str) -> (bytes: Option<Vec<u8>>)
    ensures
        match bytes {
            Some(bytes) => hex_bytes(text@) == Some(bytes@),
            None => hex_bytes(text@) is None,
        },
{
    match decode_hex(text) {
        Ok(bytes) => Some(bytes),
        Err(_) => None,
    }
}

/// Decoding the hexadecimal form of bytes gives the bytes back.
pub proof fn hex_reads_back(bytes: Seq<u8>)
    ensures
        hex_bytes(hex_text(bytes)) == Some(bytes),
{
    let text = hex_text(bytes);
    assert forall|i: int| 0 <= i < text.len() implies is_hex_digit(#[trigger] text[i]) by {
        lemma_hex_char(bytes[i / 2] / 16);
        lemma_hex_char(bytes[i / 2] % 16);
    }
    assert forall|i: int| 0 <= i < bytes.len() implies bytes[i] == (16 * hex_value(
        #[trigger] text[2 * i],
    ) + hex_value(text[2 * i + 1])) as u8 by {
        lemma_hex_char(bytes[i] / 16);
        lemma_hex_char(bytes[i] % 16);
        assert((2 * i) / 2 == i && (2 * i) % 2 == 0 && (2 * i + 1) / 2 == i && (2 * i + 1) % 2
            == 1);
    }
    assert(hex_bytes(text)->0 =~= bytes);
}

proof fn lemma_hex_char(digit: u8)
    requires
        digit < 16,
    ensures
        is_hex_digit(hex_char(digit as int)),
        hex_value(hex_char(digit as int)) == digit,
{
}

/// Two lists of bytes with one hexadecimal form are equal.
pub proof fn hex_is_injective(left: Seq<u8>, right: Seq<u8>)
    requires
        hex_text(left) == hex_text(right),
    ensures
        left == right,
{
    hex_reads_back(left);
    hex_reads_back(right);
}

// ---------------------------------------------------------------------------
// Digits
// ---------------------------------------------------------------------------

/// A number ends in its last digit, and goes on as the number without it; one
/// below ten is its digit.
pub proof fn decimal_goes_digit_by_digit(n: nat, digit: int)
    requires
        0 <= digit < 10,
    ensures
        n > 0 ==> decimal((10 * n + digit) as nat) == decimal(n).push(('0' as u32 + digit) as char),
        decimal(digit as nat) == seq![('0' as u32 + digit) as char],
{
}

/// A minus makes a number negative, a plus makes no difference, and neither do
/// zeros in front.
pub proof fn numbers_may_have_signs(n: nat)
    ensures
        signed(decimal(n)) == Some(n as int),
        signed(seq!['-'] + decimal(n)) == Some(-(n as int)),
        signed(seq!['+'] + decimal(n)) == Some(n as int),
        unsigned(seq!['+'] + decimal(n)) == Some(n),
        unsigned(seq!['-'] + decimal(n)) is None,
        unsigned(seq!['0'] + decimal(n)) == Some(n),
{
    lemma_decimal_value(n);
    let digits = decimal(n);
    assert(is_digit(digits[0]));
    assert((seq!['-'] + digits).skip(1) =~= digits);
    assert((seq!['+'] + digits).skip(1) =~= digits);
    assert(!is_digit((seq!['-'] + digits)[0]));
    let zero = seq!['0'] + digits;
    assert(all_digits(zero));
    lemma_zero_in_front(digits);
}

proof fn lemma_zero_in_front(digits: Seq<char>)
    ensures
        digits_value(seq!['0'] + digits) == digits_value(digits),
    decreases digits.len(),
{
    let zero = seq!['0'] + digits;
    if digits.len() == 0 {
        reveal_with_fuel(digits_value, 2);
        assert(zero.drop_last() =~= Seq::<char>::empty());
    } else {
        lemma_zero_in_front(digits.drop_last());
        assert(zero.drop_last() =~= seq!['0'] + digits.drop_last());
    }
}

/// What is no row of digits, but for one sign in front, is no number.
pub proof fn numbers_hold_only_digits(s: Seq<char>, at: int)
    requires
        0 <= at < s.len(),
        !('0' <= s[at] <= '9'),
        at > 0 || s[at] != '+' && s[at] != '-',
    ensures
        unsigned(s) is None,
        signed(s) is None,
{
    if at > 0 {
        assert(s.skip(1)[at - 1] == s[at]);
    }
    assert(!is_digit(s[at]));
}

/// A byte is two digits, the sixteens first; the digits above nine are the small
/// letters from `a` on. Capitals are read like small letters.
pub proof fn hex_has_two_digits_for_a_byte(bytes: Seq<u8>, index: int)
    requires
        0 <= index < bytes.len(),
    ensures
        hex_text(bytes).len() == 2 * bytes.len(),
        ({
            let high = hex_text(bytes)[2 * index];
            let low = hex_text(bytes)[2 * index + 1];
            let above = bytes[index] / 16;
            let below = bytes[index] % 16;
            &&& above < 10 ==> high as u32 == '0' as u32 + above
            &&& above >= 10 ==> high as u32 == 'a' as u32 + above - 10
            &&& below < 10 ==> low as u32 == '0' as u32 + below
            &&& below >= 10 ==> low as u32 == 'a' as u32 + below - 10
        }),
        forall|c: char| 'A' <= c <= 'F' ==> #[trigger] hex_value(c) == hex_value((c as u32 + 32) as char),
{
}

/// A text is read as bytes exactly where it has an even number of hexadecimal
/// digits and nothing else.
pub proof fn hex_is_read_by_twos(s: Seq<char>)
    ensures
        hex_bytes(s) is Some <==> s.len() % 2 == 0 && forall|i: int|
            0 <= i < s.len() ==> {
                let c = #[trigger] s[i];
                '0' <= c <= '9' || 'a' <= c <= 'f' || 'A' <= c <= 'F'
            },
        hex_bytes(s) matches Some(bytes) ==> 2 * bytes.len() == s.len(),
{
    if hex_bytes(s) is Some {
        assert forall|i: int| 0 <= i < s.len() implies {
            let c = #[trigger] s[i];
            '0' <= c <= '9' || 'a' <= c <= 'f' || 'A' <= c <= 'F'
        } by {
            assert(is_hex_digit(s[i]));
        }
    }
}

} // verus!
