//! Lowercase hexadecimal and decimal notation.

use crate::bytes::all_zero;
use crate::errors::CandidateSealError;
use vstd::arithmetic::power::{lemma_pow_positive, pow};
use vstd::prelude::*;
use vstd::slice::slice_subrange;

verus! {

/// One of `0` to `9` and `a` to `f`.
pub open spec fn lower_hex_byte(byte: u8) -> bool {
    0x30 <= byte <= 0x39 || 0x61 <= byte <= 0x66
}

/// Every byte is a lowercase hexadecimal digit.
pub open spec fn all_lower_hex(s: Seq<u8>) -> bool {
    forall|i: int| 0 <= i < s.len() ==> lower_hex_byte(#[trigger] s[i])
}

/// Whether a byte is a lowercase hexadecimal digit.
pub fn is_lower_hex(byte: u8) -> (r: bool)
    ensures
        r == lower_hex_byte(byte),
{
    (byte >= 0x30 && byte <= 0x39) || (byte >= 0x61 && byte <= 0x66)
}

/// Whether every byte is a lowercase hexadecimal digit.
pub fn is_all_lower_hex(s: &[u8]) -> (r: bool)
    ensures
        r == all_lower_hex(s@),
{
    let mut i: usize = 0;
    while i < s.len()
        invariant
            i <= s.len(),
            forall|k: int| 0 <= k < i ==> lower_hex_byte(#[trigger] s@[k]),
        decreases s.len() - i,
    {
        if !is_lower_hex(s[i]) {
            assert(!lower_hex_byte(s@[i as int]));
            return false;
        }
        i = i + 1;
    }
    true
}

/// The value of a lowercase hexadecimal digit.
pub open spec fn digit_value(byte: u8) -> int {
    if byte <= 0x39 {
        byte - 0x30
    } else {
        byte - 0x57
    }
}

/// The digit of a value below sixteen.
pub open spec fn hex_digit(value: int) -> u8 {
    if value < 10 {
        (0x30 + value) as u8
    } else {
        (0x57 + value) as u8
    }
}

/// Two digits for each byte, the high one first.
pub open spec fn hex_text(bytes: Seq<u8>) -> Seq<u8> {
    Seq::new(
        2 * bytes.len(),
        |i: int|
            hex_digit(
                if i % 2 == 0 {
                    bytes[i / 2] / 16
                } else {
                    bytes[i / 2] % 16
                } as int,
            ),
    )
}

/// One byte for each two digits.
pub open spec fn hex_bytes(text: Seq<u8>) -> Seq<u8> {
    Seq::new(text.len() / 2, |i: int| (16 * digit_value(text[2 * i]) + digit_value(text[2 * i + 1])) as u8)
}

/// Reading back what was written gives the same bytes, and what is written is lowercase hexadecimal.
pub proof fn hex_round_trip(bytes: Seq<u8>)
    ensures
        hex_bytes(hex_text(bytes)) == bytes,
        all_lower_hex(hex_text(bytes)),
{
    assert forall|i: int| 0 <= i < bytes.len() implies hex_bytes(hex_text(bytes))[i] == bytes[i] by {
        let text = hex_text(bytes);
        assert((2 * i) / 2 == i && (2 * i) % 2 == 0);
        assert((2 * i + 1) / 2 == i && (2 * i + 1) % 2 == 1);
        assert(text[2 * i] == hex_digit((bytes[i] / 16) as int));
        assert(text[2 * i + 1] == hex_digit((bytes[i] % 16) as int));
    }
    assert(hex_bytes(hex_text(bytes)) =~= bytes);
}

/// Writing what was read from lowercase hexadecimal gives the same text.
pub proof fn hex_text_round_trip(text: Seq<u8>)
    requires
        all_lower_hex(text),
        text.len() % 2 == 0,
    ensures
        hex_text(hex_bytes(text)) == text,
{
    let bytes = hex_bytes(text);
    assert forall|i: int| 0 <= i < text.len() implies hex_text(bytes)[i] == text[i] by {
        let k = i / 2;
        assert(0 <= k < bytes.len());
        assert(lower_hex_byte(text[2 * k]) && lower_hex_byte(text[2 * k + 1]));
        assert(0 <= digit_value(text[2 * k]) < 16 && 0 <= digit_value(text[2 * k + 1]) < 16);
        assert(bytes[k] == 16 * digit_value(text[2 * k]) + digit_value(text[2 * k + 1]));
        assert(bytes[k] / 16 == digit_value(text[2 * k]));
        assert(bytes[k] % 16 == digit_value(text[2 * k + 1]));
        if i % 2 == 0 {
            assert(i == 2 * k);
        } else {
            assert(i == 2 * k + 1);
        }
    }
    assert(hex_text(bytes) =~= text);
}

/// The value of a lowercase hexadecimal digit, if the byte is one.
pub fn hex_nibble(byte: u8) -> (r: Result<u8, CandidateSealError>)
    ensures
        r is Ok <==> lower_hex_byte(byte),
        r matches Ok(value) ==> value == digit_value(byte) && value < 16,
        r matches Err(error) ==> error == CandidateSealError::InvalidRecord,
{
    if byte >= 0x30 && byte <= 0x39 {
        Ok(byte - 0x30)
    } else if byte >= 0x61 && byte <= 0x66 {
        Ok(byte - 0x57)
    } else {
        Err(CandidateSealError::InvalidRecord)
    }
}

/// The digit of a value below sixteen.
pub fn lower_hex(nibble: u8) -> (digit: u8)
    requires
        nibble < 16,
    ensures
        digit == hex_digit(nibble as int),
{
    if nibble < 10 {
        0x30 + nibble
    } else {
        0x57 + nibble
    }
}

/// An object id in lowercase hexadecimal.
pub fn lower_hex_oid(oid: [u8; 20]) -> (encoded: [u8; 40])
    ensures
        encoded@ == hex_text(oid@),
{
    let mut encoded: [u8; 40] = [0; 40];
    let mut i: usize = 0;
    while i < 20
        invariant
            i <= 20,
            forall|k: int| 0 <= k < 2 * i ==> #[trigger] encoded@[k] == hex_text(oid@)[k],
        decreases 20 - i,
    {
        let byte: u8 = oid[i];
        encoded[2 * i] = lower_hex(byte / 16);
        encoded[2 * i + 1] = lower_hex(byte % 16);
        assert((2 * i) / 2 == i && (2 * i) % 2 == 0);
        assert((2 * i + 1) / 2 == i && (2 * i + 1) % 2 == 1);
        i = i + 1;
    }
    assert(encoded@ =~= hex_text(oid@));
    encoded
}

/// The zero id, which names no object.
pub open spec fn zero_oid(oid: Seq<u8>) -> bool {
    forall|i: int| 0 <= i < oid.len() ==> oid[i] == 0
}

/// Whether an id is the zero id.
pub fn is_zero_oid(oid: &[u8; 20]) -> (r: bool)
    ensures
        r == zero_oid(oid@),
{
    all_zero(oid.as_slice())
}

/// Forty lowercase hexadecimal digits that do not spell the zero id.
pub open spec fn oid_text(encoded: Seq<u8>) -> bool {
    encoded.len() == 40 && all_lower_hex(encoded) && !zero_oid(hex_bytes(encoded))
}

/// Forty lowercase hexadecimal digits as the twenty bytes that they spell, if they are that.
pub fn hex_oid_bytes(encoded: &[u8]) -> (r: Result<[u8; 20], CandidateSealError>)
    ensures
        r is Ok <==> encoded@.len() == 40 && all_lower_hex(encoded@),
        r matches Ok(oid) ==> oid@ == hex_bytes(encoded@),
        r matches Err(error) ==> error == CandidateSealError::InvalidRecord,
{
    if encoded.len() != 40 || !is_all_lower_hex(encoded) {
        return Err(CandidateSealError::InvalidRecord);
    }
    let mut oid: [u8; 20] = [0; 20];
    let mut i: usize = 0;
    while i < 20
        invariant
            i <= 20,
            encoded.len() == 40,
            all_lower_hex(encoded@),
            forall|k: int| 0 <= k < i ==> #[trigger] oid@[k] == hex_bytes(encoded@)[k],
        decreases 20 - i,
    {
        assert(lower_hex_byte(encoded@[2 * i]) && lower_hex_byte(encoded@[2 * i + 1]));
        let high = hex_nibble(encoded[2 * i])?;
        let low = hex_nibble(encoded[2 * i + 1])?;
        oid[i] = 16 * high + low;
        i = i + 1;
    }
    assert(oid@ =~= hex_bytes(encoded@));
    Ok(oid)
}

/// Read an object id from its lowercase hexadecimal text.
pub fn decode_lower_hex_oid(encoded: &[u8]) -> (r: Result<[u8; 20], CandidateSealError>)
    ensures
        r is Ok <==> oid_text(encoded@),
        r matches Ok(oid) ==> oid@ == hex_bytes(encoded@),
        r matches Err(error) ==> error == CandidateSealError::InvalidRecord,
{
    let oid = hex_oid_bytes(encoded)?;
    if is_zero_oid(&oid) {
        return Err(CandidateSealError::InvalidRecord);
    }
    Ok(oid)
}

/// A number in decimal notation, without leading zeros.
pub open spec fn decimal_text(value: nat) -> Seq<u8>
    decreases value,
{
    if value < 10 {
        seq![(0x30 + value) as u8]
    } else {
        decimal_text(value / 10).push((0x30 + value % 10) as u8)
    }
}

/// A number in decimal notation, without leading zeros.
pub fn decimal_u64(value: u64) -> (digits: Vec<u8>)
    ensures
        digits@ == decimal_text(value as nat),
    decreases value,
{
    if value < 10 {
        let mut digits: Vec<u8> = Vec::new();
        digits.push(0x30 + value as u8);
        assert(digits@ =~= decimal_text(value as nat));
        digits
    } else {
        let mut digits = decimal_u64(value / 10);
        digits.push(0x30 + (value % 10) as u8);
        digits
    }
}

/// Every byte is a decimal digit.
pub open spec fn all_digits(s: Seq<u8>) -> bool {
    forall|i: int| 0 <= i < s.len() ==> 0x30 <= #[trigger] s[i] <= 0x39
}

/// The number that decimal digits spell.
pub open spec fn digits_value(s: Seq<u8>) -> nat
    decreases s.len(),
{
    if s.len() == 0 {
        0
    } else {
        digits_value(s.drop_last()) * 10 + (s.last() - 0x30) as nat
    }
}

proof fn digits_value_grows(s: Seq<u8>, n: int)
    requires
        all_digits(s),
        0 <= n <= s.len(),
    ensures
        digits_value(s.subrange(0, n)) <= digits_value(s),
    decreases s.len(),
{
    if n == s.len() {
        assert(s.subrange(0, n) =~= s);
    } else {
        let shorter = s.drop_last();
        assert(all_digits(shorter)) by {
            assert forall|i: int| 0 <= i < shorter.len() implies 0x30 <= #[trigger] shorter[i] <= 0x39 by {
                assert(shorter[i] == s[i]);
            }
        }
        digits_value_grows(shorter, n);
        assert(shorter.subrange(0, n) =~= s.subrange(0, n));
    }
}

/// The number that decimal digits spell, if it is at most `limit`.
pub fn bounded_decimal(s: &[u8], limit: u64) -> (r: Option<u64>)
    ensures
        r is Some <==> all_digits(s@) && digits_value(s@) <= limit,
        r matches Some(value) ==> value == digits_value(s@),
{
    let mut value: u64 = 0;
    let mut i: usize = 0;
    assert(s@.subrange(0, 0) =~= Seq::<u8>::empty());
    while i < s.len()
        invariant
            i <= s.len(),
            value <= limit,
            value == digits_value(s@.subrange(0, i as int)),
            forall|k: int| 0 <= k < i ==> 0x30 <= #[trigger] s@[k] <= 0x39,
        decreases s.len() - i,
    {
        let byte: u8 = s[i];
        if byte < 0x30 || byte > 0x39 {
            assert(!(0x30 <= s@[i as int] <= 0x39));
            return None;
        }
        proof {
            assert(s@.subrange(0, i + 1).drop_last() =~= s@.subrange(0, i as int));
            if all_digits(s@) {
                digits_value_grows(s@, i + 1);
            }
        }
        let digit: u64 = (byte - 0x30) as u64;
        if value > 1_844_674_407_370_955_161 || (value == 1_844_674_407_370_955_161 && digit > 5) {
            return None;
        }
        let next: u64 = value * 10 + digit;
        if next > limit {
            return None;
        }
        value = next;
        i = i + 1;
    }
    assert(s@.subrange(0, i as int) =~= s@);
    Some(value)
}

/// The canonical decimal notation of a signed 64-bit number: no plus sign, no leading zero, no
/// negative zero.
pub open spec fn canonical_i64(text: Seq<u8>) -> bool {
    if text.len() > 0 && text[0] == MINUS {
        let digits = text.subrange(1, text.len() as int);
        digits.len() > 0 && digits[0] != 0x30 && all_digits(digits) && digits_value(digits) <= 9_223_372_036_854_775_808
    } else {
        text.len() > 0 && all_digits(text) && (text.len() > 1 ==> text[0] != 0x30) && digits_value(text)
            <= 9_223_372_036_854_775_807
    }
}

pub const MINUS: u8 = 0x2d;

/// Whether a text is the canonical decimal notation of a signed 64-bit number.
pub fn is_canonical_i64(text: &[u8]) -> (r: bool)
    ensures
        r == canonical_i64(text@),
{
    if text.len() == 0 {
        return false;
    }
    if text[0] == MINUS {
        let digits = slice_subrange(text, 1, text.len());
        if digits.len() == 0 || digits[0] == 0x30 {
            return false;
        }
        bounded_decimal(digits, 9_223_372_036_854_775_808).is_some()
    } else {
        if text.len() > 1 && text[0] == 0x30 {
            return false;
        }
        bounded_decimal(text, 9_223_372_036_854_775_807).is_some()
    }
}

/// The decimal notation of a number spells that number, in digits, without a leading zero.
pub proof fn decimal_text_facts(value: nat)
    ensures
        all_digits(decimal_text(value)),
        digits_value(decimal_text(value)) == value,
        decimal_text(value).len() > 0,
        decimal_text(value).len() > 1 ==> decimal_text(value)[0] != 0x30,
        value > 0 ==> decimal_text(value)[0] != 0x30,
    decreases value,
{
    let text = decimal_text(value);
    if value < 10 {
        assert(text.drop_last() =~= Seq::<u8>::empty());
        assert(digits_value(text.drop_last()) == 0);
    } else {
        decimal_text_facts(value / 10);
        let shorter = decimal_text(value / 10);
        assert(text.drop_last() =~= shorter);
        assert forall|i: int| 0 <= i < text.len() implies 0x30 <= #[trigger] text[i] <= 0x39 by {
            if i < shorter.len() {
                assert(text[i] == shorter[i]);
            }
        }
        assert(text[0] == shorter[0]);
    }
}

/// A number below ten to the power of twenty has at most twenty digits.
pub proof fn decimal_text_length(value: nat, power: nat, digits: nat)
    requires
        value < power,
        digits > 0,
        power == pow(10, digits),
    ensures
        decimal_text(value).len() <= digits,
    decreases digits,
{
    if value >= 10 {
        lemma_pow_facts(digits);
        if digits == 1 {
            assert(pow(10, 1) == 10);
        } else {
            let smaller = pow(10, (digits - 1) as nat);
            assert(value / 10 < smaller) by (nonlinear_arith)
                requires
                    value < power,
                    power == 10 * smaller,
            ;
            decimal_text_length(value / 10, smaller as nat, (digits - 1) as nat);
        }
    }
}

proof fn lemma_pow_facts(digits: nat)
    requires
        digits > 0,
    ensures
        pow(10, digits) == 10 * pow(10, (digits - 1) as nat),
        pow(10, 1) == 10,
        pow(10, (digits - 1) as nat) > 0,
{
    reveal(pow);
    lemma_pow_positive(10, (digits - 1) as nat);
    assert(pow(10, 1) == 10 * pow(10, 0));
}

/// The canonical notation of a signed number.
pub open spec fn signed_text(value: int) -> Seq<u8> {
    if value < 0 {
        seq![MINUS] + decimal_text((-value) as nat)
    } else {
        decimal_text(value as nat)
    }
}

/// Every signed 64-bit number is written canonically, in at most twenty bytes.
pub proof fn signed_text_is_canonical(value: i64)
    ensures
        canonical_i64(signed_text(value as int)),
        signed_text(value as int).len() <= 20,
{
    assert(pow(10, 19) == 10_000_000_000_000_000_000) by {
        reveal_with_fuel(pow, 20);
    }
    if value < 0 {
        let magnitude = (-value) as nat;
        decimal_text_facts(magnitude);
        decimal_text_length(magnitude, 10_000_000_000_000_000_000, 19);
        let text = signed_text(value as int);
        assert(text.subrange(1, text.len() as int) =~= decimal_text(magnitude));
    } else {
        decimal_text_facts(value as nat);
        decimal_text_length(value as nat, 10_000_000_000_000_000_000, 19);
        assert(decimal_text(value as nat)[0] >= 0x30);
    }
}

/// The canonical notation of a signed number.
pub fn decimal_i64(value: i64) -> (text: Vec<u8>)
    ensures
        text@ == signed_text(value as int),
{
    if value < 0 {
        let magnitude: u64 = (-(value + 1)) as u64 + 1;
        let mut text: Vec<u8> = Vec::new();
        text.push(MINUS);
        let digits = decimal_u64(magnitude);
        text.extend_from_slice(digits.as_slice());
        assert(text@ =~= signed_text(value as int));
        text
    } else {
        decimal_u64(value as u64)
    }
}

} // verus!
