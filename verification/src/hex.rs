//! Keys as text.
use crate::text::{decimal, decimal_reads_back, number, push_decimal};
use vstd::prelude::*;
use vstd::string::*;
use vstd::utf8::{encode_utf8, is_ascii_chars_encode_utf8};

verus! {

/// Length of a key in bytes.
pub const KEY_LEN: usize = 32;

/// Length of a key as text, in bytes.
pub const KEY_TEXT_LEN: usize = 64;

/// The lower-case hex digit of `n`.
pub open spec fn digit(n: int) -> char {
    if n < 10 {
        (48 + n) as char
    } else {
        (87 + n) as char
    }
}

/// Two lower-case hex digits for each byte.
pub open spec fn hex_text(bytes: Seq<u8>) -> Seq<char> {
    Seq::new(
        2 * bytes.len(),
        |i: int|
            digit(
                if i % 2 == 0 {
                    bytes[i / 2] as int / 16
                } else {
                    bytes[i / 2] as int % 16
                },
            ),
    )
}

/// The value of a hex digit of either case.
pub open spec fn digit_value(b: u8) -> Option<int> {
    if 48 <= b <= 57 {
        Some(b - 48)
    } else if 97 <= b <= 102 {
        Some(b - 87)
    } else if 65 <= b <= 70 {
        Some(b - 55)
    } else {
        None
    }
}

/// The value of two hex digits.
pub open spec fn pair_value(high: u8, low: u8) -> Option<int> {
    match (digit_value(high), digit_value(low)) {
        (Some(h), Some(l)) => Some(h * 16 + l),
        _ => None,
    }
}

/// The value of the pair of characters at `2 * i`.
pub open spec fn pair_at(text: Seq<u8>, i: int) -> Option<int> {
    pair_value(text[2 * i], text[2 * i + 1])
}

/// The key that 64 bytes of text stand for.
pub open spec fn decoded(text: Seq<u8>) -> Option<Seq<u8>> {
    if forall|i: int| 0 <= i < KEY_LEN ==> #[trigger] pair_at(text, i) is Some {
        Some(Seq::new(KEY_LEN as nat, |i: int| pair_at(text, i)->0 as u8))
    } else {
        None
    }
}

/// Why a text is no key.
#[derive(Debug, Clone, Copy, PartialEq, Eq, Structural)]
pub enum KeyError {
    /// The text has this many bytes in place of 64.
    WrongLength(usize),
    /// The text holds something else than hex digits.
    InvalidHex,
}

impl KeyError {
    /// What a user is told.
    pub open spec fn text(self) -> Seq<char> {
        match self {
            KeyError::WrongLength(n) => "key must be 64 hex characters (32 bytes), got "@ + decimal(
                n as nat,
            ) + " characters"@,
            KeyError::InvalidHex => "key must be valid hex"@,
        }
    }

    /// What a user is told.
    pub fn message(&self) -> (res: String)
        ensures
            res@ == self.text(),
    {
        match self {
            KeyError::WrongLength(n) => {
                let mut res = "key must be 64 hex characters (32 bytes), got ".to_string();
                push_decimal(&mut res, *n);
                res.append(" characters");
                res
            },
            KeyError::InvalidHex => "key must be valid hex".to_string(),
        }
    }
}

/// Two lower-case hex digits for each byte.
pub fn encode_hex(bytes: &[u8]) -> (res: String)
    ensures
        res@ == hex_text(bytes@),
{
    let mut res = String::new();
    let mut i: usize = 0;
    while i < bytes.len()
        invariant
            i <= bytes@.len(),
            res@ == hex_text(bytes@.take(i as int)),
        decreases bytes@.len() - i,
    {
        let high = hex_digit(bytes[i] / 16);
        let low = hex_digit(bytes[i] % 16);
        res.push(high);
        res.push(low);
        i = i + 1;
        assert(res@ =~= hex_text(bytes@.take(i as int)));
    }
    assert(bytes@.take(i as int) =~= bytes@);
    res
}

/// The lower-case hex digit of `n`.
fn hex_digit(n: u8) -> (c: char)
    requires
        n < 16,
    ensures
        c == digit(n as int),
{
    if n < 10 {
        (48 + n) as char
    } else {
        (87 + n) as char
    }
}

/// The value of a hex digit of either case.
fn parse_digit(b: u8) -> (res: Option<u8>)
    ensures
        match digit_value(b) {
            Some(v) => res matches Some(r) && r == v && r < 16,
            None => res is None,
        },
{
    if 48 <= b && b <= 57 {
        Some(b - 48)
    } else if 97 <= b && b <= 102 {
        Some(b - 87)
    } else if 65 <= b && b <= 70 {
        Some(b - 55)
    } else {
        None
    }
}

/// The value of two hex digits.
fn parse_pair(high: u8, low: u8) -> (res: Option<u8>)
    ensures
        match pair_value(high, low) {
            Some(v) => res matches Some(r) && r == v,
            None => res is None,
        },
{
    match (parse_digit(high), parse_digit(low)) {
        (Some(h), Some(l)) => Some(h * 16 + l),
        _ => None,
    }
}

/// The key that `s` stands for: 64 hex digits of either case, two for each byte
/// of the key.
pub fn decode_hex_key(s: &str) -> (res: Result<[u8; 32], KeyError>)
    ensures
        encode_utf8(s@).len() != KEY_TEXT_LEN ==> res == Err::<[u8; 32], KeyError>(
            KeyError::WrongLength(encode_utf8(s@).len() as usize),
        ),
        encode_utf8(s@).len() == KEY_TEXT_LEN ==> match decoded(encode_utf8(s@)) {
            Some(key) => res matches Ok(k) && k@ == key,
            None => res == Err::<[u8; 32], KeyError>(KeyError::InvalidHex),
        },
{
    let text = s.as_bytes();
    if text.len() != KEY_TEXT_LEN {
        return Err(KeyError::WrongLength(text.len()));
    }
    let mut key: [u8; 32] = [0u8;32];
    let mut i: usize = 0;
    while i < KEY_LEN
        invariant
            i <= KEY_LEN,
            text@.len() == KEY_TEXT_LEN,
            text@ == encode_utf8(s@),
            key@.len() == KEY_LEN,
            forall|j: int|
                0 <= j < i ==> #[trigger] pair_at(text@, j) is Some && key@[j] == pair_at(
                    text@,
                    j,
                )->0,
        decreases KEY_LEN - i,
    {
        match parse_pair(text[2 * i], text[2 * i + 1]) {
            Some(b) => {
                assert(pair_at(text@, i as int) is Some);
                key[i] = b;
            },
            None => {
                assert(pair_at(text@, i as int) is None);
                return Err(KeyError::InvalidHex);
            },
        }
        i = i + 1;
    }
    assert(key@ =~= decoded(text@)->0);
    Ok(key)
}

/// A text of 64 bytes is a key exactly if each of them is a hex digit.
pub proof fn key_text_is_hex_digits(text: Seq<u8>)
    requires
        text.len() == KEY_TEXT_LEN,
    ensures
        decoded(text) is Some <==> forall|k: int|
            0 <= k < KEY_TEXT_LEN ==> #[trigger] digit_value(text[k]) is Some,
{
    if decoded(text) is Some {
        assert forall|k: int| 0 <= k < KEY_TEXT_LEN implies #[trigger] digit_value(
            text[k],
        ) is Some by {
            assert(pair_at(text, k / 2) is Some);
        }
    }
    if forall|k: int| 0 <= k < KEY_TEXT_LEN ==> #[trigger] digit_value(text[k]) is Some {
        assert forall|i: int| 0 <= i < KEY_LEN implies #[trigger] pair_at(text, i) is Some by {
            assert(digit_value(text[2 * i]) is Some);
            assert(digit_value(text[2 * i + 1]) is Some);
        }
    }
}

/// Every key comes back from its text.
pub proof fn key_text_round_trip(key: Seq<u8>)
    requires
        key.len() == KEY_LEN,
    ensures
        encode_utf8(hex_text(key)).len() == KEY_TEXT_LEN,
        decoded(encode_utf8(hex_text(key))) == Some(key),
{
    let text = hex_text(key);
    let bytes = encode_utf8(text);
    assert forall|i: int| 0 <= i < text.len() implies '\0' <= #[trigger] text[i] <= '\u{7f}' by {}
    is_ascii_chars_encode_utf8(text);
    assert forall|i: int| 0 <= i < KEY_LEN implies #[trigger] pair_at(bytes, i) == Some(
        key[i] as int,
    ) by {
        assert(bytes[2 * i] == text[2 * i] as u8);
        assert(bytes[2 * i + 1] == text[2 * i + 1] as u8);
        assert(text[2 * i] == digit(key[i] as int / 16));
        assert(text[2 * i + 1] == digit(key[i] as int % 16));
    }
    assert(decoded(bytes)->0 =~= key);
}

/// Every byte is written as two characters, each a digit or one of the small
/// letters `a` to `f`, whose values make up the byte.
pub proof fn every_byte_is_two_digits(bytes: Seq<u8>, i: int)
    requires
        0 <= i < bytes.len(),
    ensures
        hex_text(bytes).len() == 2 * bytes.len(),
        ({
            let high = hex_text(bytes)[2 * i] as int;
            let low = hex_text(bytes)[2 * i + 1] as int;
            let high_value = if high <= 57 {
                high - 48
            } else {
                high - 87
            };
            let low_value = if low <= 57 {
                low - 48
            } else {
                low - 87
            };
            &&& 48 <= high <= 57 || 97 <= high <= 102
            &&& 48 <= low <= 57 || 97 <= low <= 102
            &&& high_value * 16 + low_value == bytes[i]
        }),
{
}

/// Digits and the letters `a` to `f` of either case have the values zero to
/// fifteen, and no other character has one.
pub proof fn digits_have_their_values(b: u8)
    ensures
        digit_value(b) is Some <==> 48 <= b <= 57 || 65 <= b <= 70 || 97 <= b <= 102,
        48 <= b <= 57 ==> digit_value(b) == Some(b - 48),
        65 <= b <= 70 ==> digit_value(b) == Some(b - 65 + 10) && digit_value((b + 32) as u8)
            == digit_value(b),
        97 <= b <= 102 ==> digit_value(b) == Some(b - 97 + 10),
{
}

/// Each byte of a key is made up of its two digits, the first of them sixteen
/// times, in either case.
pub proof fn key_bytes_are_their_digits(text: Seq<u8>, key: Seq<u8>, i: int, high: int, low: int)
    requires
        text.len() == 64,
        decoded(text) == Some(key),
        0 <= i < 32,
        0 <= high < 16,
        0 <= low < 16,
        text[2 * i] == (if high < 10 {
            48 + high
        } else {
            87 + high
        }) || (high >= 10 && text[2 * i] == 55 + high),
        text[2 * i + 1] == (if low < 10 {
            48 + low
        } else {
            87 + low
        }) || (low >= 10 && text[2 * i + 1] == 55 + low),
    ensures
        key.len() == 32,
        key[i] == high * 16 + low,
{
    assert(pair_at(text, i) == Some(high * 16 + low));
}

/// Every text of 64 hex digits is a key.
pub proof fn every_hex_text_is_a_key(text: Seq<u8>)
    requires
        text.len() == 64,
        forall|k: int|
            0 <= k < 64 ==> 48 <= #[trigger] text[k] <= 57 || 65 <= text[k] <= 70 || 97 <= text[k]
                <= 102,
    ensures
        decoded(text) is Some,
{
    assert forall|k: int| 0 <= k < KEY_TEXT_LEN implies #[trigger] digit_value(text[k]) is Some by {
        assert(48 <= text[k] <= 57 || 65 <= text[k] <= 70 || 97 <= text[k] <= 102);
    }
    key_text_is_hex_digits(text);
}

/// No other text is a key.
pub proof fn nothing_else_is_a_key(text: Seq<u8>, k: int)
    requires
        text.len() == 64,
        0 <= k < 64,
        !(48 <= text[k] <= 57 || 65 <= text[k] <= 70 || 97 <= text[k] <= 102),
    ensures
        decoded(text) is None,
{
    key_text_is_hex_digits(text);
    assert(digit_value(text[k]) is None);
}

/// A text of the wrong length is told its length.
pub proof fn wrong_length_is_told(n: usize)
    ensures
        exists|digits: Seq<char>|
            KeyError::WrongLength(n).text() == "key must be 64 hex characters (32 bytes), got "@
                + digits + " characters"@ && #[trigger] number(digits) == n,
        KeyError::InvalidHex.text() == "key must be valid hex"@,
{
    decimal_reads_back(n as nat);
}

} // verus!
