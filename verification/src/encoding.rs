//! From digest bytes to text: lower-case hex, and the three output shapes.

use crate::hasher::HashFormat;
use vstd::prelude::*;
use vstd::string::*;

verus! {

/// The lower-case hex digit of a value below 16.
pub open spec fn hex_digit(v: u8) -> char {
    if v < 10 {
        (48 + v) as char
    } else {
        (87 + v) as char
    }
}

/// Whether `c` is one of `0` to `9` or `a` to `f`.
pub open spec fn is_lower_hex(c: char) -> bool {
    ('0' <= c <= '9') || ('a' <= c <= 'f')
}

/// The lower-case hex text of `data`: two digits for each byte, the high
/// four bits first.
pub open spec fn hex_lower(data: Seq<u8>) -> Seq<char> {
    Seq::new(
        2 * data.len(),
        |i: int|
            if i % 2 == 0 {
                hex_digit(data[i / 2] >> 4)
            } else {
                hex_digit(data[i / 2] & 0x0f)
            },
    )
}

/// The value of a hex digit of either case, and 0 for any other character.
pub open spec fn hex_value(c: char) -> int {
    if '0' <= c <= '9' {
        c as int - 48
    } else if 'a' <= c <= 'f' {
        c as int - 87
    } else if 'A' <= c <= 'F' {
        c as int - 55
    } else {
        0
    }
}

/// How many digest bytes a format takes.
pub open spec fn digest_len(format: HashFormat) -> nat {
    match format {
        HashFormat::Standard => 32,
        HashFormat::Uuid => 12,
        HashFormat::Short => 6,
    }
}

/// The text `IDN45-`, with which the `Uuid` shape begins.
pub open spec fn uuid_prefix() -> Seq<char> {
    seq!['I', 'D', 'N', '4', '5', '-']
}

/// Where the colon of the `Short` shape goes: one more than the value of the
/// twelfth hex digit modulo 10.
pub open spec fn separator_position(hex: Seq<char>) -> int {
    1 + hex_value(hex[11]) % 10
}

/// The text of a format, made of the hex text of the digest.
pub open spec fn format_text(hex: Seq<char>, format: HashFormat) -> Seq<char> {
    match format {
        HashFormat::Standard => hex,
        HashFormat::Uuid => uuid_prefix() + hex.subrange(0, 8) + seq!['-'] + hex.subrange(8, 16)
            + seq!['-'] + hex.subrange(16, 24),
        HashFormat::Short => hex.subrange(0, separator_position(hex)) + seq![':'] + hex.subrange(
            separator_position(hex),
            11,
        ),
    }
}

/// Whether `text` has the shape of the given format: 64 hex digits; or
/// `IDN45-` and three groups of 8 hex digits with `-` between them, 32
/// characters in all; or 12 characters, of which one, at a position from 1 to 10, is a colon and the
/// others are hex digits.
pub open spec fn has_shape(text: Seq<char>, format: HashFormat) -> bool {
    match format {
        HashFormat::Standard => {
            &&& text.len() == 64
            &&& forall|i: int| 0 <= i < 64 ==> is_lower_hex(#[trigger] text[i])
        },
        HashFormat::Uuid => {
            &&& text.len() == 32
            &&& text.subrange(0, 6) == uuid_prefix()
            &&& text[14] == '-'
            &&& text[23] == '-'
            &&& forall|i: int|
                6 <= i < 32 && i != 14 && i != 23 ==> is_lower_hex(#[trigger] text[i])
        },
        HashFormat::Short => {
            &&& text.len() == 12
            &&& exists|p: int|
                {
                    &&& 1 <= p <= 10
                    &&& #[trigger] text[p] == ':'
                    &&& forall|i: int| 0 <= i < 12 && i != p ==> is_lower_hex(#[trigger] text[i])
                }
        },
    }
}

/// Calls `hex::encode`, which writes each byte as two lower-case hex digits,
/// the high four bits first, so that the text is twice as long as the data.
#[verifier::external_body]
pub(crate) fn hex_encode(data: &Vec<u8>) -> (text: String)
    ensures
        text@ == hex_lower(data@),
{
    hex::encode(data)
}

/// The value of the hex digit with ASCII code `b`, and 0 if it is none.
pub fn hex_digit_value(b: u8) -> (v: u8)
    ensures
        v < 16,
        b < 128 ==> v == hex_value(b as char),
        b >= 128 ==> v == 0,
{
    if 48 <= b && b <= 57 {
        b - 48
    } else if 97 <= b && b <= 102 {
        b - 87
    } else if 65 <= b && b <= 70 {
        b - 55
    } else {
        0
    }
}

/// Lays hex text out in the given format.
pub fn format_hex(raw_hex: String, format: HashFormat) -> (text: String)
    requires
        raw_hex.is_ascii(),
        format == HashFormat::Uuid ==> raw_hex@.len() >= 24,
        format == HashFormat::Short ==> raw_hex@.len() >= 12,
    ensures
        text@ == format_text(raw_hex@, format),
{
    match format {
        HashFormat::Standard => raw_hex,
        HashFormat::Uuid => {
            let hex = raw_hex.as_str();
            proof {
                reveal_strlit("IDN45-");
                reveal_strlit("-");
            }
            let mut text = String::from_str("IDN45-");
            assert(text@ =~= uuid_prefix());
            text.append(hex.substring_ascii(0, 8));
            text.append("-");
            text.append(hex.substring_ascii(8, 16));
            text.append("-");
            text.append(hex.substring_ascii(16, 24));
            assert("-"@ =~= seq!['-']);
            text
        },
        HashFormat::Short => {
            let hex = raw_hex.as_str();
            proof {
                reveal_strlit(":");
            }
            let value = hex_digit_value(hex.get_ascii(11));
            let position: usize = 1 + (value % 10) as usize;
            let mut text = String::from_str(hex.substring_ascii(0, position));
            text.append(":");
            text.append(hex.substring_ascii(position, 11));
            assert(":"@ =~= seq![':']);
            text
        },
    }
}

/// Every character of hex text is a lower-case hex digit.
pub proof fn lemma_hex_lower_digits(data: Seq<u8>)
    ensures
        hex_lower(data).len() == 2 * data.len(),
        forall|i: int| 0 <= i < 2 * data.len() ==> is_lower_hex(#[trigger] hex_lower(data)[i]),
{
    assert forall|i: int| 0 <= i < 2 * data.len() implies is_lower_hex(
        #[trigger] hex_lower(data)[i],
    ) by {
        let b = data[i / 2];
        assert(b >> 4 < 16 && b & 0x0f < 16) by (bit_vector);
    }
}

/// The value of a hex digit is the value it was made of.
pub proof fn lemma_hex_value_of_digit(v: u8)
    requires
        v < 16,
    ensures
        is_lower_hex(hex_digit(v)),
        hex_value(hex_digit(v)) == v,
{
}

/// The colon of the `Short` shape goes by the low four bits of the sixth
/// byte of the digest.
pub proof fn lemma_separator_of_digest(digest: Seq<u8>)
    requires
        digest.len() >= 6,
    ensures
        separator_position(hex_lower(digest)) == 1 + (digest[5] & 0x0f) % 10,
{
    let byte = digest[5];
    assert(byte & 0x0f < 16) by (bit_vector);
    lemma_hex_value_of_digit(byte & 0x0f);
}

/// The text made of a digest of the format's length has the format's shape.
pub proof fn lemma_format_shape(digest: Seq<u8>, format: HashFormat)
    requires
        digest.len() == digest_len(format),
    ensures
        has_shape(format_text(hex_lower(digest), format), format),
{
    let hex = hex_lower(digest);
    let text = format_text(hex, format);
    lemma_hex_lower_digits(digest);
    match format {
        HashFormat::Standard => {
            assert forall|i: int| 0 <= i < 64 implies is_lower_hex(#[trigger] text[i]) by {
                assert(text[i] == hex[i]);
            }
        },
        HashFormat::Uuid => {
            assert(text.subrange(0, 6) =~= uuid_prefix());
            assert forall|i: int| 6 <= i < 32 && i != 14 && i != 23 implies is_lower_hex(
                #[trigger] text[i],
            ) by {
                if i < 14 {
                    assert(text[i] == hex[i - 6]);
                } else if i < 23 {
                    assert(text[i] == hex[i - 7]);
                } else {
                    assert(text[i] == hex[i - 8]);
                }
            }
        },
        HashFormat::Short => {
            let p = separator_position(hex);
            assert(is_lower_hex(hex[11]));
            assert(1 <= p <= 10);
            assert(text[p] == ':');
            assert forall|i: int| 0 <= i < 12 && i != p implies is_lower_hex(
                #[trigger] text[i],
            ) by {
                if i < p {
                    assert(text[i] == hex[i]);
                } else {
                    assert(text[i] == hex[i - 1]);
                }
            }
        },
    }
}

} // verus!
