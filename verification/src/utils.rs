//! Checking a hash text against data: the format is read off the text, the
//! hash of the data is made again in that format, and the two are compared.

use crate::encoding::{digest_len, has_shape, is_lower_hex, lemma_format_shape, uuid_prefix};
use crate::hasher::{digest, final_state, hash_text, part_bytes, HashFormat, IDN45};
use crate::permutation::lemma_permute_len;
use crate::sponge::{absorb_blocks, lemma_absorb_blocks_len, lemma_squeeze_len, pad, remainder};
use crate::sponge::{xor_block, zero_state};
use vstd::prelude::*;
use vstd::string::*;

verus! {

/// The format that a text claims by its looks: 30 characters that begin
/// with `IDN45-` claim `Uuid`; else 12 characters with a colon among them
/// claim `Short`; else 64 characters claim `Standard`; any other text claims
/// none.
pub open spec fn detected_format(text: Seq<char>) -> Option<HashFormat> {
    if text.len() == 30 && text.subrange(0, 6) == uuid_prefix() {
        Some(HashFormat::Uuid)
    } else if text.len() == 12 && text.contains(':') {
        Some(HashFormat::Short)
    } else if text.len() == 64 {
        Some(HashFormat::Standard)
    } else {
        None
    }
}

/// Whether `text` claims a format and is the hash of the salt and the data
/// in that format.
pub open spec fn matches_hash(data: Seq<u8>, text: Seq<char>, salt: Option<&[u8]>) -> bool {
    match detected_format(text) {
        Some(format) => text == hash_text(part_bytes(salt) + data, format),
        None => false,
    }
}

/// Whether the text begins with `IDN45-`.
fn has_uuid_prefix(text: &str) -> (yes: bool)
    requires
        text@.len() >= 6,
    ensures
        yes == (text@.subrange(0, 6) == uuid_prefix()),
{
    let yes = text.get_char(0) == 'I' && text.get_char(1) == 'D' && text.get_char(2) == 'N'
        && text.get_char(3) == '4' && text.get_char(4) == '5' && text.get_char(5) == '-';
    proof {
        if yes {
            assert(text@.subrange(0, 6) =~= uuid_prefix());
        } else {
            assert(text@.subrange(0, 6)[0] == text@[0]);
            assert(text@.subrange(0, 6)[1] == text@[1]);
            assert(text@.subrange(0, 6)[2] == text@[2]);
            assert(text@.subrange(0, 6)[3] == text@[3]);
            assert(text@.subrange(0, 6)[4] == text@[4]);
            assert(text@.subrange(0, 6)[5] == text@[5]);
        }
    }
    yes
}

/// Whether there is a colon among the first `len` characters of the text.
fn has_colon(text: &str, len: usize) -> (yes: bool)
    requires
        len == text@.len(),
    ensures
        yes == text@.contains(':'),
{
    let mut i: usize = 0;
    while i < len
        invariant
            i <= len,
            len == text@.len(),
            forall|j: int| 0 <= j < i ==> text@[j] != ':',
        decreases len - i,
    {
        if text.get_char(i) == ':' {
            return true;
        }
        i += 1;
    }
    false
}

/// Reads the format off a text.
pub fn detect_format(given_hash: &str) -> (format: Option<HashFormat>)
    ensures
        format == detected_format(given_hash@),
{
    let len = given_hash.unicode_len();
    if len == 30 && has_uuid_prefix(given_hash) {
        Some(HashFormat::Uuid)
    } else if len == 12 && has_colon(given_hash, len) {
        Some(HashFormat::Short)
    } else if len == 64 {
        Some(HashFormat::Standard)
    } else {
        None
    }
}

/// Says whether `given_hash` is the hash of the salt and the data, in the
/// format that it claims; a text that claims no format is no match.
pub fn validate_hash(original_data: &[u8], given_hash: &str, salt: Option<&[u8]>) -> (ok: bool)
    ensures
        ok == matches_hash(original_data@, given_hash@, salt),
{
    let format_style = match detect_format(given_hash) {
        Some(format) => format,
        None => {
            return false;
        },
    };
    let hasher = IDN45::new(Some(original_data), salt);
    let recalculated_hash = hasher.hexdigest(format_style);
    recalculated_hash == given_hash.to_owned()
}

/// The hash text of any input has the shape of its format.
pub proof fn lemma_hash_text_shape(input: Seq<u8>, format: HashFormat)
    ensures
        has_shape(hash_text(input, format), format),
{
    lemma_absorb_blocks_len(zero_state(), input);
    lemma_permute_len(xor_block(absorb_blocks(zero_state(), input), pad(remainder(input))));
    lemma_squeeze_len(final_state(input), digest_len(format));
    lemma_format_shape(digest(input, digest_len(format)), format);
}

/// A hash text in the `Standard` or the `Short` format claims its own
/// format.
pub proof fn lemma_detects_own_format(input: Seq<u8>, format: HashFormat)
    requires
        format != HashFormat::Uuid,
    ensures
        detected_format(hash_text(input, format)) == Some(format),
{
    lemma_hash_text_shape(input, format);
    let text = hash_text(input, format);
    if format == HashFormat::Short {
        let p = choose|p: int|
            {
                &&& 1 <= p <= 10
                &&& #[trigger] text[p] == ':'
                &&& forall|i: int| 0 <= i < 12 && i != p ==> is_lower_hex(#[trigger] text[i])
            };
        assert(text[p] == ':');
        assert(text.contains(':'));
    }
}

/// A hash text in the `Uuid` format has 32 characters, and a text claims
/// `Uuid` only with 30: it claims no format.
pub proof fn lemma_uuid_text_claims_none(input: Seq<u8>)
    ensures
        detected_format(hash_text(input, HashFormat::Uuid)) == None::<HashFormat>,
{
    lemma_hash_text_shape(input, HashFormat::Uuid);
    let text = hash_text(input, HashFormat::Uuid);
    assert(text[0] == text.subrange(0, 6)[0]);
    assert(!is_lower_hex(':'));
}

/// Round trip: the hash of data and salt in the `Standard` or the `Short`
/// format is confirmed against the same data and salt.
pub proof fn lemma_round_trip(data: Seq<u8>, salt: Option<&[u8]>, format: HashFormat)
    requires
        format != HashFormat::Uuid,
    ensures
        matches_hash(data, hash_text(part_bytes(salt) + data, format), salt),
{
    lemma_detects_own_format(part_bytes(salt) + data, format);
}

/// A text is confirmed only if it is the hash of the data and the salt in
/// the `Standard` or the `Short` format.
pub proof fn lemma_confirmed_is_hash(data: Seq<u8>, text: Seq<char>, salt: Option<&[u8]>)
    requires
        matches_hash(data, text, salt),
    ensures
        text == hash_text(part_bytes(salt) + data, HashFormat::Standard) || text == hash_text(
            part_bytes(salt) + data,
            HashFormat::Short,
        ),
{
    if detected_format(text) == Some(HashFormat::Uuid) {
        lemma_hash_text_shape(part_bytes(salt) + data, HashFormat::Uuid);
    }
}

/// Determinism: two sessions that have taken the same salt and data stand
/// for the same input, and so give the same text in every format.
pub proof fn lemma_same_input_same_text(
    first: IDN45,
    second: IDN45,
    data: Option<&[u8]>,
    salt: Option<&[u8]>,
    format: HashFormat,
)
    requires
        first@ == part_bytes(salt) + part_bytes(data),
        second@ == part_bytes(salt) + part_bytes(data),
    ensures
        hash_text(first@, format) == hash_text(second@, format),
{
}

} // verus!
