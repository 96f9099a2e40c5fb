//! The hashing session: input goes in through `new` and `update`, and
//! `hexdigest` ends the session with the text of the hash.

use crate::encoding::{digest_len, format_hex, format_text, hex_encode, hex_lower};
use crate::encoding::{has_shape, lemma_format_shape, lemma_hex_lower_digits};
use crate::permutation::lemma_permute_len;
use crate::sponge::{absorb_block, absorb_blocks, pad, remainder, squeeze_bytes, xor_block};
use crate::sponge::{lemma_absorb_blocks_len, lemma_absorb_in_pieces, lemma_squeeze_len};
use crate::sponge::{zero_state, Sponge};
use vstd::prelude::*;

verus! {

/// The shape of the text that a session gives out.
#[derive(Debug, Clone, Copy, PartialEq, Eq, Structural)]
pub enum HashFormat {
    /// 256 bits as 64 lower-case hex digits.
    Standard,
    /// 96 bits as `IDN45-xxxxxxxx-xxxxxxxx-xxxxxxxx`.
    Uuid,
    /// 44 bits as 11 hex digits with one colon among them, 12 characters in
    /// all. Not fit for any use that needs security.
    Short,
}

/// The bytes of an optional part of the input: none for a part left out.
pub open spec fn part_bytes(part: Option<&[u8]>) -> Seq<u8> {
    match part {
        Some(bytes) => bytes@,
        None => Seq::empty(),
    }
}

/// The state of a sponge that has taken `input` and been finalized.
pub open spec fn final_state(input: Seq<u8>) -> Seq<u8> {
    absorb_block(absorb_blocks(zero_state(), input), pad(remainder(input)))
}

/// The first `n` bytes of the digest of `input`.
pub open spec fn digest(input: Seq<u8>, n: nat) -> Seq<u8> {
    squeeze_bytes(final_state(input), n)
}

/// The hash of `input` as text in the given format.
pub open spec fn hash_text(input: Seq<u8>, format: HashFormat) -> Seq<char> {
    format_text(hex_lower(digest(input, digest_len(format))), format)
}

/// A hashing session.
pub struct IDN45 {
    sponge: Sponge,
    finalized: bool,
    input: Ghost<Seq<u8>>,
}

impl View for IDN45 {
    type V = Seq<u8>;

    /// All the bytes that the session has taken, in the order they came.
    closed spec fn view(&self) -> Seq<u8> {
        self.input@
    }
}

impl IDN45 {
    /// The sponge has absorbed exactly the input of the session.
    pub closed spec fn wf(&self) -> bool {
        &&& self.sponge.wf()
        &&& if self.finalized {
            self.sponge@.state == final_state(self.input@)
        } else {
            &&& self.sponge@.state == absorb_blocks(zero_state(), self.input@)
            &&& self.sponge@.buffer == remainder(self.input@)
        }
    }

    /// Whether the padding has been absorbed, after which no input is taken.
    pub closed spec fn is_finalized(&self) -> bool {
        self.finalized
    }

    /// A session that has taken the salt, if there is one, and then the
    /// data, if there is any.
    pub fn new(data: Option<&[u8]>, salt: Option<&[u8]>) -> (hasher: Self)
        ensures
            hasher.wf(),
            !hasher.is_finalized(),
            hasher@ == part_bytes(salt) + part_bytes(data),
    {
        let mut hasher = IDN45 {
            sponge: Sponge::new(),
            finalized: false,
            input: Ghost(Seq::empty()),
        };
        assert(remainder(Seq::<u8>::empty()) =~= Seq::<u8>::empty());
        if let Some(s) = salt {
            hasher.update(s);
        }
        if let Some(d) = data {
            hasher.update(d);
        }
        assert(hasher@ =~= part_bytes(salt) + part_bytes(data));
        hasher
    }

    /// Takes more input.
    pub fn update(&mut self, data: &[u8])
        requires
            old(self).wf(),
            !old(self).is_finalized(),
        ensures
            final(self).wf(),
            !final(self).is_finalized(),
            final(self)@ == old(self)@ + data@,
    {
        proof {
            lemma_absorb_in_pieces(zero_state(), self.input@, data@);
        }
        self.sponge.absorb(data);
        self.input = Ghost(self.input@ + data@);
    }

    /// Ends the session and gives the hash of all its input as text in the
    /// given format.
    pub fn hexdigest(self, format_style: HashFormat) -> (text: String)
        requires
            self.wf(),
        ensures
            text@ == hash_text(self@, format_style),
            has_shape(text@, format_style),
    {
        let mut session = self;
        if !session.finalized {
            session.sponge.finalize();
            session.finalized = true;
        }
        let digest_len_bits: usize = match format_style {
            HashFormat::Standard => 256,
            HashFormat::Uuid => 96,
            HashFormat::Short => 48,
        };
        let digest_bytes = session.sponge.squeeze(digest_len_bits / 8);
        let raw_hex = hex_encode(&digest_bytes);
        proof {
            lemma_absorb_blocks_len(zero_state(), self@);
            lemma_permute_len(
                xor_block(absorb_blocks(zero_state(), self@), pad(remainder(self@))),
            );
            lemma_squeeze_len(final_state(self@), digest_len(format_style));
            lemma_hex_lower_digits(digest_bytes@);
            lemma_format_shape(digest_bytes@, format_style);
        }
        format_hex(raw_hex, format_style)
    }
}

} // verus!
