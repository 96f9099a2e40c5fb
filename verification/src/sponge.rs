//! The sponge: a 200-byte state, of which the leading 136 bytes (the rate)
//! take input and give output, and a buffer for input that does not yet fill
//! a block.

use crate::permutation::{f_permutation, lemma_permute_len, permute};
use vstd::prelude::*;
use vstd::slice::slice_subrange;

verus! {

/// The rate in bytes: the size of a block.
pub const RATE_IN_BYTES: usize = 136;

/// The state of every new sponge: 200 zero bytes.
pub open spec fn zero_state() -> Seq<u8> {
    Seq::new(200, |i: int| 0u8)
}

/// The state with a block XORed into its leading 136 bytes.
pub open spec fn xor_block(state: Seq<u8>, block: Seq<u8>) -> Seq<u8> {
    Seq::new(
        state.len(),
        |i: int|
            if i < 136 {
                state[i] ^ block[i]
            } else {
                state[i]
            },
    )
}

/// The state after one block is absorbed: XORed in, then permuted.
pub open spec fn absorb_block(state: Seq<u8>, block: Seq<u8>) -> Seq<u8> {
    permute(xor_block(state, block))
}

/// The state after every full block of `input` is absorbed, first to last.
pub open spec fn absorb_blocks(state: Seq<u8>, input: Seq<u8>) -> Seq<u8>
    decreases input.len(),
{
    if input.len() < 136 {
        state
    } else {
        absorb_blocks(
            absorb_block(state, input.subrange(0, 136)),
            input.subrange(136, input.len() as int),
        )
    }
}

/// What is left of `input` behind its last full block.
pub open spec fn remainder(input: Seq<u8>) -> Seq<u8> {
    input.subrange(input.len() - input.len() % 136, input.len() as int)
}

/// The last block: the buffered bytes, then `0x06`, then zeros up to 135
/// bytes, then `0x80` as byte 135. Of 135 buffered bytes all are kept, and
/// the `0x06` has no place.
pub open spec fn pad(buffer: Seq<u8>) -> Seq<u8> {
    Seq::new(
        136,
        |i: int|
            if i == 135 {
                0x80u8
            } else if i < buffer.len() {
                buffer[i]
            } else if i == buffer.len() {
                0x06u8
            } else {
                0u8
            },
    )
}

/// How many bytes the next block of output gives, when `n` are still asked.
pub open spec fn block_share(n: nat) -> nat {
    if n < 136 {
        n
    } else {
        136
    }
}

/// The `n` bytes squeezed out of `state`: the leading bytes of the state, up
/// to a block at a time, with a permutation after each block.
pub open spec fn squeeze_bytes(state: Seq<u8>, n: nat) -> Seq<u8>
    decreases n,
{
    if n == 0 {
        Seq::empty()
    } else {
        state.subrange(0, block_share(n) as int) + squeeze_bytes(
            permute(state),
            (n - block_share(n)) as nat,
        )
    }
}

/// The state after `n` bytes are squeezed out of `state`.
pub open spec fn squeeze_state(state: Seq<u8>, n: nat) -> Seq<u8>
    decreases n,
{
    if n == 0 {
        state
    } else {
        squeeze_state(permute(state), (n - block_share(n)) as nat)
    }
}

/// What a sponge holds.
pub struct SpongeView {
    /// The 200 bytes of state.
    pub state: Seq<u8>,
    /// The input that has not been absorbed yet.
    pub buffer: Seq<u8>,
}

/// A sponge.
pub struct Sponge {
    state: [u8; 200],
    buffer: Vec<u8>,
}

impl View for Sponge {
    type V = SpongeView;

    closed spec fn view(&self) -> SpongeView {
        SpongeView { state: self.state@, buffer: self.buffer@ }
    }
}

/// Absorbs the block that starts at `offset` of `input` into the state.
fn absorb_block_at(state: &mut [u8; 200], input: &Vec<u8>, offset: usize)
    requires
        offset + 136 <= input.len(),
    ensures
        final(state)@ == absorb_block(
            old(state)@,
            input@.subrange(offset as int, offset + 136),
        ),
{
    let ghost before = state@;
    let ghost block = input@.subrange(offset as int, offset + 136);
    let mut i: usize = 0;
    while i < RATE_IN_BYTES
        invariant
            i <= 136,
            offset + 136 <= input.len(),
            before.len() == 200,
            block == input@.subrange(offset as int, offset + 136),
            forall|j: int| 0 <= j < i ==> state@[j] == before[j] ^ block[j],
            forall|j: int| i <= j < 200 ==> state@[j] == before[j],
        decreases 136 - i,
    {
        state[i] = state[i] ^ input[offset + i];
        i += 1;
    }
    assert(state@ =~= xor_block(before, block));
    f_permutation(state);
}

impl Sponge {
    /// The state has its 200 bytes, and the buffer holds less than a block.
    pub open spec fn wf(&self) -> bool {
        &&& self@.state.len() == 200
        &&& self@.buffer.len() < 136
    }

    /// A sponge with an all-zero state and nothing buffered.
    pub fn new() -> (s: Self)
        ensures
            s.wf(),
            s@.state == zero_state(),
            s@.buffer == Seq::<u8>::empty(),
    {
        let s = Sponge { state: [0u8;200], buffer: Vec::with_capacity(RATE_IN_BYTES) };
        assert(s.state@ =~= zero_state());
        s
    }

    /// Takes `data` in: it is appended to the buffer, every full block of
    /// the buffer is absorbed, and what is left stays buffered.
    pub fn absorb(&mut self, data: &[u8])
        requires
            old(self).wf(),
        ensures
            final(self).wf(),
            final(self)@.state == absorb_blocks(old(self)@.state, old(self)@.buffer + data@),
            final(self)@.buffer == remainder(old(self)@.buffer + data@),
    {
        let ghost start = self.state@;
        self.buffer.extend_from_slice(data);
        let ghost input = self.buffer@;
        assert(input =~= old(self)@.buffer + data@);
        let len = self.buffer.len();
        let mut offset: usize = 0;
        assert(input.subrange(0, len as int) =~= input);
        while len - offset >= RATE_IN_BYTES
            invariant
                offset <= len,
                len == input.len(),
                offset % 136 == 0,
                self.buffer@ == input,
                absorb_blocks(start, input) == absorb_blocks(
                    self.state@,
                    input.subrange(offset as int, len as int),
                ),
            decreases len - offset,
        {
            let ghost rest = input.subrange(offset as int, len as int);
            assert(rest.subrange(0, 136) =~= input.subrange(offset as int, offset + 136));
            assert(rest.subrange(136, rest.len() as int) =~= input.subrange(
                offset + 136,
                len as int,
            ));
            absorb_block_at(&mut self.state, &self.buffer, offset);
            offset += RATE_IN_BYTES;
        }
        let rest = self.buffer.split_off(offset);
        self.buffer = rest;
    }

    /// Ends the input: the buffered bytes are padded to one block, that
    /// block is absorbed, and the buffer is emptied.
    pub fn finalize(&mut self)
        requires
            old(self).wf(),
        ensures
            final(self).wf(),
            final(self)@.state == absorb_block(old(self)@.state, pad(old(self)@.buffer)),
            final(self)@.buffer == Seq::<u8>::empty(),
    {
        let ghost buffered = self.buffer@;
        self.buffer.push(0x06);
        let ghost marked = self.buffer@;
        self.buffer.resize(RATE_IN_BYTES - 1, 0);
        assert forall|i: int| 0 <= i < 135 implies self.buffer@[i] == pad(buffered)[i] by {
            if i < marked.len() && marked.len() < 135 {
                assert(self.buffer@.subrange(0, marked.len() as int)[i] == marked[i]);
            }
        }
        self.buffer.push(0x80);
        assert(self.buffer@ =~= pad(buffered));
        assert(self.buffer@.subrange(0, 136) =~= self.buffer@);
        absorb_block_at(&mut self.state, &self.buffer, 0);
        self.buffer.clear();
    }

    /// Gives `out_len` bytes of output: the leading bytes of the state, up to
    /// a block at a time, with a permutation after each block.
    pub fn squeeze(&mut self, out_len: usize) -> (output: Vec<u8>)
        requires
            old(self).wf(),
        ensures
            final(self).wf(),
            output@.len() == out_len,
            output@ == squeeze_bytes(old(self)@.state, out_len as nat),
            final(self)@.state == squeeze_state(old(self)@.state, out_len as nat),
            final(self)@.buffer == old(self)@.buffer,
    {
        let ghost start = self.state@;
        let mut output: Vec<u8> = Vec::new();
        while output.len() < out_len
            invariant
                output@.len() <= out_len,
                self.buffer@ == old(self).buffer@,
                squeeze_bytes(start, out_len as nat) == output@ + squeeze_bytes(
                    self.state@,
                    (out_len - output@.len()) as nat,
                ),
                squeeze_state(start, out_len as nat) == squeeze_state(
                    self.state@,
                    (out_len - output@.len()) as nat,
                ),
            decreases out_len - output@.len(),
        {
            let left: usize = out_len - output.len();
            let take_len: usize = if left < RATE_IN_BYTES {
                left
            } else {
                RATE_IN_BYTES
            };
            let ghost so_far = output@;
            let ghost state_now = self.state@;
            output.extend_from_slice(slice_subrange(self.state.as_slice(), 0, take_len));
            assert(output@ =~= so_far + state_now.subrange(0, take_len as int));
            f_permutation(&mut self.state);
            assert(so_far + (state_now.subrange(0, take_len as int) + squeeze_bytes(
                self.state@,
                (left - take_len) as nat,
            )) =~= output@ + squeeze_bytes(self.state@, (left - take_len) as nat));
        }
        assert(output@ + Seq::<u8>::empty() =~= output@);
        output
    }
}

/// Input may come in pieces: absorbing `a`, and then `b` behind what `a`
/// left in the buffer, gives the state and the buffer that absorbing `a + b`
/// at once gives.
pub proof fn lemma_absorb_in_pieces(state: Seq<u8>, a: Seq<u8>, b: Seq<u8>)
    ensures
        absorb_blocks(absorb_blocks(state, a), remainder(a) + b) == absorb_blocks(state, a + b),
        remainder(remainder(a) + b) == remainder(a + b),
    decreases a.len(),
{
    if a.len() < 136 {
        assert(remainder(a) =~= a);
    } else {
        let head = a.subrange(0, 136);
        let tail = a.subrange(136, a.len() as int);
        lemma_absorb_in_pieces(absorb_block(state, head), tail, b);
        assert((a + b).subrange(0, 136) =~= head);
        assert((a + b).subrange(136, (a + b).len() as int) =~= tail + b);
        assert(remainder(tail) =~= remainder(a));
        assert(remainder(tail + b) =~= remainder(a + b));
    }
}

/// The state keeps its 200 bytes through every block absorbed.
pub proof fn lemma_absorb_blocks_len(state: Seq<u8>, input: Seq<u8>)
    requires
        state.len() == 200,
    ensures
        absorb_blocks(state, input).len() == 200,
    decreases input.len(),
{
    if input.len() >= 136 {
        lemma_permute_len(xor_block(state, input.subrange(0, 136)));
        lemma_absorb_blocks_len(
            absorb_block(state, input.subrange(0, 136)),
            input.subrange(136, input.len() as int),
        );
    }
}

/// Squeezing gives as many bytes as were asked.
pub proof fn lemma_squeeze_len(state: Seq<u8>, n: nat)
    requires
        state.len() == 200,
    ensures
        squeeze_bytes(state, n).len() == n,
    decreases n,
{
    if n > 0 {
        lemma_permute_len(state);
        lemma_squeeze_len(permute(state), (n - block_share(n)) as nat);
    }
}

/// Output may be taken in pieces, as long as every piece but the last is a
/// whole number of blocks: the pieces are what one call gives.
pub proof fn lemma_squeeze_in_pieces(state: Seq<u8>, blocks: nat, n: nat)
    ensures
        squeeze_bytes(state, 136 * blocks + n) == squeeze_bytes(state, 136 * blocks)
            + squeeze_bytes(squeeze_state(state, 136 * blocks), n),
        squeeze_state(state, 136 * blocks + n) == squeeze_state(
            squeeze_state(state, 136 * blocks),
            n,
        ),
    decreases blocks,
{
    if blocks == 0 {
        assert(Seq::<u8>::empty() + squeeze_bytes(state, n) =~= squeeze_bytes(state, n));
    } else {
        let m = (blocks - 1) as nat;
        lemma_squeeze_in_pieces(permute(state), m, n);
        assert(136 * blocks + n - 136 == 136 * m + n);
        assert(136 * blocks - 136 == 136 * m);
        assert(state.subrange(0, 136) + (squeeze_bytes(permute(state), 136 * m) + squeeze_bytes(
            squeeze_state(permute(state), 136 * m),
            n,
        )) =~= (state.subrange(0, 136) + squeeze_bytes(permute(state), 136 * m)) + squeeze_bytes(
            squeeze_state(permute(state), 136 * m),
            n,
        ));
    }
}

} // verus!
