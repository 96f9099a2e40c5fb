//! The permutation of the 1600-bit sponge state.
//!
//! The state is 200 bytes, read as 25 little-endian 64-bit lanes. Lane
//! `(x, y)` of the 5x5 matrix is lane number `x + 5 * y` and starts at byte
//! `8 * (x + 5 * y)`. One round is theta, then the fused rho and pi steps,
//! then chi, then iota; the permutation is 24 rounds.

use vstd::prelude::*;

verus! {

/// The constants that iota adds into lane 0, one for each round.
pub const ROUND_CONSTANTS: [u64; 24] = [
    0x0000000000000001,
    0x0000000000008082,
    0x800000000000808a,
    0x8000000080008000,
    0x000000000000808b,
    0x0000000080000001,
    0x8000000080008081,
    0x8000000000008009,
    0x000000000000008a,
    0x0000000000000088,
    0x0000000080008009,
    0x000000008000000a,
    0x000000008000808b,
    0x800000000000008b,
    0x8000000000008089,
    0x8000000000008003,
    0x8000000000008002,
    0x8000000000000080,
    0x000000000000800a,
    0x800000008000000a,
    0x8000000080008081,
    0x8000000000008080,
    0x0000000080000001,
    0x8000000080008008,
];

/// `x` rotated left by `n` bits, for `n` below 64.
pub open spec fn rotl(x: u64, n: u32) -> u64 {
    if n == 0 {
        x
    } else {
        (x << n) | (x >> ((64 - n) as u32))
    }
}

/// The lane that starts at byte `8 * i` of `bytes`, little-endian.
pub open spec fn lane_at(bytes: Seq<u8>, i: int) -> u64 {
    (bytes[8 * i] as u64) | (bytes[8 * i + 1] as u64) << 8 | (bytes[8 * i + 2] as u64) << 16 | (
    bytes[8 * i + 3] as u64) << 24 | (bytes[8 * i + 4] as u64) << 32 | (bytes[8 * i + 5] as u64)
        << 40 | (bytes[8 * i + 6] as u64) << 48 | (bytes[8 * i + 7] as u64) << 56
}

/// The 25 lanes of a 200-byte state.
pub open spec fn lanes_of(bytes: Seq<u8>) -> Seq<u64> {
    Seq::new(25, |i: int| lane_at(bytes, i))
}

/// Byte `k` of a lane, counted from the least significant one.
pub open spec fn lane_byte(lane: u64, k: int) -> u8 {
    ((lane >> ((8 * k) as u64)) & 0xff) as u8
}

/// The 200 bytes that hold 25 lanes.
pub open spec fn bytes_of(lanes: Seq<u64>) -> Seq<u8> {
    Seq::new(200, |k: int| lane_byte(lanes[k / 8], k % 8))
}

/// XOR of the five lanes of column `x`.
pub open spec fn column_parity(l: Seq<u64>, x: int) -> u64 {
    l[x] ^ l[x + 5] ^ l[x + 10] ^ l[x + 15] ^ l[x + 20]
}

/// What theta adds into every lane of column `x`: the parity of the column
/// before it, and the parity of the column after it rotated by one bit.
pub open spec fn theta_mask(l: Seq<u64>, x: int) -> u64 {
    column_parity(l, (x + 4) % 5) ^ rotl(column_parity(l, (x + 1) % 5), 1)
}

/// Theta.
pub open spec fn theta(l: Seq<u64>) -> Seq<u64> {
    Seq::new(25, |i: int| l[i] ^ theta_mask(l, i % 5))
}

/// The round's share of the rotation amounts: the triangular number
/// `(round + 1)(round + 2) / 2`, modulo 64.
pub open spec fn triangular(round: int) -> int {
    ((round + 1) * (round + 2) / 2) % 64
}

/// How far rho rotates lane `(x, y)` in the given round.
pub open spec fn rotation(x: int, y: int, round: int) -> u32 {
    (((11 * x + 23 * y) % 64 + triangular(round)) % 64) as u32
}

/// The number of the lane to which pi moves lane `(x, y)`: column `y`, row
/// `(2x + 3y) mod 5`.
pub open spec fn pi_target(x: int, y: int) -> int {
    y + 5 * ((2 * x + 3 * y) % 5)
}

/// The number of the lane to which pi moves lane number `j`.
pub open spec fn target_of(j: int) -> int {
    pi_target(j % 5, j / 5)
}

/// The number of the lane that pi moves to lane number `i`.
pub open spec fn pi_source(i: int) -> int {
    (i % 5 + 3 * (i / 5)) % 5 + 5 * (i % 5)
}

/// Rho and pi in one step: every lane is rotated by its amount for the
/// round and moved to its target.
pub open spec fn rho_pi(l: Seq<u64>, round: int) -> Seq<u64> {
    Seq::new(
        25,
        |i: int|
            {
                let s = pi_source(i);
                rotl(l[s], rotation(s % 5, s / 5, round))
            },
    )
}

/// Chi: every lane is combined with the next two lanes of its row.
pub open spec fn chi(l: Seq<u64>) -> Seq<u64> {
    Seq::new(
        25,
        |i: int|
            {
                let x = i % 5;
                let y = i / 5;
                l[i] ^ (!l[(x + 1) % 5 + 5 * y] & l[(x + 2) % 5 + 5 * y])
            },
    )
}

/// Iota: the round's constant is added into lane 0.
pub open spec fn iota(l: Seq<u64>, round: int) -> Seq<u64> {
    l.update(0, l[0] ^ ROUND_CONSTANTS[round])
}

/// One round on the lanes.
pub open spec fn round_of(l: Seq<u64>, round: int) -> Seq<u64> {
    iota(chi(rho_pi(theta(l), round)), round)
}

/// The lanes after rounds `0` to `n - 1`.
pub open spec fn rounds(l: Seq<u64>, n: nat) -> Seq<u64>
    decreases n,
{
    if n == 0 {
        l
    } else {
        round_of(rounds(l, (n - 1) as nat), n - 1)
    }
}

/// The permutation on a 200-byte state.
#[verifier::opaque]
pub open spec fn permute(bytes: Seq<u8>) -> Seq<u8> {
    bytes_of(rounds(lanes_of(bytes), 24))
}

/// Rotates `x` left by `n` bits.
pub fn rotate_left(x: u64, n: u32) -> (r: u64)
    requires
        n < 64,
    ensures
        r == rotl(x, n),
{
    if n == 0 {
        x
    } else {
        (x << n) | (x >> (64 - n))
    }
}

/// Reads the 25 lanes out of the state.
fn load_lanes(state: &[u8; 200]) -> (lanes: [u64; 25])
    ensures
        lanes@ == lanes_of(state@),
{
    let mut lanes = [0u64;25];
    let mut i: usize = 0;
    while i < 25
        invariant
            i <= 25,
            forall|j: int| 0 <= j < i ==> lanes@[j] == lane_at(state@, j),
        decreases 25 - i,
    {
        let b: usize = 8 * i;
        lanes[i] = (state[b] as u64) | (state[b + 1] as u64) << 8 | (state[b + 2] as u64) << 16 | (
        state[b + 3] as u64) << 24 | (state[b + 4] as u64) << 32 | (state[b + 5] as u64) << 40 | (
        state[b + 6] as u64) << 48 | (state[b + 7] as u64) << 56;
        i += 1;
    }
    assert(lanes@ =~= lanes_of(state@));
    lanes
}

/// Writes the 25 lanes back into the state.
fn store_lanes(state: &mut [u8; 200], lanes: &[u64; 25])
    ensures
        final(state)@ == bytes_of(lanes@),
{
    let mut k: usize = 0;
    while k < 200
        invariant
            k <= 200,
            forall|j: int| 0 <= j < k ==> state@[j] == lane_byte(lanes@[j / 8], j % 8),
        decreases 200 - k,
    {
        let lane: u64 = lanes[k / 8];
        let shift: u64 = 8 * ((k % 8) as u64);
        let low: u64 = (lane >> shift) & 0xff;
        assert(low < 256) by (bit_vector)
            requires
                low == (lane >> shift) & 0xff,
        ;
        state[k] = low as u8;
        k += 1;
    }
    assert(state@ =~= bytes_of(lanes@));
}

/// Theta on the lanes.
fn theta_step(lanes: &[u64; 25]) -> (out: [u64; 25])
    ensures
        out@ == theta(lanes@),
{
    let mut c = [0u64;5];
    let mut x: usize = 0;
    while x < 5
        invariant
            x <= 5,
            forall|j: int| 0 <= j < x ==> c@[j] == column_parity(lanes@, j),
        decreases 5 - x,
    {
        c[x] = lanes[x] ^ lanes[x + 5] ^ lanes[x + 10] ^ lanes[x + 15] ^ lanes[x + 20];
        x += 1;
    }
    let mut d = [0u64;5];
    let mut x: usize = 0;
    while x < 5
        invariant
            x <= 5,
            forall|j: int| 0 <= j < 5 ==> c@[j] == column_parity(lanes@, j),
            forall|j: int| 0 <= j < x ==> d@[j] == theta_mask(lanes@, j),
        decreases 5 - x,
    {
        d[x] = c[(x + 4) % 5] ^ rotate_left(c[(x + 1) % 5], 1);
        x += 1;
    }
    let mut out = [0u64;25];
    let mut i: usize = 0;
    while i < 25
        invariant
            i <= 25,
            forall|j: int| 0 <= j < 5 ==> d@[j] == theta_mask(lanes@, j),
            forall|j: int| 0 <= j < i ==> out@[j] == lanes@[j] ^ theta_mask(lanes@, j % 5),
        decreases 25 - i,
    {
        out[i] = lanes[i] ^ d[i % 5];
        i += 1;
    }
    assert(out@ =~= theta(lanes@));
    out
}

/// The rotation amount of lane `(x, y)` in the given round.
fn rotation_amount(x: usize, y: usize, round: usize) -> (r: u32)
    requires
        x < 5,
        y < 5,
        round < 24,
    ensures
        r == rotation(x as int, y as int, round as int),
        r < 64,
{
    let a: u32 = (x as u32 * 11 + y as u32 * 23) % 64;
    let n: u32 = round as u32;
    assert((n + 1) * (n + 2) <= 600) by (nonlinear_arith)
        requires
            n < 24,
    ;
    let t: u32 = ((n + 1) * (n + 2) / 2) % 64;
    (a + t) % 64
}

/// Rho and pi on the lanes.
fn rho_pi_step(lanes: &[u64; 25], round: usize) -> (out: [u64; 25])
    requires
        round < 24,
    ensures
        out@ == rho_pi(lanes@, round as int),
{
    let mut out = [0u64;25];
    let mut i: usize = 0;
    while i < 25
        invariant
            i <= 25,
            round < 24,
            forall|j: int|
                0 <= j < i ==> out@[#[trigger] target_of(j)] == rotl(
                    lanes@[j],
                    rotation(j % 5, j / 5, round as int),
                ),
        decreases 25 - i,
    {
        let x: usize = i % 5;
        let y: usize = i / 5;
        let target: usize = y + 5 * ((2 * x + 3 * y) % 5);
        out[target] = rotate_left(lanes[i], rotation_amount(x, y, round));
        proof {
            assert forall|j: int| 0 <= j < i implies #[trigger] target_of(j) != target by {
                lemma_pi_inverse(j);
                lemma_pi_inverse(i as int);
            }
        }
        i += 1;
    }
    proof {
        assert forall|k: int| 0 <= k < 25 implies out@[k] == rho_pi(lanes@, round as int)[k] by {
            let s = pi_source(k);
            lemma_pi_source(k);
            assert(out@[target_of(s)] == rotl(
                lanes@[s],
                rotation(s % 5, s / 5, round as int),
            ));
        }
        assert(out@ =~= rho_pi(lanes@, round as int));
    }
    out
}

/// Chi on the lanes.
fn chi_step(lanes: &[u64; 25]) -> (out: [u64; 25])
    ensures
        out@ == chi(lanes@),
{
    let mut out = [0u64;25];
    let mut i: usize = 0;
    while i < 25
        invariant
            i <= 25,
            forall|j: int| 0 <= j < i ==> out@[j] == chi(lanes@)[j],
        decreases 25 - i,
    {
        let x: usize = i % 5;
        let y: usize = i / 5;
        out[i] = lanes[i] ^ (!lanes[(x + 1) % 5 + 5 * y] & lanes[(x + 2) % 5 + 5 * y]);
        i += 1;
    }
    assert(out@ =~= chi(lanes@));
    out
}

/// One round on the lanes.
fn round_step(lanes: &[u64; 25], round: usize) -> (out: [u64; 25])
    requires
        round < 24,
    ensures
        out@ == round_of(lanes@, round as int),
{
    let a = theta_step(lanes);
    let b = rho_pi_step(&a, round);
    let mut c = chi_step(&b);
    c[0] = c[0] ^ ROUND_CONSTANTS[round];
    c
}

/// Applies the permutation to the state, in place.
pub fn f_permutation(state: &mut [u8; 200])
    ensures
        final(state)@ == permute(old(state)@),
{
    let mut lanes = load_lanes(state);
    let mut round: usize = 0;
    while round < 24
        invariant
            round <= 24,
            lanes@ == rounds(lanes_of(state@), round as nat),
        decreases 24 - round,
    {
        lanes = round_step(&lanes, round);
        round += 1;
    }
    store_lanes(state, &lanes);
    proof {
        reveal(permute);
    }
}

/// The permuted state has 200 bytes.
pub proof fn lemma_permute_len(bytes: Seq<u8>)
    ensures
        permute(bytes).len() == 200,
{
    reveal(permute);
}

/// Pi is a bijection on the lane numbers: `pi_source` undoes `pi_target`.
pub proof fn lemma_pi_inverse(i: int)
    requires
        0 <= i < 25,
    ensures
        0 <= pi_target(i % 5, i / 5) < 25,
        pi_source(pi_target(i % 5, i / 5)) == i,
{
}

/// Pi is a bijection on the lane numbers: `pi_target` undoes `pi_source`.
pub proof fn lemma_pi_source(k: int)
    requires
        0 <= k < 25,
    ensures
        0 <= pi_source(k) < 25,
        pi_target(pi_source(k) % 5, pi_source(k) / 5) == k,
{
}

/// Rho and pi, seen from the lane that moves: lane `(x, y)`, rotated by its
/// amount for the round, is found at column `y`, row `(2x + 3y) mod 5`.
pub proof fn lemma_rho_pi_moves(l: Seq<u64>, round: int, x: int, y: int)
    requires
        0 <= x < 5,
        0 <= y < 5,
    ensures
        rho_pi(l, round)[pi_target(x, y)] == rotl(l[x + 5 * y], rotation(x, y, round)),
{
    lemma_pi_inverse(x + 5 * y);
}

} // verus!
