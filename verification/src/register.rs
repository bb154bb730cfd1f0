//! The register as a mathematical object.
//!
//! A register is a sequence of `STATE_SIZE` cells of one byte each. A step
//! reads taps in three regions of it (cells 65 to 93, 161 to 174 and 242 to
//! 287), joins them by `&` and `^` into two feedback terms, moves every cell
//! up by one position, and writes the two terms into cells 0 and 93. The byte
//! that the step emits is the exclusive or of the two terms.
//!
//! Every operation is bitwise, so the eight bit positions of the cells never
//! mix: `laws::lemma_bit_positions_do_not_mix` states it.

use vstd::prelude::*;

verus! {

/// Number of cells in the register.
pub const STATE_SIZE: usize = 288;

/// Number of key bytes; they fill cells `0..KEY_SIZE`.
pub const KEY_SIZE: usize = 80;

/// Number of IV bytes; they fill cells `IV_OFFSET..IV_OFFSET + IV_SIZE`.
pub const IV_SIZE: usize = 80;

/// First cell of the IV.
pub const IV_OFFSET: usize = 93;

/// Cell that is set to one after key and IV are in place. It lies inside the
/// IV range, so the IV byte at `MARKER_CELL - IV_OFFSET` never reaches the
/// register.
pub const MARKER_CELL: usize = 111;

/// Number of passes run over a freshly loaded register before any output is
/// used.
pub const INITIALIZATION_ROUNDS: usize = 4;

/// Number of steps in one pass.
pub const NUMBER_OF_ROUNDS: usize = 100;

/// The term that is fed back into cell `IV_OFFSET`.
pub open spec fn feedback_mid(s: Seq<u8>) -> u8 {
    s[65] ^ s[90] ^ (s[92] & s[93]) ^ (s[171] & s[174]) ^ (s[263] & s[285])
}

/// The term that is fed back into cell 0.
pub open spec fn feedback_low(s: Seq<u8>) -> u8 {
    s[161] ^ s[174] ^ (s[242] & s[287])
}

/// The byte that a step emits: both feedback terms of the register as it is
/// before the step, joined by exclusive or.
pub open spec fn output_byte(s: Seq<u8>) -> u8 {
    feedback_mid(s) ^ feedback_low(s)
}

/// The register after one step: every cell takes the value of its lower
/// neighbour, except the two cells that take a feedback term.
pub open spec fn next_state(s: Seq<u8>) -> Seq<u8> {
    Seq::new(
        STATE_SIZE as nat,
        |i: int|
            if i == 0 {
                feedback_low(s)
            } else if i == IV_OFFSET {
                feedback_mid(s)
            } else {
                s[i - 1]
            },
    )
}

/// The register after `n` steps.
pub open spec fn advance(s: Seq<u8>, n: nat) -> Seq<u8>
    decreases n,
{
    if n == 0 {
        s
    } else {
        next_state(advance(s, (n - 1) as nat))
    }
}

/// The first `n` bytes that a register in state `s` emits.
pub open spec fn keystream(s: Seq<u8>, n: nat) -> Seq<u8> {
    Seq::new(n, |i: int| output_byte(advance(s, i as nat)))
}

/// The register right after key and IV are loaded, before any step.
pub open spec fn loaded_state(key: Seq<u8>, iv: Seq<u8>) -> Seq<u8> {
    Seq::new(
        STATE_SIZE as nat,
        |i: int|
            if i == MARKER_CELL {
                1u8
            } else if 0 <= i < KEY_SIZE {
                key[i]
            } else if IV_OFFSET <= i < IV_OFFSET + IV_SIZE {
                iv[i - IV_OFFSET]
            } else {
                0u8
            },
    )
}

/// Number of steps that the warm-up takes.
pub open spec fn warm_up_steps() -> nat {
    (INITIALIZATION_ROUNDS * NUMBER_OF_ROUNDS) as nat
}

/// The register of a fresh engine: loaded, then warmed up.
pub open spec fn initial_state(key: Seq<u8>, iv: Seq<u8>) -> Seq<u8> {
    advance(loaded_state(key, iv), warm_up_steps())
}

/// `data` with each byte combined with the byte of `stream` at the same
/// position.
pub open spec fn xor_bytes(data: Seq<u8>, stream: Seq<u8>) -> Seq<u8> {
    Seq::new(data.len(), |i: int| data[i] ^ stream[i])
}

/// What a register in state `s` turns `data` into: `data` combined with the
/// first `data.len()` bytes of its keystream.
pub open spec fn apply_keystream(s: Seq<u8>, data: Seq<u8>) -> Seq<u8> {
    xor_bytes(data, keystream(s, data.len()))
}

/// `s` with every byte reduced to the bit positions that are set in `mask`.
pub open spec fn masked(s: Seq<u8>, mask: u8) -> Seq<u8> {
    Seq::new(s.len(), |i: int| s[i] & mask)
}

/// Stepping `n` times and then `k` times is stepping `n + k` times.
pub proof fn lemma_advance_add(s: Seq<u8>, n: nat, k: nat)
    ensures
        advance(advance(s, n), k) == advance(s, n + k),
    decreases k,
{
    if k > 0 {
        lemma_advance_add(s, n, (k - 1) as nat);
        assert(n + k - 1 == n + (k - 1) as nat);
    }
}

/// A step never changes the number of cells.
pub proof fn lemma_advance_len(s: Seq<u8>, n: nat)
    requires
        s.len() == STATE_SIZE,
    ensures
        advance(s, n).len() == STATE_SIZE,
    decreases n,
{
    if n > 0 {
        lemma_advance_len(s, (n - 1) as nat);
    }
}

} // verus!
