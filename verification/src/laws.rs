//! What holds of the generator for every key, IV, message and length.

use crate::engine::Trivium;
use crate::register::{
    advance, apply_keystream, feedback_low, feedback_mid, initial_state, keystream,
    lemma_advance_add, lemma_advance_len, loaded_state, masked, next_state, output_byte,
    warm_up_steps, xor_bytes, IV_OFFSET, IV_SIZE, KEY_SIZE, MARKER_CELL, STATE_SIZE,
};
use vstd::prelude::*;

verus! {

/// A fresh engine holds `STATE_SIZE` cells, whatever key and IV it was made
/// from.
pub proof fn lemma_initial_state_len(key: Seq<u8>, iv: Seq<u8>)
    ensures
        loaded_state(key, iv).len() == STATE_SIZE,
        initial_state(key, iv).len() == STATE_SIZE,
{
    lemma_advance_len(loaded_state(key, iv), warm_up_steps());
}

/// Determinism: two engines made independently from the same key and IV emit
/// the same bytes, for every requested length, and are left in the same
/// state.
pub proof fn lemma_keystream_deterministic(
    a: Trivium,
    b: Trivium,
    key: Seq<u8>,
    iv: Seq<u8>,
    n: nat,
)
    requires
        key.len() == KEY_SIZE,
        iv.len() == IV_SIZE,
        a@ == initial_state(key, iv),
        b@ == initial_state(key, iv),
    ensures
        keystream(a@, n) == keystream(b@, n),
        advance(a@, n) == advance(b@, n),
{
}

/// Combining twice with the same stream gives the data back.
pub proof fn lemma_xor_bytes_involution(data: Seq<u8>, stream: Seq<u8>)
    ensures
        xor_bytes(xor_bytes(data, stream), stream) == data,
{
    let once = xor_bytes(data, stream);
    assert forall|i: int| 0 <= i < data.len() implies (#[trigger] once[i]) ^ stream[i]
        == data[i] by {
        let d = data[i];
        let k = stream[i];
        assert((d ^ k) ^ k == d) by (bit_vector);
    }
    assert(xor_bytes(once, stream) =~= data);
}

/// Round trip: what an engine made from a key and an IV encrypts, another
/// engine made from the same key and IV decrypts to the message.
pub proof fn lemma_encrypt_decrypt_round_trip(key: Seq<u8>, iv: Seq<u8>, message: Seq<u8>)
    requires
        key.len() == KEY_SIZE,
        iv.len() == IV_SIZE,
    ensures
        apply_keystream(
            initial_state(key, iv),
            apply_keystream(initial_state(key, iv), message),
        ) == message,
{
    let s = initial_state(key, iv);
    lemma_xor_bytes_involution(message, keystream(s, message.len()));
}

/// Length invariance: the first `n` bytes of a longer request are the bytes
/// of a request for `n`.
pub proof fn lemma_keystream_prefix(key: Seq<u8>, iv: Seq<u8>, n: nat, k: nat)
    requires
        key.len() == KEY_SIZE,
        iv.len() == IV_SIZE,
    ensures
        keystream(initial_state(key, iv), n + k).subrange(0, n as int) == keystream(
            initial_state(key, iv),
            n,
        ),
{
    let s = initial_state(key, iv);
    assert(keystream(s, n + k).subrange(0, n as int) =~= keystream(s, n));
}

/// The keystream is consumed in order: a request for `n` bytes followed by a
/// request for `k` bytes on the same engine yields the bytes of one request
/// for `n + k`, none twice and none left out.
pub proof fn lemma_keystream_split(s: Seq<u8>, n: nat, k: nat)
    ensures
        keystream(s, n) + keystream(advance(s, n), k) == keystream(s, n + k),
{
    let joined = keystream(s, n) + keystream(advance(s, n), k);
    assert forall|i: int| 0 <= i < n + k implies joined[i] == keystream(s, n + k)[i] by {
        if i >= n {
            lemma_advance_add(s, n, (i - n) as nat);
            assert(n + (i - n) as nat == i as nat);
        }
    }
    assert(joined =~= keystream(s, n + k));
}

/// The marker replaces one IV byte: two IVs that differ only at position
/// `MARKER_CELL - IV_OFFSET` load the same register, and so give the same
/// engine.
pub proof fn lemma_marker_hides_iv_byte(key: Seq<u8>, iv: Seq<u8>, other: Seq<u8>)
    requires
        iv.len() == IV_SIZE,
        other.len() == IV_SIZE,
        forall|j: int| 0 <= j < IV_SIZE && j != MARKER_CELL - IV_OFFSET ==> iv[j] == other[j],
    ensures
        loaded_state(key, iv) == loaded_state(key, other),
        initial_state(key, iv) == initial_state(key, other),
{
    assert(loaded_state(key, iv) =~= loaded_state(key, other));
}

/// A step works on each bit position by itself: reducing a register to some
/// bit positions and stepping it gives what stepping it and then reducing
/// gives.
pub proof fn lemma_step_keeps_bit_positions(s: Seq<u8>, mask: u8)
    requires
        s.len() == STATE_SIZE,
    ensures
        next_state(masked(s, mask)) == masked(next_state(s), mask),
        output_byte(masked(s, mask)) == output_byte(s) & mask,
{
    let (a, b, c, d) = (s[65], s[90], s[92], s[93]);
    let (e, f, g, h) = (s[171], s[174], s[263], s[285]);
    let (p, q, r) = (s[161], s[242], s[287]);
    let mid = feedback_mid(s);
    let low = feedback_low(s);
    assert(feedback_mid(masked(s, mask)) == mid & mask) by {
        assert((a & mask) ^ (b & mask) ^ ((c & mask) & (d & mask)) ^ ((e & mask) & (f & mask)) ^ ((g
            & mask) & (h & mask)) == (a ^ b ^ (c & d) ^ (e & f) ^ (g & h)) & mask) by (bit_vector);
    }
    assert(feedback_low(masked(s, mask)) == low & mask) by {
        assert((p & mask) ^ (f & mask) ^ ((q & mask) & (r & mask)) == (p ^ f ^ (q & r)) & mask)
            by (bit_vector);
    }
    assert((mid & mask) ^ (low & mask) == (mid ^ low) & mask) by (bit_vector);
    assert(next_state(masked(s, mask)) =~= masked(next_state(s), mask));
}

/// The same over any number of steps, for the register and for the bytes it
/// emits.
pub proof fn lemma_advance_keeps_bit_positions(s: Seq<u8>, mask: u8, n: nat)
    requires
        s.len() == STATE_SIZE,
    ensures
        advance(masked(s, mask), n) == masked(advance(s, n), mask),
        keystream(masked(s, mask), n) == masked(keystream(s, n), mask),
    decreases n,
{
    if n > 0 {
        let before = (n - 1) as nat;
        lemma_advance_keeps_bit_positions(s, mask, before);
        lemma_advance_len(s, before);
        lemma_step_keeps_bit_positions(advance(s, before), mask);
        assert(keystream(masked(s, mask), n) =~= keystream(masked(s, mask), before).push(
            output_byte(advance(masked(s, mask), before)),
        ));
        assert(masked(keystream(s, n), mask) =~= masked(keystream(s, before), mask).push(
            output_byte(advance(s, before)) & mask,
        ));
    } else {
        assert(keystream(masked(s, mask), n) =~= masked(keystream(s, n), mask));
    }
}

/// Bit positions do not mix: the keystream bits at the positions of `mask`
/// depend on the key and IV bits at those positions and on no others. So a
/// flipped key or IV bit can change one bit of each keystream byte, the one
/// at its own position, and never another.
pub proof fn lemma_bit_positions_do_not_mix(
    key: Seq<u8>,
    iv: Seq<u8>,
    other_key: Seq<u8>,
    other_iv: Seq<u8>,
    mask: u8,
    n: nat,
)
    requires
        key.len() == KEY_SIZE,
        iv.len() == IV_SIZE,
        other_key.len() == KEY_SIZE,
        other_iv.len() == IV_SIZE,
        masked(key, mask) == masked(other_key, mask),
        masked(iv, mask) == masked(other_iv, mask),
    ensures
        masked(keystream(initial_state(key, iv), n), mask) == masked(
            keystream(initial_state(other_key, other_iv), n),
            mask,
        ),
{
    let here = loaded_state(key, iv);
    let there = loaded_state(other_key, other_iv);
    assert(masked(here, mask) =~= masked(there, mask)) by {
        assert forall|i: int| 0 <= i < STATE_SIZE implies here[i] & mask == there[i] & mask by {
            if i == MARKER_CELL {
            } else if i < KEY_SIZE {
                assert(masked(key, mask)[i] == key[i] & mask);
                assert(masked(other_key, mask)[i] == other_key[i] & mask);
            } else if IV_OFFSET <= i < IV_OFFSET + IV_SIZE {
                let j = i - IV_OFFSET;
                assert(masked(iv, mask)[j] == iv[j] & mask);
                assert(masked(other_iv, mask)[j] == other_iv[j] & mask);
            }
        }
    }
    lemma_advance_keeps_bit_positions(here, mask, warm_up_steps());
    lemma_advance_keeps_bit_positions(there, mask, warm_up_steps());
    lemma_initial_state_len(key, iv);
    lemma_initial_state_len(other_key, other_iv);
    lemma_advance_keeps_bit_positions(initial_state(key, iv), mask, n);
    lemma_advance_keeps_bit_positions(initial_state(other_key, other_iv), mask, n);
}

} // verus!
