//! The executable generator.
//!
//! The cells live in a ring: a step does not move 288 bytes, it moves the
//! position that counts as cell 0 one place down and overwrites the two cells
//! that take a feedback term. `view` undoes the rotation, so every contract
//! speaks of the register as `register` defines it.

use crate::register::{
    advance, initial_state, keystream, lemma_advance_add, loaded_state, next_state, output_byte,
    INITIALIZATION_ROUNDS, IV_OFFSET, IV_SIZE, KEY_SIZE, MARKER_CELL, NUMBER_OF_ROUNDS, STATE_SIZE,
};
use vstd::prelude::*;

verus! {

/// Why an engine could not be built. Nothing else fails: an engine that has
/// already emitted bytes is not told apart from a fresh one, so using one
/// engine to encrypt and then to decrypt goes undetected and gives back
/// something other than the message.
#[derive(Clone, Copy, Debug, PartialEq, Eq, Structural)]
pub enum TriviumError {
    /// The key does not have `KEY_SIZE` bytes.
    InvalidKeyLength,
    /// The IV does not have `IV_SIZE` bytes.
    InvalidIVLength,
}

/// Place in the ring of cell `i` when cell 0 is at `head`.
spec fn slot(head: int, i: int) -> int {
    if head + i < STATE_SIZE {
        head + i
    } else {
        head + i - STATE_SIZE
    }
}

/// Computes `slot`.
fn place(head: usize, i: usize) -> (at: usize)
    requires
        head < STATE_SIZE,
        i < STATE_SIZE,
    ensures
        at == slot(head as int, i as int),
        at < STATE_SIZE,
{
    if head + i < STATE_SIZE {
        head + i
    } else {
        head + i - STATE_SIZE
    }
}

/// A keystream generator. Its state is the register `self@`; every step
/// replaces it by `next_state(self@)`, and there is no way back and no reset:
/// the keystream of a key and an IV is had again from a new engine only.
pub struct Trivium {
    cells: [u8; STATE_SIZE],
    head: usize,
}

impl View for Trivium {
    type V = Seq<u8>;

    closed spec fn view(&self) -> Seq<u8> {
        Seq::new(STATE_SIZE as nat, |i: int| self.cells@[slot(self.head as int, i)])
    }
}

impl Trivium {
    #[verifier::type_invariant]
    spec fn head_in_ring(&self) -> bool {
        self.head < STATE_SIZE
    }

    /// An engine holds `STATE_SIZE` cells from its first step to its last.
    pub proof fn lemma_state_size(&self)
        ensures
            self@.len() == STATE_SIZE,
    {
    }

    /// Reads cell `i` of the register.
    fn cell(&self, i: usize) -> (b: u8)
        requires
            i < STATE_SIZE,
        ensures
            b == self@[i as int],
    {
        proof {
            use_type_invariant(self);
        }
        self.cells[place(self.head, i)]
    }

    /// Advances the register by one step and returns the byte it emits.
    pub fn step(&mut self) -> (z: u8)
        ensures
            z == output_byte(old(self)@),
            final(self)@ == next_state(old(self)@),
    {
        proof {
            use_type_invariant(&*self);
        }
        let mid = self.cell(65) ^ self.cell(90) ^ (self.cell(92) & self.cell(93)) ^ (self.cell(171)
            & self.cell(174)) ^ (self.cell(263) & self.cell(285));
        let low = self.cell(161) ^ self.cell(174) ^ (self.cell(242) & self.cell(287));
        let head = place(self.head, STATE_SIZE - 1);
        self.head = head;
        self.cells[head] = low;
        self.cells[place(head, IV_OFFSET)] = mid;
        assert(self@ =~= next_state(old(self)@));
        mid ^ low
    }

    /// Runs one pass: `NUMBER_OF_ROUNDS` steps whose output is thrown away.
    pub fn update(&mut self)
        ensures
            final(self)@ == advance(old(self)@, NUMBER_OF_ROUNDS as nat),
    {
        let mut done: usize = 0;
        while done < NUMBER_OF_ROUNDS
            invariant
                done <= NUMBER_OF_ROUNDS,
                self@ == advance(old(self)@, done as nat),
            decreases NUMBER_OF_ROUNDS - done,
        {
            self.step();
            done += 1;
        }
    }

    /// Emits the next `n` keystream bytes.
    pub fn generate(&mut self, n: usize) -> (stream: Vec<u8>)
        ensures
            stream@ == keystream(old(self)@, n as nat),
            final(self)@ == advance(old(self)@, n as nat),
    {
        let mut stream: Vec<u8> = Vec::new();
        let mut done: usize = 0;
        while done < n
            invariant
                done <= n,
                stream@ == keystream(old(self)@, done as nat),
                self@ == advance(old(self)@, done as nat),
            decreases n - done,
        {
            let z = self.step();
            stream.push(z);
            done += 1;
        }
        stream
    }

    /// Loads key and IV into a register and runs no warm-up. The bytes that
    /// such an engine emits first depend on few key and IV bytes and are not
    /// fit for use as a keystream: use `new`, which loads and warms up. The
    /// key length is checked first.
    pub fn load(key: &[u8], iv: &[u8]) -> (r: Result<Trivium, TriviumError>)
        ensures
            match r {
                Ok(engine) => key@.len() == KEY_SIZE && iv@.len() == IV_SIZE && engine@
                    == loaded_state(key@, iv@),
                Err(TriviumError::InvalidKeyLength) => key@.len() != KEY_SIZE,
                Err(TriviumError::InvalidIVLength) => key@.len() == KEY_SIZE && iv@.len()
                    != IV_SIZE,
            },
    {
        if key.len() != KEY_SIZE {
            return Err(TriviumError::InvalidKeyLength);
        }
        if iv.len() != IV_SIZE {
            return Err(TriviumError::InvalidIVLength);
        }
        let mut cells = [0u8;STATE_SIZE];
        let mut i: usize = 0;
        while i < KEY_SIZE
            invariant
                i <= KEY_SIZE,
                key@.len() == KEY_SIZE,
                forall|j: int| 0 <= j < i ==> cells@[j] == key@[j],
                forall|j: int| i <= j < STATE_SIZE ==> cells@[j] == 0u8,
            decreases KEY_SIZE - i,
        {
            cells[i] = key[i];
            i += 1;
        }
        let mut i: usize = 0;
        while i < IV_SIZE
            invariant
                i <= IV_SIZE,
                iv@.len() == IV_SIZE,
                forall|j: int| 0 <= j < KEY_SIZE ==> cells@[j] == key@[j],
                forall|j: int| KEY_SIZE <= j < IV_OFFSET ==> cells@[j] == 0u8,
                forall|j: int| IV_OFFSET <= j < IV_OFFSET + i ==> cells@[j] == iv@[j - IV_OFFSET],
                forall|j: int| IV_OFFSET + i <= j < STATE_SIZE ==> cells@[j] == 0u8,
            decreases IV_SIZE - i,
        {
            cells[IV_OFFSET + i] = iv[i];
            i += 1;
        }
        cells[MARKER_CELL] = 1;
        let engine = Trivium { cells, head: 0 };
        assert(engine@ =~= loaded_state(key@, iv@));
        Ok(engine)
    }

    /// Builds an engine from a key of `KEY_SIZE` bytes and an IV of `IV_SIZE`
    /// bytes: loads them, then runs the `INITIALIZATION_ROUNDS` warm-up
    /// passes. The key length is checked first.
    pub fn new(key: &[u8], iv: &[u8]) -> (r: Result<Trivium, TriviumError>)
        ensures
            match r {
                Ok(engine) => key@.len() == KEY_SIZE && iv@.len() == IV_SIZE && engine@
                    == initial_state(key@, iv@),
                Err(TriviumError::InvalidKeyLength) => key@.len() != KEY_SIZE,
                Err(TriviumError::InvalidIVLength) => key@.len() == KEY_SIZE && iv@.len()
                    != IV_SIZE,
            },
    {
        let mut engine = match Trivium::load(key, iv) {
            Ok(engine) => engine,
            Err(e) => {
                return Err(e);
            },
        };
        let mut passes: usize = 0;
        while passes < INITIALIZATION_ROUNDS
            invariant
                passes <= INITIALIZATION_ROUNDS,
                engine@ == advance(loaded_state(key@, iv@), (passes * NUMBER_OF_ROUNDS) as nat),
            decreases INITIALIZATION_ROUNDS - passes,
        {
            proof {
                lemma_advance_add(
                    loaded_state(key@, iv@),
                    (passes * NUMBER_OF_ROUNDS) as nat,
                    NUMBER_OF_ROUNDS as nat,
                );
            }
            engine.update();
            passes += 1;
        }
        Ok(engine)
    }
}

} // verus!
