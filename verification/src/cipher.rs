//! The stream cipher: data combined with the keystream of an engine.
//!
//! Encrypting and decrypting are one operation. What tells them apart is the
//! engine: the one that decrypts must be fresh and made from the key and IV
//! of the one that encrypted.

use crate::engine::Trivium;
use crate::register::{advance, apply_keystream};
use vstd::prelude::*;

verus! {

impl Trivium {
    /// Combines `data` in place with the next `data.len()` keystream bytes,
    /// first byte with first byte.
    pub fn encrypt(&mut self, data: &mut [u8])
        ensures
            final(data)@ == apply_keystream(old(self)@, old(data)@),
            final(self)@ == advance(old(self)@, old(data)@.len()),
    {
        let n = data.len();
        let mut done: usize = 0;
        while done < n
            invariant
                done <= n,
                n == data@.len(),
                data@.len() == old(data)@.len(),
                self@ == advance(old(self)@, done as nat),
                forall|j: int|
                    0 <= j < done ==> data@[j] == apply_keystream(old(self)@, old(data)@)[j],
                forall|j: int| done <= j < n ==> data@[j] == old(data)@[j],
            decreases n - done,
        {
            let z = self.step();
            data[done] = data[done] ^ z;
            done += 1;
        }
        assert(data@ =~= apply_keystream(old(self)@, old(data)@));
    }

    /// Decrypting is encrypting: the same bytes are combined once more. To
    /// get a message back, `self` must be a fresh engine made from the key
    /// and IV of the engine that encrypted it.
    pub fn decrypt(&mut self, data: &mut [u8])
        ensures
            final(data)@ == apply_keystream(old(self)@, old(data)@),
            final(self)@ == advance(old(self)@, old(data)@.len()),
    {
        self.encrypt(data);
    }
}

} // verus!
