//! The cipher façade: keystream generation and encryption over buffers of
//! any length, served across calls from one continuous keystream.
use vstd::prelude::*;

use crate::generator::{
    counter_plus, initial_matrix, lemma_counter_plus_add, lemma_with_counter_twice, valid_key_len,
    with_counter, Generator,
};
use crate::overflow::Overflow;
use crate::stream::{fresh, lemma_div_mod_64, CipherView};
use crate::utils::{mix, xor_seq, Mixer};
use crate::Error;

verus! {

/// A Salsa20/20 keystream generator for one key and nonce.
///
/// A copy is an independent cipher in the same state.
#[derive(Clone, Copy)]
pub struct Salsa20 {
    generator: Generator,
    overflow: Overflow,
}

impl View for Salsa20 {
    type V = CipherView;

    closed spec fn view(&self) -> CipherView {
        CipherView {
            matrix: with_counter(self.generator.init_matrix@, 0),
            counter: self.generator.counter,
            leftover: self.overflow.leftover(),
        }
    }
}

impl Salsa20 {
    /// The generator and the overflow buffer are each well formed.
    pub closed spec fn wf(&self) -> bool {
        &&& self.generator.wf()
        &&& self.overflow.wf()
    }

    /// The raw contents of the overflow buffer, consumed or not.
    pub closed spec fn overflow_block(&self) -> Seq<u8> {
        self.overflow.buffer@
    }

    /// A cipher for `key` (16 or 32 bytes) and `nonce`, starting at block
    /// `counter` with nothing left over.
    pub fn new(key: &[u8], nonce: &[u8; 8], counter: u64) -> (r: Result<Salsa20, Error>)
        ensures
            match r {
                Ok(s) => valid_key_len(key@.len()) && s.wf() && s@ == fresh(key@, nonce@, counter),
                Err(e) => !valid_key_len(key@.len()) && e == Error::InvalidKeySize,
            },
    {
        let overflow = Overflow::new();
        match Generator::new(key, nonce, counter) {
            Ok(generator) => {
                let s = Salsa20 { generator, overflow };
                assert(with_counter(initial_matrix(key@, nonce@, counter), 0) =~= initial_matrix(
                    key@,
                    nonce@,
                    0,
                ));
                Ok(s)
            },
            Err(e) => Err(e),
        }
    }

    /// Seeks to block `counter`. Leftover bytes of the block produced last
    /// are still served first.
    pub fn set_counter(&mut self, counter: u64)
        requires
            old(self).wf(),
        ensures
            final(self).wf(),
            final(self)@ == old(self)@.seek(counter),
            final(self).overflow_block() == old(self).overflow_block(),
    {
        self.generator.set_counter(counter);
        proof {
            lemma_with_counter_twice(old(self).generator.init_matrix@, counter, 0);
        }
    }

    /// Mixes the next `buffer.len()` bytes this cipher owes into `buffer`:
    /// leftover bytes first, then whole blocks straight into the buffer, then
    /// one block through the overflow buffer for a partial tail.
    fn modify(&mut self, buffer: &mut [u8], mixer: Mixer)
        requires
            old(self).wf(),
        ensures
            final(self).wf(),
            final(self)@ == old(self)@.advance(old(buffer)@.len()),
            final(buffer)@.len() == old(buffer)@.len(),
            forall|i: int|
                0 <= i < old(buffer)@.len() ==> #[trigger] final(buffer)@[i] == mix(
                    mixer,
                    old(buffer)@[i],
                    old(self)@.pending(i as nat),
                ),
            old(self)@.leftover.len() == 0 && old(buffer)@.len() % 64 == 0
                ==> final(self).overflow_block() == old(self).overflow_block(),
    {
        let ghost s = self@;
        proof {
            lemma_with_counter_twice(self.generator.init_matrix@, 0, s.counter);
        }
        let n = buffer.len();
        let l = 64 - self.overflow.offset;
        if l != 0 {
            if n >= l {
                self.overflow.modify(buffer, 0, l, mixer);
            } else {
                self.overflow.modify(buffer, 0, n, mixer);
                assert(self@.leftover =~= s.advance(n as nat).leftover);
                return;
            }
        }
        let last = n - (n - l) % 64;
        let mut pos = l;
        let ghost mut k: int = 0;
        while pos < last
            invariant
                l <= pos <= last <= n,
                n == buffer@.len(),
                n == old(buffer)@.len(),
                pos == l + 64 * k,
                (last - l) % 64 == 0,
                l == s.leftover.len(),
                s == old(self)@,
                self.overflow.offset == 64,
                self.overflow.buffer == old(self).overflow.buffer,
                self.generator.wf(),
                self.generator.counter == counter_plus(s.counter, k),
                self.generator.init_matrix@ == with_counter(s.matrix, self.generator.counter),
                forall|i: int|
                    0 <= i < n ==> #[trigger] buffer@[i] == if i < pos {
                        mix(mixer, old(buffer)@[i], s.pending(i as nat))
                    } else {
                        old(buffer)@[i]
                    },
            decreases last - pos,
        {
            let ghost c = self.generator.counter;
            self.generator.generate_at(buffer, pos, mixer);
            proof {
                lemma_counter_plus_add(s.counter, k, 1);
                lemma_with_counter_twice(s.matrix, c, self.generator.counter);
                assert forall|i: int| pos <= i < pos + 64 implies #[trigger] s.pending(i as nat)
                    == s.block_at(c)[i - pos] by {
                    lemma_div_mod_64(i - l, k, i - pos);
                }
                k = k + 1;
            }
            pos = pos + 64;
        }
        if last != n {
            let ghost c = self.generator.counter;
            self.generator.generate_at(&mut self.overflow.buffer, 0, Mixer::Overwrite);
            self.overflow.offset = 0;
            proof {
                lemma_counter_plus_add(s.counter, k, 1);
                lemma_with_counter_twice(s.matrix, c, self.generator.counter);
                assert(self.overflow.buffer@ =~= s.block_at(c));
                assert forall|i: int| last <= i < n implies #[trigger] s.pending(i as nat)
                    == s.block_at(c)[i - last] by {
                    lemma_div_mod_64(i - l, k, i - last);
                }
            }
            self.overflow.modify(buffer, last, n - last, mixer);
            proof {
                lemma_div_mod_64((n - l) as int, k, n - last);
                assert(self@.leftover =~= s.advance(n as nat).leftover);
            }
        } else {
            proof {
                lemma_div_mod_64((n - l) as int, k, 0);
                assert(self@.leftover =~= s.advance(n as nat).leftover);
            }
        }
        proof {
            lemma_with_counter_twice(s.matrix, self.generator.counter, 0);
            lemma_with_counter_twice(old(self).generator.init_matrix@, 0, 0);
        }
    }

    /// Fills `buffer` with the next `buffer.len()` keystream bytes.
    pub fn generate(&mut self, buffer: &mut [u8])
        requires
            old(self).wf(),
        ensures
            final(self).wf(),
            final(self)@ == old(self)@.advance(old(buffer)@.len()),
            final(buffer)@ == old(self)@.keystream(old(buffer)@.len()),
            old(self)@.leftover.len() == 0 && old(buffer)@.len() % 64 == 0
                ==> final(self).overflow_block() == old(self).overflow_block(),
    {
        self.modify(buffer, Mixer::Overwrite);
        assert(buffer@ =~= old(self)@.keystream(old(buffer)@.len()));
    }

    /// XORs the next `buffer.len()` keystream bytes into `buffer`; the same
    /// call on the ciphertext, from the same state, decrypts it.
    pub fn encrypt(&mut self, buffer: &mut [u8])
        requires
            old(self).wf(),
        ensures
            final(self).wf(),
            final(self)@ == old(self)@.advance(old(buffer)@.len()),
            final(buffer)@ == xor_seq(old(buffer)@, old(self)@.keystream(old(buffer)@.len())),
            old(self)@.leftover.len() == 0 && old(buffer)@.len() % 64 == 0
                ==> final(self).overflow_block() == old(self).overflow_block(),
    {
        self.modify(buffer, Mixer::Xor);
        assert(buffer@ =~= xor_seq(old(buffer)@, old(self)@.keystream(old(buffer)@.len())));
    }
}

} // verus!
