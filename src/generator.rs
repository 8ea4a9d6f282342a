//! The block generator: the state matrix of one key, nonce and counter, and
//! the production of one 64-byte keystream block per call.
use vstd::prelude::*;

use crate::rounds::{
    column_round, double_round, doubleround, lemma_quarter_second_word, quarter, quarterround,
};
use crate::utils::{le_word, load_word, mix, mix_word, word_bytes, Mixer};
use crate::Error;
use vstd::arithmetic::div_mod::lemma_add_mod_noop_right;

verus! {

/// First diagonal constant word, common to both key lengths ("expa").
pub const CONST_0: u32 = 0x6170_7865;

/// Last diagonal constant word, common to both key lengths ("te k").
pub const CONST_3: u32 = 0x6b20_6574;

/// Second diagonal constant word for a 16-byte key ("nd 1").
pub const TAU_1: u32 = 0x3120_646e;

/// Third diagonal constant word for a 16-byte key ("6-by").
pub const TAU_2: u32 = 0x7962_2d36;

/// Second diagonal constant word for a 32-byte key ("nd 3").
pub const SIGMA_1: u32 = 0x3320_646e;

/// Third diagonal constant word for a 32-byte key ("2-by").
pub const SIGMA_2: u32 = 0x7962_2d32;

/// The key lengths the cipher accepts.
pub open spec fn valid_key_len(n: nat) -> bool {
    n == 16 || n == 32
}

/// Low 32 bits of a counter.
pub open spec fn lo_word(c: u64) -> u32 {
    (c % 0x1_0000_0000) as u32
}

/// High 32 bits of a counter.
pub open spec fn hi_word(c: u64) -> u32 {
    (c / 0x1_0000_0000) as u32
}

/// `c + k`, wrapping at 2^64.
pub open spec fn counter_plus(c: u64, k: int) -> u64 {
    ((c + k) % 0x1_0000_0000_0000_0000) as u64
}

/// Adding `a` then `b` to a counter adds `a + b`.
pub proof fn lemma_counter_plus_add(c: u64, a: int, b: int)
    requires
        0 <= a,
        0 <= b,
    ensures
        counter_plus(counter_plus(c, a), b) == counter_plus(c, a + b),
{
    lemma_add_mod_noop_right(b, c + a, 0x1_0000_0000_0000_0000);
}

/// The matrix `m` with its two counter words set to `c`.
pub open spec fn with_counter(m: Seq<u32>, c: u64) -> Seq<u32> {
    m.update(8, lo_word(c)).update(9, hi_word(c))
}

/// Setting the counter words twice keeps only the second setting.
pub proof fn lemma_with_counter_twice(m: Seq<u32>, a: u64, b: u64)
    requires
        m.len() == 16,
    ensures
        with_counter(with_counter(m, a), b) == with_counter(m, b),
{
    assert(with_counter(with_counter(m, a), b) =~= with_counter(m, b));
}

/// The state matrix for a 16- or 32-byte key, an 8-byte nonce and a counter.
pub open spec fn initial_matrix(key: Seq<u8>, nonce: Seq<u8>, counter: u64) -> Seq<u32> {
    let short = key.len() == 16;
    let k2: int = if short {
        0
    } else {
        16
    };
    seq![
        CONST_0,
        le_word(key, 0),
        le_word(key, 4),
        le_word(key, 8),
        le_word(key, 12),
        if short { TAU_1 } else { SIGMA_1 },
        le_word(nonce, 0),
        le_word(nonce, 4),
        lo_word(counter),
        hi_word(counter),
        if short { TAU_2 } else { SIGMA_2 },
        le_word(key, k2),
        le_word(key, k2 + 4),
        le_word(key, k2 + 8),
        le_word(key, k2 + 12),
        CONST_3,
    ]
}

/// `n` double-rounds applied to `m`.
pub open spec fn rounds(m: Seq<u32>, n: nat) -> Seq<u32>
    decreases n,
{
    if n == 0 {
        m
    } else {
        double_round(rounds(m, (n - 1) as nat))
    }
}

/// The sixteen output words of Salsa20/20 on matrix `m`: ten double-rounds,
/// then each word added to the word of `m` at the same place.
pub open spec fn salsa20_words(m: Seq<u32>) -> Seq<u32> {
    let r = rounds(m, 10);
    Seq::new(16, |i: int| ((r[i] + m[i]) % 0x1_0000_0000) as u32)
}

/// The 64-byte keystream block of matrix `m`: its output words, little-endian.
pub open spec fn salsa20_block(m: Seq<u32>) -> Seq<u8> {
    Seq::new(64, |i: int| word_bytes(salsa20_words(m)[i / 4])[i % 4])
}

/// Holds the state matrix and produces keystream blocks from it.
///
/// Besides the matrix it caches the column-round of the matrix and the one
/// quarter-round of the following row-round that depends on the counter's
/// high word alone, so that a block starts from cached work.
#[derive(Clone, Copy)]
pub struct Generator {
    /// The state matrix, counter words included.
    pub init_matrix: [u32; 16],
    /// The column-round of `init_matrix`.
    pub cround_matrix: [u32; 16],
    /// The row-round's quarter-round on words 5, 6, 7 and 4 of
    /// `cround_matrix`, in that order.
    pub dround_values: [u32; 4],
    /// The index of the next block.
    pub counter: u64,
}

impl Generator {
    /// The counter words agree with `counter` and both caches agree with the
    /// matrix.
    pub open spec fn wf(&self) -> bool {
        let c = self.cround_matrix@;
        &&& self.init_matrix@ == with_counter(self.init_matrix@, self.counter)
        &&& c == column_round(self.init_matrix@)
        &&& self.dround_values@ == quarter(c[5], c[6], c[7], c[4])
    }

    /// Builds the state matrix; fails unless the key is 16 or 32 bytes long.
    pub fn new(key: &[u8], nonce: &[u8; 8], counter: u64) -> (r: Result<Generator, Error>)
        ensures
            match r {
                Ok(g) => {
                    &&& valid_key_len(key@.len())
                    &&& g.wf()
                    &&& g.counter == counter
                    &&& g.init_matrix@ == initial_matrix(key@, nonce@, counter)
                },
                Err(e) => !valid_key_len(key@.len()) && e == Error::InvalidKeySize,
            },
    {
        let len = key.len();
        if len != 16 && len != 32 {
            return Err(Error::InvalidKeySize);
        }
        let k2: usize = if len == 16 {
            0
        } else {
            16
        };
        let init_matrix: [u32; 16] = [
            CONST_0,
            load_word(key, 0),
            load_word(key, 4),
            load_word(key, 8),
            load_word(key, 12),
            if len == 16 { TAU_1 } else { SIGMA_1 },
            load_word(nonce, 0),
            load_word(nonce, 4),
            (counter % 0x1_0000_0000) as u32,
            (counter / 0x1_0000_0000) as u32,
            if len == 16 { TAU_2 } else { SIGMA_2 },
            load_word(key, k2),
            load_word(key, k2 + 4),
            load_word(key, k2 + 8),
            load_word(key, k2 + 12),
            CONST_3,
        ];
        assert(init_matrix@ =~= initial_matrix(key@, nonce@, counter));
        assert(init_matrix@ =~= with_counter(init_matrix@, counter));
        let cround_matrix = crate::rounds::columnround(init_matrix);
        let dround_values = quarterround(
            cround_matrix[5],
            cround_matrix[6],
            cround_matrix[7],
            cround_matrix[4],
        );
        Ok(Generator { init_matrix, cround_matrix, dround_values, counter })
    }

    /// The first double-round of the current matrix, finished from the
    /// cached column-round and cached row quarter-round.
    pub fn first_doubleround(&self) -> (r: [u32; 16])
        requires
            self.wf(),
        ensures
            r@ == double_round(self.init_matrix@),
    {
        let c = &self.cround_matrix;
        let a = quarterround(c[0], c[1], c[2], c[3]);
        let b = &self.dround_values;
        let d = quarterround(c[10], c[11], c[8], c[9]);
        let e = quarterround(c[15], c[12], c[13], c[14]);
        let r = [
            a[0], a[1], a[2], a[3],
            b[3], b[0], b[1], b[2],
            d[2], d[3], d[0], d[1],
            e[1], e[2], e[3], e[0],
        ];
        assert(r@ =~= double_round(self.init_matrix@));
        r
    }

    /// Moves to block `counter`, recomputing the cached work that depends on
    /// the counter words: the first column always, the second column and the
    /// cached row quarter-round only when the high word changes.
    pub fn set_counter(&mut self, counter: u64)
        requires
            old(self).wf(),
        ensures
            final(self).wf(),
            final(self).counter == counter,
            final(self).init_matrix@ == with_counter(old(self).init_matrix@, counter),
    {
        self.counter = counter;
        self.init_matrix[8] = (counter % 0x1_0000_0000) as u32;
        let a = quarterround(
            self.init_matrix[0],
            self.init_matrix[4],
            self.init_matrix[8],
            self.init_matrix[12],
        );
        proof {
            lemma_quarter_second_word(
                self.init_matrix[0],
                self.init_matrix[4],
                self.init_matrix[8],
                self.init_matrix[12],
                old(self).init_matrix[8],
            );
        }
        self.cround_matrix[0] = a[0];
        self.cround_matrix[4] = a[1];
        self.cround_matrix[8] = a[2];
        self.cround_matrix[12] = a[3];
        let hi = (counter / 0x1_0000_0000) as u32;
        if hi != self.init_matrix[9] {
            self.init_matrix[9] = hi;
            let b = quarterround(
                self.init_matrix[5],
                self.init_matrix[9],
                self.init_matrix[13],
                self.init_matrix[1],
            );
            self.cround_matrix[5] = b[0];
            self.cround_matrix[9] = b[1];
            self.cround_matrix[13] = b[2];
            self.cround_matrix[1] = b[3];
            self.dround_values = quarterround(
                self.cround_matrix[5],
                self.cround_matrix[6],
                self.cround_matrix[7],
                self.cround_matrix[4],
            );
        }
        assert(self.init_matrix@ =~= with_counter(old(self).init_matrix@, counter));
        assert(self.init_matrix@ =~= with_counter(self.init_matrix@, counter));
        assert(self.cround_matrix@ =~= column_round(self.init_matrix@));
    }

    /// The output words of Salsa20/20 on the current matrix.
    fn block_words(&self) -> (r: [u32; 16])
        requires
            self.wf(),
        ensures
            r@ == salsa20_words(self.init_matrix@),
    {
        let mut x = self.first_doubleround();
        let mut k: usize = 1;
        assert(x@ == rounds(self.init_matrix@, 1)) by {
            reveal_with_fuel(rounds, 2);
        }
        while k < 10
            invariant
                1 <= k <= 10,
                x@ == rounds(self.init_matrix@, k as nat),
            decreases 10 - k,
        {
            x = doubleround(x);
            k += 1;
        }
        let mut out = [0u32; 16];
        for i in 0..16
            invariant
                x@ == rounds(self.init_matrix@, 10),
                forall|j: int|
                    0 <= j < i ==> #[trigger] out@[j] == ((x@[j] + self.init_matrix@[j])
                        % 0x1_0000_0000) as u32,
        {
            out[i] = x[i].wrapping_add(self.init_matrix[i]);
        }
        assert(out@ =~= salsa20_words(self.init_matrix@));
        out
    }

    /// Mixes the current block into `buffer[offset..offset + 64]`, then moves
    /// to the next block.
    pub(crate) fn generate_at(&mut self, buffer: &mut [u8], offset: usize, mixer: Mixer)
        requires
            old(self).wf(),
            offset + 64 <= old(buffer)@.len(),
        ensures
            final(self).wf(),
            final(self).counter == counter_plus(old(self).counter, 1),
            final(self).init_matrix@ == with_counter(old(self).init_matrix@, final(self).counter),
            final(buffer)@.len() == old(buffer)@.len(),
            forall|i: int|
                0 <= i < old(buffer)@.len() ==> #[trigger] final(buffer)@[i] == if offset <= i
                    < offset + 64 {
                    mix(mixer, old(buffer)@[i], salsa20_block(old(self).init_matrix@)[i - offset])
                } else {
                    old(buffer)@[i]
                },
    {
        let words = self.block_words();
        let ghost block = salsa20_block(self.init_matrix@);
        let len = buffer.len();
        for i in 0..16
            invariant
                offset + 64 <= len,
                len == buffer@.len(),
                buffer@.len() == old(buffer)@.len(),
                words@ == salsa20_words(self.init_matrix@),
                block == salsa20_block(self.init_matrix@),
                forall|j: int|
                    0 <= j < old(buffer)@.len() ==> #[trigger] buffer@[j] == if offset <= j
                        < offset + 4 * i {
                        mix(mixer, old(buffer)@[j], block[j - offset])
                    } else {
                        old(buffer)@[j]
                    },
        {
            mix_word(buffer, offset + 4 * i, words[i], mixer);
            assert forall|j: int| offset + 4 * i <= j < offset + 4 * i + 4 implies #[trigger] block[j - offset]
                == word_bytes(words@[i as int])[j - offset - 4 * i] by {
                assert((j - offset) / 4 == i);
                assert((j - offset) % 4 == j - offset - 4 * i);
            }
        }
        self.set_counter(self.counter.wrapping_add(1));
    }

    /// Mixes the current block into `buffer[0..64]`, then moves to the next
    /// block.
    pub fn generate(&mut self, buffer: &mut [u8], mixer: Mixer)
        requires
            old(self).wf(),
            64 <= old(buffer)@.len(),
        ensures
            final(self).wf(),
            final(self).counter == counter_plus(old(self).counter, 1),
            final(self).init_matrix@ == with_counter(old(self).init_matrix@, final(self).counter),
            final(buffer)@.len() == old(buffer)@.len(),
            forall|i: int|
                0 <= i < old(buffer)@.len() ==> #[trigger] final(buffer)@[i] == if i < 64 {
                    mix(mixer, old(buffer)@[i], salsa20_block(old(self).init_matrix@)[i])
                } else {
                    old(buffer)@[i]
                },
    {
        self.generate_at(buffer, 0, mixer);
    }
}

} // verus!
