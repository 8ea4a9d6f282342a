//! The abstract keystream state of a cipher and the keystream it owes.
use vstd::prelude::*;

use crate::generator::{
    counter_plus, initial_matrix, lemma_counter_plus_add, salsa20_block, with_counter,
};
use crate::utils::xor_seq;
use vstd::arithmetic::div_mod::{lemma_fundamental_div_mod, lemma_fundamental_div_mod_converse};

verus! {

/// Splits `x = 64 * q + r` with `0 <= r < 64` into `x / 64 == q` and
/// `x % 64 == r`.
pub proof fn lemma_div_mod_64(x: int, q: int, r: int)
    requires
        x == 64 * q + r,
        0 <= r < 64,
    ensures
        x / 64 == q,
        x % 64 == r,
{
    lemma_fundamental_div_mod_converse(x, 64, q, r);
}

/// What a cipher instance will emit: the leftover bytes of an earlier block,
/// then the Salsa20 keystream from block `counter` on.
///
/// `matrix` is the state matrix with its counter words at zero; it fixes the
/// key and nonce.
pub struct CipherView {
    pub matrix: Seq<u32>,
    pub counter: u64,
    pub leftover: Seq<u8>,
}

impl CipherView {
    /// The keystream block with index `c`.
    pub open spec fn block_at(self, c: u64) -> Seq<u8> {
        salsa20_block(with_counter(self.matrix, c))
    }

    /// Byte `i` of the keystream that starts at block `counter`.
    pub open spec fn stream_byte(self, i: nat) -> u8 {
        self.block_at(counter_plus(self.counter, i as int / 64))[i as int % 64]
    }

    /// Byte `i` of everything this state will emit.
    pub open spec fn pending(self, i: nat) -> u8 {
        if i < self.leftover.len() {
            self.leftover[i as int]
        } else {
            self.stream_byte((i - self.leftover.len()) as nat)
        }
    }

    /// The next `n` bytes this state will emit.
    pub open spec fn keystream(self, n: nat) -> Seq<u8> {
        Seq::new(n, |i: int| self.pending(i as nat))
    }

    /// The state after emitting `n` bytes: the leftover bytes are consumed
    /// first, then whole blocks; a block that is only partly consumed leaves
    /// the rest of itself as the new leftover.
    pub open spec fn advance(self, n: nat) -> CipherView {
        let l = self.leftover.len();
        if n <= l {
            CipherView { leftover: self.leftover.subrange(n as int, l as int), ..self }
        } else {
            let m = n - l;
            let full = m / 64;
            let rem = m % 64;
            if rem == 0 {
                CipherView {
                    counter: counter_plus(self.counter, full),
                    leftover: Seq::empty(),
                    ..self
                }
            } else {
                CipherView {
                    counter: counter_plus(self.counter, full + 1),
                    leftover: self.block_at(counter_plus(self.counter, full)).subrange(rem, 64),
                    ..self
                }
            }
        }
    }

    /// The state after seeking to block `c`; leftover bytes stay.
    pub open spec fn seek(self, c: u64) -> CipherView {
        CipherView { counter: c, ..self }
    }
}

/// The state of a new cipher for `key`, `nonce` and starting block `counter`.
pub open spec fn fresh(key: Seq<u8>, nonce: Seq<u8>, counter: u64) -> CipherView {
    CipherView { matrix: initial_matrix(key, nonce, 0), counter, leftover: Seq::empty() }
}

/// The canonical Salsa20/20 keystream: `n` bytes from block `counter` on.
pub open spec fn canonical_keystream(key: Seq<u8>, nonce: Seq<u8>, counter: u64, n: nat) -> Seq<
    u8,
> {
    Seq::new(
        n,
        |i: int| salsa20_block(initial_matrix(key, nonce, counter_plus(counter, i / 64)))[i % 64],
    )
}

/// Emitting `n` bytes and then byte `j` gives byte `n + j` of what the state
/// owed: where a request is cut does not change the keystream.
pub proof fn lemma_pending_advance(s: CipherView, n: nat, j: nat)
    ensures
        s.advance(n).pending(j) == s.pending(n + j),
{
    let l = s.leftover.len() as int;
    let j = j as int;
    if n > l {
        let m = n - l;
        let full = m / 64;
        let rem = m % 64;
        lemma_fundamental_div_mod(m, 64);
        lemma_fundamental_div_mod(j, 64);
        if rem == 0 {
            lemma_div_mod_64(m + j, full + j / 64, j % 64);
            lemma_counter_plus_add(s.counter, full, j / 64);
        } else if j < 64 - rem {
            lemma_div_mod_64(m + j, full, rem + j);
        } else {
            let t = j - (64 - rem);
            lemma_fundamental_div_mod(t, 64);
            lemma_div_mod_64(m + j, full + 1 + t / 64, t % 64);
            lemma_counter_plus_add(s.counter, full + 1, t / 64);
        }
    }
}

/// `a` bytes emitted, then `b` more from the state that follows, are the
/// `a + b` bytes of one request.
pub proof fn lemma_keystream_split(s: CipherView, a: nat, b: nat)
    ensures
        s.keystream(a) + s.advance(a).keystream(b) == s.keystream(a + b),
{
    assert forall|i: int| a <= i < a + b implies #[trigger] s.keystream(a + b)[i] == s.advance(
        a,
    ).keystream(b)[i - a] by {
        lemma_pending_advance(s, a, (i - a) as nat);
    }
    assert(s.keystream(a) + s.advance(a).keystream(b) =~= s.keystream(a + b));
}

/// The total length of a sequence of requests.
pub open spec fn total(parts: Seq<nat>) -> nat
    decreases parts.len(),
{
    if parts.len() == 0 {
        0
    } else {
        parts[0] + total(parts.drop_first())
    }
}

/// The bytes emitted by consecutive requests of the lengths in `parts`,
/// starting from state `s`, concatenated.
pub open spec fn emitted(s: CipherView, parts: Seq<nat>) -> Seq<u8>
    decreases parts.len(),
{
    if parts.len() == 0 {
        Seq::empty()
    } else {
        s.keystream(parts[0]) + emitted(s.advance(parts[0]), parts.drop_first())
    }
}

/// However a request is split into consecutive requests, the bytes emitted
/// are those of the single request.
pub proof fn lemma_streaming_equivalence(s: CipherView, parts: Seq<nat>)
    ensures
        emitted(s, parts) == s.keystream(total(parts)),
    decreases parts.len(),
{
    if parts.len() == 0 {
        assert(s.keystream(0) =~= Seq::<u8>::empty());
    } else {
        lemma_streaming_equivalence(s.advance(parts[0]), parts.drop_first());
        lemma_keystream_split(s, parts[0], total(parts.drop_first()));
    }
}

/// Emitting no bytes leaves the state as it was.
pub proof fn lemma_advance_zero(s: CipherView)
    ensures
        s.advance(0) == s,
{
    assert(s.leftover.subrange(0, s.leftover.len() as int) =~= s.leftover);
}

/// Emitting `a` bytes and then `b` bytes leaves the state that emitting
/// `a + b` bytes at once leaves.
pub proof fn lemma_advance_twice(s: CipherView, a: nat, b: nat)
    ensures
        s.advance(a).advance(b) == s.advance(a + b),
{
    let l = s.leftover.len() as int;
    let a = a as int;
    let b = b as int;
    let s1 = s.advance(a as nat);
    let s2 = s.advance((a + b) as nat);
    if a <= l {
        if b <= l - a {
            assert(s1.advance(b as nat).leftover =~= s2.leftover);
        }
        assert(s1.advance(b as nat) == s2);
    } else {
        let m = a - l;
        let full = m / 64;
        let rem = m % 64;
        lemma_fundamental_div_mod(m, 64);
        if rem == 0 {
            if b > 0 {
                lemma_fundamental_div_mod(b, 64);
                lemma_div_mod_64(m + b, full + b / 64, b % 64);
                lemma_counter_plus_add(s.counter, full, b / 64);
                lemma_counter_plus_add(s.counter, full, b / 64 + 1);
                assert(s1.advance(b as nat) == s2);
            } else {
                lemma_advance_zero(s1);
                assert(s1.advance(b as nat) == s2);
            }
        } else if b <= 64 - rem {
            if rem + b < 64 {
                lemma_div_mod_64(m + b, full, rem + b);
                assert(s1.advance(b as nat).leftover =~= s2.leftover);
                assert(s1.advance(b as nat) == s2);
            } else {
                lemma_div_mod_64(m + b, full + 1, 0);
                lemma_counter_plus_add(s.counter, full, 1);
                assert(s1.advance(b as nat).leftover =~= Seq::<u8>::empty());
                assert(s1.advance(b as nat) == s2);
            }
        } else {
            let m1 = b - (64 - rem);
            lemma_fundamental_div_mod(m1, 64);
            lemma_div_mod_64(m + b, full + 1 + m1 / 64, m1 % 64);
            lemma_counter_plus_add(s.counter, full + 1, m1 / 64);
            lemma_counter_plus_add(s.counter, full + 1, m1 / 64 + 1);
            assert(s1.advance(b as nat) == s2);
        }
    }
}

/// XORing the same keystream in twice gives the buffer back: encryption from
/// a state, then encryption from the same state, decrypts.
pub proof fn lemma_encrypt_twice(s: CipherView, buf: Seq<u8>)
    ensures
        xor_seq(xor_seq(buf, s.keystream(buf.len())), s.keystream(buf.len())) == buf,
{
    let ks = s.keystream(buf.len());
    assert forall|i: int| 0 <= i < buf.len() implies #[trigger] xor_seq(xor_seq(buf, ks), ks)[i]
        == buf[i] by {
        let x = buf[i];
        let k = ks[i];
        assert((x ^ k) ^ k == x) by (bit_vector);
    }
    assert(xor_seq(xor_seq(buf, ks), ks) =~= buf);
}

/// A state with nothing left over, of any cipher for `key` and `nonce`,
/// seeks to block `c` exactly as a new cipher starting at `c` begins.
pub proof fn lemma_seek_is_fresh(s: CipherView, key: Seq<u8>, nonce: Seq<u8>, c: u64, n: nat)
    requires
        s.matrix == initial_matrix(key, nonce, 0),
        s.leftover.len() == 0,
    ensures
        s.seek(c) == fresh(key, nonce, c),
        s.seek(c).keystream(n) == fresh(key, nonce, c).keystream(n),
{
    assert(s.leftover =~= Seq::<u8>::empty());
}

/// A new cipher owes the canonical Salsa20/20 keystream of its key, nonce and
/// starting block, which depends on nothing else.
pub proof fn lemma_fresh_is_canonical(key: Seq<u8>, nonce: Seq<u8>, counter: u64, n: nat)
    ensures
        fresh(key, nonce, counter).keystream(n) == canonical_keystream(key, nonce, counter, n),
{
    let s = fresh(key, nonce, counter);
    assert forall|i: int| 0 <= i < n implies #[trigger] s.keystream(n)[i] == canonical_keystream(
        key,
        nonce,
        counter,
        n,
    )[i] by {
        let c = counter_plus(counter, i / 64);
        assert(with_counter(initial_matrix(key, nonce, 0), c) =~= initial_matrix(key, nonce, c));
    }
    assert(s.keystream(n) =~= canonical_keystream(key, nonce, counter, n));
}

} // verus!
