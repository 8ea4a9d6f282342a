//! Little-endian word/byte conversion and the two ways a keystream byte is
//! mixed into a caller's buffer.
use vstd::prelude::*;

verus! {

/// The 32-bit word stored little-endian in `b[i..i + 4]`.
pub open spec fn le_word(b: Seq<u8>, i: int) -> u32 {
    (b[i] + 0x100 * b[i + 1] + 0x1_0000 * b[i + 2] + 0x100_0000 * b[i + 3]) as u32
}

/// The four little-endian bytes of `w`.
pub open spec fn word_bytes(w: u32) -> Seq<u8> {
    seq![
        (w % 0x100) as u8,
        ((w / 0x100) % 0x100) as u8,
        ((w / 0x1_0000) % 0x100) as u8,
        (w / 0x100_0000) as u8,
    ]
}

/// How keystream bytes are combined with the bytes already in a buffer.
#[derive(Clone, Copy, Debug, PartialEq, Eq)]
pub enum Mixer {
    /// The keystream byte replaces the buffer byte.
    Overwrite,
    /// The keystream byte is XORed into the buffer byte.
    Xor,
}

/// The byte that `m` leaves where `dst` stood, given keystream byte `ks`.
pub open spec fn mix(m: Mixer, dst: u8, ks: u8) -> u8 {
    match m {
        Mixer::Overwrite => ks,
        Mixer::Xor => dst ^ ks,
    }
}

/// Byte-wise XOR of `a` with `b`, over the length of `a`.
pub open spec fn xor_seq(a: Seq<u8>, b: Seq<u8>) -> Seq<u8> {
    Seq::new(a.len(), |i: int| a[i] ^ b[i])
}

pub(crate) fn mix_byte(m: Mixer, dst: u8, ks: u8) -> (r: u8)
    ensures
        r == mix(m, dst, ks),
{
    match m {
        Mixer::Overwrite => ks,
        Mixer::Xor => dst ^ ks,
    }
}

/// Reads the little-endian word at `bytes[offset..offset + 4]`.
pub(crate) fn load_word(bytes: &[u8], offset: usize) -> (r: u32)
    requires
        offset + 4 <= bytes@.len(),
    ensures
        r == le_word(bytes@, offset as int),
{
    bytes[offset] as u32 + 0x100 * bytes[offset + 1] as u32 + 0x1_0000 * bytes[offset + 2] as u32
        + 0x100_0000 * bytes[offset + 3] as u32
}

/// Mixes the four little-endian bytes of `w` into `buffer[offset..offset + 4]`.
pub(crate) fn mix_word(buffer: &mut [u8], offset: usize, w: u32, m: Mixer)
    requires
        offset + 4 <= old(buffer)@.len(),
    ensures
        final(buffer)@.len() == old(buffer)@.len(),
        forall|i: int|
            0 <= i < old(buffer)@.len() ==> #[trigger] final(buffer)@[i] == if offset <= i < offset
                + 4 {
                mix(m, old(buffer)@[i], word_bytes(w)[i - offset])
            } else {
                old(buffer)@[i]
            },
{
    let b0 = buffer[offset];
    buffer[offset] = mix_byte(m, b0, (w % 0x100) as u8);
    let b1 = buffer[offset + 1];
    buffer[offset + 1] = mix_byte(m, b1, ((w / 0x100) % 0x100) as u8);
    let b2 = buffer[offset + 2];
    buffer[offset + 2] = mix_byte(m, b2, ((w / 0x1_0000) % 0x100) as u8);
    let b3 = buffer[offset + 3];
    buffer[offset + 3] = mix_byte(m, b3, (w / 0x100_0000) as u8);
}

/// Fills each word of `u32_slice` from the little-endian bytes at the same
/// position in `bytes`.
pub fn u8_to_u32(bytes: &[u8], u32_slice: &mut [u32])
    requires
        4 * old(u32_slice)@.len() <= bytes@.len(),
    ensures
        final(u32_slice)@.len() == old(u32_slice)@.len(),
        forall|i: int|
            0 <= i < final(u32_slice)@.len() ==> #[trigger] final(u32_slice)@[i] == le_word(
                bytes@,
                4 * i,
            ),
{
    let n = u32_slice.len();
    let len = bytes.len();
    for index in 0..n
        invariant
            n == u32_slice@.len(),
            len == bytes@.len(),
            4 * n <= len,
            forall|i: int| 0 <= i < index ==> #[trigger] u32_slice@[i] == le_word(bytes@, 4 * i),
    {
        u32_slice[index] = load_word(bytes, index * 4);
    }
}

/// XORs `from` into `to`, byte by byte, over the shorter of the two.
pub fn xor_from_slice(to: &mut [u8], from: &[u8])
    ensures
        final(to)@.len() == old(to)@.len(),
        forall|i: int|
            0 <= i < old(to)@.len() ==> #[trigger] final(to)@[i] == if i < from@.len() {
                old(to)@[i] ^ from@[i]
            } else {
                old(to)@[i]
            },
{
    let n = if to.len() < from.len() {
        to.len()
    } else {
        from.len()
    };
    for index in 0..n
        invariant
            n <= to@.len(),
            n <= from@.len(),
            to@.len() == old(to)@.len(),
            forall|i: int|
                0 <= i < old(to)@.len() ==> #[trigger] to@[i] == if i < index {
                    old(to)@[i] ^ from@[i]
                } else {
                    old(to)@[i]
                },
    {
        let b = to[index];
        to[index] = b ^ from[index];
    }
}

} // verus!
