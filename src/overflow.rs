//! The overflow buffer: one keystream block and a cursor marking how much of
//! it has been handed out.
use vstd::prelude::*;

use crate::utils::{mix, mix_byte, Mixer};

verus! {

/// A produced block whose bytes `buffer[offset..]` have not been consumed
/// yet; `offset == 64` means that nothing is left.
#[derive(Clone, Copy)]
pub(crate) struct Overflow {
    pub(crate) buffer: [u8; 64],
    pub(crate) offset: usize,
}

impl Overflow {
    pub(crate) open spec fn wf(&self) -> bool {
        self.offset <= 64
    }

    /// The bytes not consumed yet, in the order they are to be served.
    pub(crate) open spec fn leftover(&self) -> Seq<u8> {
        self.buffer@.subrange(self.offset as int, 64)
    }

    /// An empty overflow buffer.
    pub(crate) fn new() -> (r: Overflow)
        ensures
            r.wf(),
            r.offset == 64,
            r.leftover() == Seq::<u8>::empty(),
    {
        let r = Overflow { buffer: [0u8; 64], offset: 64 };
        assert(r.leftover() =~= Seq::<u8>::empty());
        r
    }

    /// Serves the next `len` leftover bytes into `buffer[start..start + len]`
    /// through `mixer`, and advances the cursor past them.
    pub(crate) fn modify(&mut self, buffer: &mut [u8], start: usize, len: usize, mixer: Mixer)
        requires
            old(self).wf(),
            start + len <= old(buffer)@.len(),
            old(self).offset + len <= 64,
        ensures
            final(self).wf(),
            final(self).buffer == old(self).buffer,
            final(self).offset == old(self).offset + len,
            final(buffer)@.len() == old(buffer)@.len(),
            forall|i: int|
                0 <= i < old(buffer)@.len() ==> #[trigger] final(buffer)@[i] == if start <= i
                    < start + len {
                    mix(mixer, old(buffer)@[i], old(self).leftover()[i - start])
                } else {
                    old(buffer)@[i]
                },
    {
        let offset = self.offset;
        let blen = buffer.len();
        for j in 0..len
            invariant
                blen == buffer@.len(),
                self.offset == offset,
                offset == old(self).offset,
                self.buffer == old(self).buffer,
                offset + len <= 64,
                start + len <= buffer@.len(),
                buffer@.len() == old(buffer)@.len(),
                forall|i: int|
                    0 <= i < old(buffer)@.len() ==> #[trigger] buffer@[i] == if start <= i < start
                        + j {
                        mix(mixer, old(buffer)@[i], self.buffer@[offset + i - start])
                    } else {
                        old(buffer)@[i]
                    },
        {
            let b = buffer[start + j];
            buffer[start + j] = mix_byte(mixer, b, self.buffer[offset + j]);
        }
        self.offset = offset + len;
    }
}

} // verus!
