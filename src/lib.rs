//! Salsa20/20 keystream generation with call-boundary-independent streaming.
use vstd::prelude::*;

pub mod cipher;
pub mod generator;
mod overflow;
pub mod rounds;
pub mod stream;
pub mod utils;

pub use cipher::Salsa20;
pub use generator::Generator;
pub use rounds::{columnround, doubleround, quarterround, rowround};
pub use utils::{u8_to_u32, xor_from_slice, Mixer};

verus! {

/// The one way construction can fail.
#[derive(Clone, Copy, Debug, PartialEq, Eq)]
pub enum Error {
    /// The key is neither 16 nor 32 bytes long.
    InvalidKeySize,
}

} // verus!
