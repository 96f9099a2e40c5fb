//! IDN45: a sponge-construction hash with three output encodings.

pub mod encoding;
pub mod hasher;
pub mod permutation;
pub mod sponge;
pub mod utils;

pub use hasher::{HashFormat, IDN45};
pub use utils::validate_hash;
