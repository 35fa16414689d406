//! Variable-length integer codecs: 7-bit groups tagged with a continuation
//! bit, for unsigned machine words and, through the zig-zag transform, for
//! signed 64-bit integers.
use vstd::prelude::*;

pub mod codec;
pub mod groups;
pub mod laws;
pub mod zigzag;
