//! The compression-envelope convention: a stream is gzip-framed exactly
//! when it opens with the gzip magic bytes. Opening files and running the
//! gzip codec are host concerns outside of this library.

use vstd::prelude::*;

verus! {

/// Whether the stream opens with the gzip magic bytes 0x1F 0x8B, in which
/// case the NBT payload is gzip-framed and the host must decode it before
/// handing the bytes to the reader.
pub fn is_gzip(input: &Vec<u8>) -> (r: bool)
    ensures
        r == (input@.len() >= 2 && input@[0] == 0x1Fu8 && input@[1] == 0x8Bu8),
{
    input.len() >= 2 && input[0] == 0x1F && input[1] == 0x8B
}

} // verus!
