//! Reading a socket one byte at a time: what a completed one-byte read means.

use vstd::prelude::*;

verus! {

/// The outcome of a one-byte read that returned `count`: a read of nothing is the end
/// of the stream, otherwise the byte read.
pub fn byte_read(count: usize, buf: [u8; 1]) -> (r: Option<u8>)
    ensures
        count == 0 ==> r is None,
        count != 0 ==> r == Some(buf[0]),
{
    match count {
        0 => None,
        _ => Some(buf[0]),
    }
}

} // verus!
