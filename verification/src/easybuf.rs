//! `tokio_core`'s `EasyBuf`, the byte buffer that the framed transport hands the
//! codec, as the codec's logic sees it: the bytes it holds.

use vstd::prelude::*;
#[allow(deprecated)]
use tokio_core::io::EasyBuf;

verus! {

/// `tokio_core::io::EasyBuf`, carried through verified code as an opaque value.
#[verifier::external_type_specification]
#[verifier::external_body]
pub struct ExEasyBuf(EasyBuf);

/// The bytes that an `EasyBuf` holds, first to last.
pub uninterp spec fn easybuf_bytes(buf: EasyBuf) -> Seq<u8>;

/// `EasyBuf::as_slice`: tokio-core returns the window `buf[start..end]` of the shared
/// vector, which is exactly the bytes the buffer holds.
#[verifier::external_body]
#[allow(deprecated)]
pub(crate) fn buf_as_slice(buf: &EasyBuf) -> (r: &[u8])
    ensures
        r@ == easybuf_bytes(*buf),
{
    buf.as_slice()
}

/// `EasyBuf::drain_to`: tokio-core moves the start of `buf`'s window forward by `at`
/// and returns a buffer over the window it passed, so the first `at` bytes come back
/// and `buf` keeps the rest. It panics when `at` exceeds the length, which `requires`
/// rules out.
#[verifier::external_body]
#[allow(deprecated)]
pub(crate) fn buf_drain_to(buf: &mut EasyBuf, at: usize) -> (front: EasyBuf)
    requires
        at <= easybuf_bytes(*old(buf)).len(),
    ensures
        easybuf_bytes(front) == easybuf_bytes(*old(buf)).take(at as int),
        easybuf_bytes(*final(buf)) == easybuf_bytes(*old(buf)).skip(at as int),
{
    buf.drain_to(at)
}

} // verus!
