//! Strings of bytes.
use vstd::prelude::*;

use crate::bits::{byte0, byte1, byte2, byte3};

verus! {

/// `piece` written over the bytes of `buf` from `offset` on.
pub open spec fn spliced(buf: Seq<u8>, offset: int, piece: Seq<u8>) -> Seq<u8> {
    Seq::new(
        buf.len(),
        |k: int| if offset <= k < offset + piece.len() { piece[k - offset] } else { buf[k] },
    )
}

/// The first `n` bytes, or all where there are fewer.
pub open spec fn truncated(s: Seq<u8>, n: int) -> Seq<u8> {
    if s.len() <= n { s } else { s.subrange(0, n) }
}

/// The four bytes of a number, from low to high.
pub open spec fn le32_bytes(x: u32) -> Seq<u8> {
    seq![byte0(x), byte1(x), byte2(x), byte3(x)]
}

} // verus!
