//! Terminal attributes and the control codes of console devices.
use vstd::prelude::*;

use crate::bits::{bytes_round_trip, u16_from_bytes, u16_of, u32_bytes, u32_from_bytes, u32_of};
use crate::bytes::le32_bytes;

verus! {

pub const TCGETS: u32 = 0x5401;
pub const TCSETS: u32 = 0x5402;
pub const TCSETSW: u32 = 0x5403;
pub const TCSETSF: u32 = 0x5404;
pub const TIOCGWINSZ: u32 = 0x5413;
pub const TIOCSWINSZ: u32 = 0x5414;

/// Enter graphics mode. The argument is a `GraphicsMode` with the wanted width,
/// height and depth; on success its framebuffer field is filled in.
pub const TSETGFX: u32 = 0x6001;
/// Leave graphics mode and return to text mode.
pub const TSETTEXT: u32 = 0x6002;
/// Get the palette, as 768 bytes of packed red, green and blue.
pub const TGETPAL: u32 = 0x6003;
/// Set the palette from 768 bytes of packed red, green and blue.
pub const TSETPAL: u32 = 0x6004;
/// Set the window title, at most 40 bytes.
pub const TSETTITLE: u32 = 0x6005;

pub const PALETTE_ENTRIES: usize = 256;
pub const PALETTE_SIZE: usize = 768;

/// The size of a `Termios` record.
pub const TERMIOS_SIZE: usize = 36;
/// The size of a `GraphicsMode` record.
pub const GRAPHICS_MODE_SIZE: usize = 12;

// Local flags.
pub const ISIG: u32 = 0x00000001;
pub const ICANON: u32 = 0x00000002;
pub const ECHO: u32 = 0x00000008;
pub const ECHOE: u32 = 0x00000010;
pub const ECHOK: u32 = 0x00000020;
pub const ECHONL: u32 = 0x00000040;
pub const NOFLSH: u32 = 0x00000080;
pub const TOSTOP: u32 = 0x00000100;

#[derive(Clone, Copy, Debug)]
pub struct Termios {
    pub iflags: u32,
    pub oflags: u32,
    pub cflags: u32,
    pub lflags: u32,
    pub cc: [u8; 20],
}

/// A little-endian word of `bytes` at `at`.
pub open spec fn le32(bytes: Seq<u8>, at: int) -> u32 {
    u32_of(bytes[at], bytes[at + 1], bytes[at + 2], bytes[at + 3])
}

/// A word put together from four bytes has those bytes.
pub proof fn lemma_le32_round_trip(bytes: Seq<u8>, at: int)
    requires
        0 <= at,
        at + 4 <= bytes.len(),
    ensures
        le32_bytes(le32(bytes, at)) == bytes.subrange(at, at + 4),
{
    bytes_round_trip(0, bytes[at], bytes[at + 1], bytes[at + 2], bytes[at + 3]);
    assert(le32_bytes(le32(bytes, at)) =~= bytes.subrange(at, at + 4));
}

impl Termios {
    /// The record as it lies in memory.
    pub open spec fn record(&self) -> Seq<u8> {
        le32_bytes(self.iflags) + le32_bytes(self.oflags) + le32_bytes(self.cflags)
            + le32_bytes(self.lflags) + self.cc@
    }

    pub fn default() -> (r: Self)
        ensures
            r.iflags == 0,
            r.oflags == 0,
            r.cflags == 0,
            r.lflags == 0,
            r.cc@ == Seq::new(20, |i: int| 0u8),
    {
        let r = Self { iflags: 0, oflags: 0, cflags: 0, lflags: 0, cc: [0u8; 20] };
        assert(r.cc@ =~= Seq::new(20, |i: int| 0u8));
        r
    }

    /// Read a record.
    pub fn from_record(bytes: &[u8]) -> (r: Self)
        requires
            bytes@.len() == 36,
        ensures
            r.record() == bytes@,
    {
        let mut cc: [u8; 20] = [0u8; 20];
        let mut i: usize = 0;
        while i < 20
            invariant
                i <= 20,
                bytes@.len() == 36,
                forall|k: int| 0 <= k < i ==> cc@[k] == bytes@[16 + k],
            decreases 20 - i,
        {
            cc[i] = bytes[16 + i];
            i += 1;
        }
        let r = Self {
            iflags: u32_from_bytes(bytes[0], bytes[1], bytes[2], bytes[3]),
            oflags: u32_from_bytes(bytes[4], bytes[5], bytes[6], bytes[7]),
            cflags: u32_from_bytes(bytes[8], bytes[9], bytes[10], bytes[11]),
            lflags: u32_from_bytes(bytes[12], bytes[13], bytes[14], bytes[15]),
            cc,
        };
        proof {
            lemma_le32_round_trip(bytes@, 0);
            lemma_le32_round_trip(bytes@, 4);
            lemma_le32_round_trip(bytes@, 8);
            lemma_le32_round_trip(bytes@, 12);
            assert(cc@ =~= bytes@.subrange(16, 36));
            lemma_record_parts(bytes@);
            assert(r.record() == bytes@.subrange(0, 4) + bytes@.subrange(4, 8)
                + bytes@.subrange(8, 12) + bytes@.subrange(12, 16) + bytes@.subrange(16, 36));
        }
        r
    }

    /// Write the record over `bytes`.
    pub fn write_record(&self, bytes: &mut [u8])
        requires
            old(bytes)@.len() == 36,
        ensures
            final(bytes)@ == self.record(),
    {
        put_le32(bytes, 0, self.iflags);
        put_le32(bytes, 4, self.oflags);
        put_le32(bytes, 8, self.cflags);
        put_le32(bytes, 12, self.lflags);
        let ghost head = bytes@;
        let ghost words = le32_bytes(self.iflags) + le32_bytes(self.oflags)
            + le32_bytes(self.cflags) + le32_bytes(self.lflags);
        assert(head.subrange(0, 16) =~= words);
        let mut i: usize = 0;
        while i < 20
            invariant
                i <= 20,
                bytes@.len() == 36,
                head.len() == 36,
                forall|k: int| 0 <= k < 16 ==> bytes@[k] == head[k],
                forall|k: int| 0 <= k < i ==> #[trigger] bytes@[16 + k] == self.cc@[k],
            decreases 20 - i,
        {
            bytes[16 + i] = self.cc[i];
            i += 1;
        }
        proof {
            assert forall|k: int| 16 <= k < 36 implies #[trigger] bytes@[k] == self.cc@[k - 16] by {
                assert(bytes@[16 + (k - 16)] == self.cc@[k - 16]);
            }
        }
        assert(bytes@.subrange(0, 16) =~= words);
        assert(bytes@.subrange(16, 36) =~= self.cc@);
        assert(bytes@ =~= bytes@.subrange(0, 16) + bytes@.subrange(16, 36));
    }
}

proof fn lemma_record_parts(b: Seq<u8>)
    requires
        b.len() == 36,
    ensures
        b.subrange(0, 4) + b.subrange(4, 8) + b.subrange(8, 12) + b.subrange(12, 16)
            + b.subrange(16, 36) == b,
{
    assert(b.subrange(0, 4) + b.subrange(4, 8) + b.subrange(8, 12) + b.subrange(12, 16)
        + b.subrange(16, 36) =~= b);
}

/// Store `x` at `at`, low byte first.
pub fn put_le32(bytes: &mut [u8], at: usize, x: u32)
    requires
        at + 4 <= old(bytes)@.len(),
    ensures
        final(bytes)@ == old(bytes)@.subrange(0, at as int) + le32_bytes(x)
            + old(bytes)@.subrange(at + 4, old(bytes)@.len() as int),
{
    let (a, b, c, d) = u32_bytes(x);
    let n: usize = bytes.len();
    bytes[at] = a;
    bytes[at + 1] = b;
    bytes[at + 2] = c;
    bytes[at + 3] = d;
    assert(bytes@ =~= old(bytes)@.subrange(0, at as int) + le32_bytes(x)
        + old(bytes)@.subrange(at + 4, old(bytes)@.len() as int));
}

#[derive(Clone, Copy, PartialEq, Eq, Structural, Debug)]
pub struct WinSize {
    pub rows: u16,
    pub cols: u16,
    pub xpixel: u16,
    pub ypixel: u16,
}

#[derive(Clone, Copy, PartialEq, Eq, Structural, Debug)]
pub struct GraphicsMode {
    /// Requested width of the new buffer.
    pub width: u16,
    /// Requested height of the new buffer.
    pub height: u16,
    /// The colour depth, with room for other flags.
    pub bpp_flags: u32,
    /// On return, the physical address of the graphics framebuffer.
    pub framebuffer: u32,
}

impl GraphicsMode {
    /// The record held by the first twelve bytes of `bytes`.
    pub open spec fn of_record(bytes: Seq<u8>) -> GraphicsMode {
        GraphicsMode {
            width: u16_of(bytes[0], bytes[1]),
            height: u16_of(bytes[2], bytes[3]),
            bpp_flags: le32(bytes, 4),
            framebuffer: le32(bytes, 8),
        }
    }

    pub fn from_record(bytes: &[u8]) -> (r: Self)
        requires
            bytes@.len() == 12,
        ensures
            r == Self::of_record(bytes@),
    {
        GraphicsMode {
            width: u16_from_bytes(bytes[0], bytes[1]),
            height: u16_from_bytes(bytes[2], bytes[3]),
            bpp_flags: u32_from_bytes(bytes[4], bytes[5], bytes[6], bytes[7]),
            framebuffer: u32_from_bytes(bytes[8], bytes[9], bytes[10], bytes[11]),
        }
    }
}

} // verus!
