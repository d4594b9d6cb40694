//! Messages of the kernel.
use vstd::prelude::*;

use crate::text::{decimal, push_bytes, push_decimal, push_text, text};

verus! {

/// Lines that are kept until they can be written to a file.
pub struct BufferedLogger {
    pub log_lines: Vec<Vec<u8>>,
}

pub open spec fn lines_of(v: Seq<Vec<u8>>) -> Seq<Seq<u8>> {
    Seq::new(v.len(), |i: int| v[i]@)
}

impl BufferedLogger {
    pub open spec fn lines(&self) -> Seq<Seq<u8>> {
        lines_of(self.log_lines@)
    }

    pub fn new() -> (r: Self)
        ensures
            r.lines() == Seq::<Seq<u8>>::empty(),
    {
        let r: BufferedLogger = BufferedLogger { log_lines: Vec::new() };
        assert(r.lines() =~= Seq::<Seq<u8>>::empty());
        r
    }

    /// Keep a message. Gives what is shown at once.
    pub fn log(&mut self, message: &str) -> (r: Vec<u8>)
        ensures
            final(self).lines() == old(self).lines().push(text(message)),
            r@ == text("LOG: ") + text(message) + seq![0x0Au8],
    {
        let mut line: Vec<u8> = Vec::new();
        push_text(&mut line, message);
        assert(line@ =~= text(message));
        self.log_lines.push(line);
        assert(self.lines() =~= old(self).lines().push(text(message)));
        let mut shown: Vec<u8> = Vec::new();
        push_text(&mut shown, "LOG: ");
        push_text(&mut shown, message);
        shown.push(0x0A);
        assert(shown@ =~= text("LOG: ") + text(message) + seq![0x0Au8]);
        shown
    }

    /// The messages to write to a file, in order. They are forgotten.
    pub fn flush_to_file(&mut self) -> (r: Vec<Vec<u8>>)
        ensures
            lines_of(r@) == old(self).lines(),
            final(self).lines() == Seq::<Seq<u8>>::empty(),
    {
        let mut lines: Vec<Vec<u8>> = Vec::new();
        core::mem::swap(&mut lines, &mut self.log_lines);
        assert(self.lines() =~= Seq::<Seq<u8>>::empty());
        lines
    }
}

/// A source of messages with a name of eight bytes and a color.
#[derive(Clone, Copy, Debug)]
pub struct TaggedLogger {
    pub tag: [u8; 8],
    pub color: u8,
}

/// The first eight bytes of a name, with spaces after a shorter one.
pub open spec fn tag_of(name: Seq<u8>) -> Seq<u8> {
    Seq::new(8, |i: int| if i < name.len() { name[i] } else { 0x20u8 })
}

impl TaggedLogger {
    pub fn new(tag_str: &str, color: u8) -> (r: Self)
        ensures
            r.tag@ == tag_of(text(tag_str)),
            r.color == color,
    {
        let bytes: &[u8] = tag_str.as_bytes();
        let mut tag: [u8; 8] = [0x20u8; 8];
        let mut i: usize = 0;
        while i < 8 && i < bytes.len()
            invariant
                bytes@ == text(tag_str),
                i <= 8,
                i <= bytes@.len(),
                forall|k: int| 0 <= k < i ==> tag@[k] == bytes@[k],
                forall|k: int| i <= k < 8 ==> tag@[k] == 0x20,
            ensures
                i == 8 || i == bytes@.len(),
            decreases 8 - i,
        {
            tag[i] = bytes[i];
            i += 1;
        }
        assert(tag@ =~= tag_of(text(tag_str)));
        TaggedLogger { tag, color }
    }

    pub fn tag_bytes(&self) -> (r: [u8; 8])
        ensures
            r == self.tag,
    {
        self.tag
    }

    /// A message with the name before it, in its color.
    pub fn log(&self, message: &[u8]) -> (r: Vec<u8>)
        ensures
            r@ == text("\x1b[") + decimal(self.color as nat) + text("m") + self.tag@ + text(
                "\x1b[0m: ",
            ) + message@ + seq![0x0Au8],
    {
        let mut out: Vec<u8> = Vec::new();
        push_text(&mut out, "\x1b[");
        push_decimal(&mut out, self.color as u64);
        push_text(&mut out, "m");
        push_bytes(&mut out, self.tag.as_slice());
        push_text(&mut out, "\x1b[0m: ");
        push_bytes(&mut out, message);
        out.push(0x0A);
        assert(out@ =~= text("\x1b[") + decimal(self.color as nat) + text("m") + self.tag@ + text(
            "\x1b[0m: ",
        ) + message@ + seq![0x0Au8]);
        out
    }
}

} // verus!
