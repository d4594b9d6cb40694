//! The configuration file: one directive to a line.
use vstd::prelude::*;

use crate::api::io::IoError;
use crate::text::{
    char_list, decode_utf8, parse_unsigned, same_text, split_whitespace, texts, unsigned_number,
    words,
};

verus! {

#[derive(Debug)]
pub enum Directive {
    /// A driver that is part of the kernel.
    Driver(String),
    /// An ISA driver program and its interrupt line.
    Isa { path: String, irq: u8 },
    /// A driver program for a PCI device, which may master the bus.
    Pci { vendor_id: u16, device_id: u16, path: String, busmaster: bool },
    /// A filesystem on a device, under a drive letter.
    Mount { drive_letter: String, fs_type: String, device: String },
    /// A graphics driver program.
    Graphics(String),
    /// The console manager.
    Console,
    /// The network stack.
    Net,
    /// Minutes between local time and UTC.
    Timezone(i32),
}

/// A directive with its texts as sequences.
pub enum DirectiveModel {
    Driver(Seq<char>),
    Isa(Seq<char>, u8),
    Pci(u16, u16, Seq<char>, bool),
    Mount(Seq<char>, Seq<char>, Seq<char>),
    Graphics(Seq<char>),
    Console,
    Net,
    Timezone(i32),
}

impl View for Directive {
    type V = DirectiveModel;

    open spec fn view(&self) -> DirectiveModel {
        match self {
            Directive::Driver(name) => DirectiveModel::Driver(name@),
            Directive::Isa { path, irq } => DirectiveModel::Isa(path@, *irq),
            Directive::Pci { vendor_id, device_id, path, busmaster } => DirectiveModel::Pci(
                *vendor_id, *device_id, path@, *busmaster,
            ),
            Directive::Mount { drive_letter, fs_type, device } => DirectiveModel::Mount(
                drive_letter@, fs_type@, device@,
            ),
            Directive::Graphics(path) => DirectiveModel::Graphics(path@),
            Directive::Console => DirectiveModel::Console,
            Directive::Net => DirectiveModel::Net,
            Directive::Timezone(offset) => DirectiveModel::Timezone(*offset),
        }
    }
}

pub open spec fn directives_model(v: Seq<Directive>) -> Seq<DirectiveModel> {
    Seq::new(v.len(), |i: int| v[i]@)
}

/// The text before the first occurrence of a character, or all of it.
pub open spec fn before(s: Seq<char>, c: char) -> Seq<char>
    decreases s.len(),
{
    if s.len() == 0 || s[0] == c { Seq::empty() } else { seq![s[0]] + before(s.skip(1), c) }
}

/// A signed number of 32 bits in decimal digits, with a minus sign before it where it is
/// negative. A plus sign may stand before the digits.
pub open spec fn signed_number(s: Seq<char>) -> Option<i32> {
    let negative = s.len() > 0 && s[0] == '-';
    let digits = if negative { s.skip(1) } else { s };
    match unsigned_number(digits, 10, u32::MAX as int) {
        None => None,
        Some(n) => {
            let value = if negative { -n } else { n };
            if i32::MIN <= value <= i32::MAX { Some(value as i32) } else { None }
        },
    }
}

/// Two hexadecimal numbers of 16 bits with a colon between. What follows a second
/// colon is ignored.
pub open spec fn vendor_device(s: Seq<char>) -> Option<(u16, u16)> {
    let vendor = before(s, ':');
    if vendor.len() == s.len() {
        None
    } else {
        let device = before(s.skip(vendor.len() as int + 1), ':');
        match (unsigned_number(vendor, 16, 0xffff), unsigned_number(device, 16, 0xffff)) {
            (Some(v), Some(d)) => Some((v as u16, d as u16)),
            _ => None,
        }
    }
}

/// The directive that the words of a line give, if any.
pub open spec fn directive_of(parts: Seq<Seq<char>>) -> Option<DirectiveModel> {
    if parts.len() == 0 {
        None
    } else if parts[0] == "driver"@ {
        if parts.len() < 2 { None } else { Some(DirectiveModel::Driver(parts[1])) }
    } else if parts[0] == "isa"@ {
        if parts.len() < 3 {
            None
        } else {
            match unsigned_number(parts[2], 10, 255) {
                None => None,
                Some(irq) => Some(DirectiveModel::Isa(parts[1], irq as u8)),
            }
        }
    } else if parts[0] == "pci"@ {
        if parts.len() < 3 {
            None
        } else {
            match vendor_device(parts[1]) {
                None => None,
                Some((v, d)) => Some(
                    DirectiveModel::Pci(
                        v, d, parts[2], parts.len() > 3 && parts[3] == "busmaster"@,
                    ),
                ),
            }
        }
    } else if parts[0] == "mount"@ {
        if parts.len() < 4 {
            None
        } else {
            Some(DirectiveModel::Mount(parts[1], parts[2], parts[3]))
        }
    } else if parts[0] == "graphics"@ {
        if parts.len() < 2 { None } else { Some(DirectiveModel::Graphics(parts[1])) }
    } else if parts[0] == "console"@ {
        Some(DirectiveModel::Console)
    } else if parts[0] == "net"@ {
        Some(DirectiveModel::Net)
    } else if parts[0] == "timezone"@ {
        if parts.len() < 2 {
            None
        } else {
            match signed_number(parts[1]) {
                None => None,
                Some(offset) => Some(DirectiveModel::Timezone(offset)),
            }
        }
    } else {
        None
    }
}

/// The directive on a line, if any. A line whose first word begins with `#` has none.
pub open spec fn line_directive(line: Seq<char>) -> Option<DirectiveModel> {
    let parts = words(line);
    if parts.len() > 0 && parts[0].len() > 0 && parts[0][0] == '#' {
        None
    } else {
        directive_of(parts)
    }
}

/// The lines of a text: the runs between line feeds.
pub open spec fn lines(s: Seq<char>) -> Seq<Seq<char>>
    decreases s.len(),
{
    if s.len() == 0 {
        seq![Seq::empty()]
    } else {
        let rest = lines(s.drop_last());
        if s.last() == '\n' {
            rest.push(Seq::empty())
        } else {
            rest.drop_last().push(rest.last().push(s.last()))
        }
    }
}

/// The directives of some lines, in order.
pub open spec fn directives(ls: Seq<Seq<char>>) -> Seq<DirectiveModel>
    decreases ls.len(),
{
    if ls.len() == 0 {
        Seq::empty()
    } else {
        let rest = directives(ls.drop_last());
        match line_directive(ls.last()) {
            None => rest,
            Some(d) => rest.push(d),
        }
    }
}

/// The directives of a configuration file.
pub open spec fn config(s: Seq<char>) -> Seq<DirectiveModel> {
    directives(lines(s))
}

proof fn lemma_before(s: Seq<char>, c: char, n: int)
    requires
        0 <= n <= s.len(),
        forall|k: int| 0 <= k < n ==> #[trigger] s[k] != c,
        n == s.len() || s[n] == c,
    ensures
        before(s, c) == s.subrange(0, n),
    decreases s.len(),
{
    if n == 0 {
        assert(s.subrange(0, 0) =~= Seq::empty());
    } else {
        assert forall|k: int| 0 <= k < n - 1 implies #[trigger] s.skip(1)[k] != c by {
            assert(s.skip(1)[k] == s[k + 1]);
        }
        lemma_before(s.skip(1), c, n - 1);
        assert(seq![s[0]] + s.skip(1).subrange(0, n - 1) =~= s.subrange(0, n));
    }
}

/// The position of the first colon from a position on, or the end.
fn find_colon(s: &str, from: usize) -> (r: usize)
    requires
        from <= s@.len(),
    ensures
        from <= r <= s@.len(),
        before(s@.skip(from as int), ':') == s@.subrange(from as int, r as int),
        r < s@.len() ==> s@[r as int] == ':',
{
    let n: usize = s.unicode_len();
    let mut i: usize = from;
    while i < n && s.get_char(i) != ':'
        invariant
            n == s@.len(),
            from <= i <= n,
            forall|k: int| from <= k < i ==> #[trigger] s@[k] != ':',
        ensures
            i == n || s@[i as int] == ':',
        decreases n - i,
    {
        i += 1;
    }
    proof {
        let t = s@.skip(from as int);
        lemma_before(t, ':', i - from);
        assert(t.subrange(0, i - from) =~= s@.subrange(from as int, i as int));
    }
    i
}

/// A signed decimal number.
pub fn parse_i32(s: &str) -> (r: Option<i32>)
    ensures
        r == signed_number(s@),
{
    let n: usize = s.unicode_len();
    let negative: bool = n > 0 && s.get_char(0) == '-';
    let digits: &str = if negative { s.substring_char(1, n) } else { s };
    assert(negative ==> digits@ =~= s@.skip(1));
    match parse_unsigned(digits, 10, u32::MAX) {
        None => None,
        Some(abs) => {
            let value: i64 = if negative { 0 - abs as i64 } else { abs as i64 };
            if i32::MIN as i64 <= value && value <= i32::MAX as i64 {
                Some(value as i32)
            } else {
                None
            }
        },
    }
}

/// A pair of device numbers, such as "8086:100e".
pub fn parse_vendor_device(s: &str) -> (r: Option<(u16, u16)>)
    ensures
        r == vendor_device(s@),
{
    let n: usize = s.unicode_len();
    let colon: usize = find_colon(s, 0);
    assert(s@.skip(0) =~= s@);
    if colon == n {
        return None;
    }
    let vendor: &str = s.substring_char(0, colon);
    let end: usize = find_colon(s, colon + 1);
    let device: &str = s.substring_char(colon + 1, end);
    match parse_unsigned(vendor, 16, 0xffff) {
        None => None,
        Some(vendor_id) => match parse_unsigned(device, 16, 0xffff) {
            None => None,
            Some(device_id) => Some((vendor_id as u16, device_id as u16)),
        },
    }
}

pub open spec fn model_option(d: Option<Directive>) -> Option<DirectiveModel> {
    match d {
        None => None,
        Some(d) => Some(d@),
    }
}

/// The directive that the words of a line give.
fn parse_directive(parts: &Vec<&str>) -> (r: Option<Directive>)
    ensures
        model_option(r) == directive_of(texts(parts@)),
{
    let n: usize = parts.len();
    if n == 0 {
        return None;
    }
    let name: &str = parts[0];
    if same_text(name, "driver") {
        if n < 2 {
            return None;
        }
        return Some(Directive::Driver(parts[1].to_owned()));
    }
    if same_text(name, "isa") {
        if n < 3 {
            return None;
        }
        return match parse_unsigned(parts[2], 10, 255) {
            None => None,
            Some(irq) => Some(Directive::Isa { path: parts[1].to_owned(), irq: irq as u8 }),
        };
    }
    if same_text(name, "pci") {
        if n < 3 {
            return None;
        }
        let busmaster: bool = n > 3 && same_text(parts[3], "busmaster");
        return match parse_vendor_device(parts[1]) {
            None => None,
            Some((vendor_id, device_id)) => Some(
                Directive::Pci { vendor_id, device_id, path: parts[2].to_owned(), busmaster },
            ),
        };
    }
    if same_text(name, "mount") {
        if n < 4 {
            return None;
        }
        return Some(
            Directive::Mount {
                drive_letter: parts[1].to_owned(),
                fs_type: parts[2].to_owned(),
                device: parts[3].to_owned(),
            },
        );
    }
    if same_text(name, "graphics") {
        if n < 2 {
            return None;
        }
        return Some(Directive::Graphics(parts[1].to_owned()));
    }
    if same_text(name, "console") {
        return Some(Directive::Console);
    }
    if same_text(name, "net") {
        return Some(Directive::Net);
    }
    if same_text(name, "timezone") {
        if n < 2 {
            return None;
        }
        return match parse_i32(parts[1]) {
            None => None,
            Some(offset) => Some(Directive::Timezone(offset)),
        };
    }
    None
}

/// The directive on a line.
fn parse_line(line: &str) -> (r: Option<Directive>)
    ensures
        model_option(r) == line_directive(line@),
{
    let parts: Vec<&str> = split_whitespace(line);
    if parts.len() > 0 {
        let first: &str = parts[0];
        assert(words(line@)[0] == first@);
        if first.unicode_len() > 0 && first.get_char(0) == '#' {
            return None;
        }
    }
    parse_directive(&parts)
}

/// The lines up to a position: those that have ended, and the current one.
proof fn lemma_lines(s: Seq<char>, start: int, i: int)
    requires
        0 <= start <= i <= s.len(),
        start == 0 || s[start - 1] == '\n',
        forall|k: int| start <= k < i ==> #[trigger] s[k] != '\n',
    ensures
        lines(s.subrange(0, i)) == (if start == 0 {
            seq![s.subrange(start, i)]
        } else {
            lines(s.subrange(0, start - 1)).push(s.subrange(start, i))
        }),
    decreases i,
{
    let t = s.subrange(0, i);
    if i == start {
        assert(s.subrange(start, i) =~= Seq::empty());
        if start > 0 {
            assert(t.drop_last() =~= s.subrange(0, start - 1));
            assert(t.last() == '\n');
        }
    } else {
        lemma_lines(s, start, i - 1);
        assert(t.drop_last() =~= s.subrange(0, i - 1));
        assert(t.last() == s[i - 1]);
        let rest = lines(t.drop_last());
        assert(rest.last() == s.subrange(start, i - 1));
        assert(rest.last().push(t.last()) =~= s.subrange(start, i));
        if start == 0 {
            assert(rest.drop_last() =~= Seq::empty());
        } else {
            assert(rest.drop_last() =~= lines(s.subrange(0, start - 1)));
        }
    }
}

/// The lines of a text: what lies between its line feeds, empty lines too.
pub fn split_lines<'a>(text: &'a str) -> (r: Vec<&'a str>)
    ensures
        texts(r@) == lines(text@),
{
    let chars: Vec<char> = char_list(text);
    let n: usize = chars.len();
    let mut found: Vec<&'a str> = Vec::new();
    let mut start: usize = 0;
    let mut i: usize = 0;
    assert(texts(found@) =~= Seq::empty());
    while i < n
        invariant
            chars@ == text@,
            n == text@.len(),
            start <= i <= n,
            start == 0 || text@[start - 1] == '\n',
            forall|k: int| start <= k < i ==> #[trigger] text@[k] != '\n',
            texts(found@) == (if start == 0 {
                Seq::empty()
            } else {
                lines(text@.subrange(0, start - 1))
            }),
        decreases n - i,
    {
        if chars[i] == '\n' {
            proof { lemma_lines(text@, start as int, i as int); }
            let ghost before = texts(found@);
            found.push(text.substring_char(start, i));
            assert(texts(found@) =~= before.push(text@.subrange(start as int, i as int)));
            start = i + 1;
        }
        i += 1;
    }
    proof { lemma_lines(text@, start as int, n as int); }
    let ghost before = texts(found@);
    found.push(text.substring_char(start, n));
    assert(texts(found@) =~= before.push(text@.subrange(start as int, n as int)));
    assert(text@.subrange(0, n as int) =~= text@);
    found
}

/// Read the directives of a configuration file.
pub fn parse_config(text: &str) -> (r: Vec<Directive>)
    ensures
        directives_model(r@) == config(text@),
{
    let ls: Vec<&str> = split_lines(text);
    let ghost all = lines(text@);
    let mut found: Vec<Directive> = Vec::new();
    let mut i: usize = 0;
    assert(directives_model(found@) =~= directives(all.take(0)));
    while i < ls.len()
        invariant
            i <= ls@.len(),
            texts(ls@) == all,
            directives_model(found@) == directives(all.take(i as int)),
        decreases ls@.len() - i,
    {
        let ghost before = directives_model(found@);
        proof {
            assert(all.take(i + 1).drop_last() =~= all.take(i as int));
            assert(all.take(i + 1).last() == ls@[i as int]@);
        }
        if let Some(d) = parse_line(ls[i]) {
            found.push(d);
            assert(directives_model(found@) =~= before.push(d@));
        }
        i += 1;
    }
    assert(all.take(i as int) =~= all);
    found
}

/// The directives in the bytes of a configuration file: none where the bytes are no
/// text.
pub fn read_config(contents: &[u8]) -> (r: Vec<Directive>)
    ensures
        !vstd::utf8::valid_utf8(contents@) ==> r@.len() == 0,
        forall|s: Seq<char>| contents@ == #[trigger] vstd::utf8::encode_utf8(s)
            ==> directives_model(r@) == config(s),
{
    match decode_utf8(contents) {
        None => {
            proof {
                assert forall|s: Seq<char>| contents@ != #[trigger] vstd::utf8::encode_utf8(s) by {
                    vstd::utf8::encode_utf8_valid_utf8(s);
                }
            }
            Vec::new()
        },
        Some(text) => {
            proof {
                assert forall|s: Seq<char>|
                    contents@ == #[trigger] vstd::utf8::encode_utf8(s) implies s == text@ by {
                    vstd::utf8::encode_utf8_decode_utf8(s);
                    vstd::utf8::encode_utf8_decode_utf8(text@);
                }
            }
            parse_config(text)
        },
    }
}

/// Take one chunk of the file. False once it has ended, or could not be read.
pub fn config_chunk(contents: &mut Vec<u8>, buffer: &[u8], result: Result<u32, IoError>) -> (r: bool)
    requires
        result matches Ok(n) ==> n <= buffer@.len(),
    ensures
        r == (result matches Ok(n) && n != 0),
        final(contents)@ == old(contents)@ + (match result {
            Ok(n) => buffer@.subrange(0, n as int),
            Err(_) => Seq::empty(),
        }),
{
    match result {
        Err(_) => {
            assert(contents@ =~= old(contents)@ + Seq::<u8>::empty());
            false
        },
        Ok(n) => {
            let chunk: &[u8] = vstd::slice::slice_subrange(buffer, 0, n as usize);
            crate::text::push_bytes(contents, chunk);
            n != 0
        },
    }
}

/// A line of a configuration file may be put anywhere: what the lines before and
/// after it mean does not change.
pub proof fn lines_stand_alone(a: Seq<Seq<char>>, b: Seq<Seq<char>>)
    ensures
        directives(a + b) == directives(a) + directives(b),
    decreases b.len(),
{
    if b.len() == 0 {
        assert(a + b =~= a);
        assert(directives(a) + directives(b) =~= directives(a));
    } else {
        lines_stand_alone(a, b.drop_last());
        assert((a + b).drop_last() =~= a + b.drop_last());
        assert((a + b).last() == b.last());
        match line_directive(b.last()) {
            None => {},
            Some(d) => {
                assert(directives(a) + directives(b.drop_last()).push(d)
                    =~= (directives(a) + directives(b.drop_last())).push(d));
            },
        }
    }
}

} // verus!
