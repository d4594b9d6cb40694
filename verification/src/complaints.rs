//! What is said of a configuration file that is not as it should be.
use vstd::prelude::*;

use crate::api::io::IoError;
use crate::config::{
    line_directive, lines, parse_i32, parse_vendor_device, signed_number, split_lines,
    vendor_device,
};
use crate::log::lines_of;
use crate::text::{
    decode_utf8, parse_unsigned, push_text, same_text, split_whitespace, text, texts, trim,
    trimmed, unsigned_number, words,
};

verus! {

/// A message and the line that it is about.
pub open spec fn about(message: &str, line: Seq<char>) -> Seq<u8> {
    text(message) + vstd::utf8::encode_utf8(line)
}

/// A message, the word that is wrong, and the line.
pub open spec fn about_word(message: &str, word: Seq<char>, line: Seq<char>) -> Seq<u8> {
    text(message) + vstd::utf8::encode_utf8(word) + text("': ") + vstd::utf8::encode_utf8(line)
}

/// What is said of a line with its words, if anything.
pub open spec fn complaint_of(parts: Seq<Seq<char>>, line: Seq<char>) -> Option<Seq<u8>> {
    if parts.len() == 0 {
        None
    } else if parts[0] == "driver"@ {
        if parts.len() < 2 { Some(about("Config: 'driver' missing name: ", line)) } else { None }
    } else if parts[0] == "isa"@ {
        if parts.len() < 3 {
            Some(about("Config: 'isa' missing args: ", line))
        } else if unsigned_number(parts[2], 10, 255) is None {
            Some(about_word("Config: invalid IRQ '", parts[2], line))
        } else {
            None
        }
    } else if parts[0] == "pci"@ {
        if parts.len() < 3 {
            Some(about("Config: 'pci' missing args: ", line))
        } else if vendor_device(parts[1]) is None {
            Some(about_word("Config: invalid PCI ID '", parts[1], line))
        } else {
            None
        }
    } else if parts[0] == "mount"@ {
        if parts.len() < 4 { Some(about("Config: 'mount' missing args: ", line)) } else { None }
    } else if parts[0] == "graphics"@ {
        if parts.len() < 2 { Some(about("Config: 'graphics' missing path: ", line)) } else { None }
    } else if parts[0] == "console"@ || parts[0] == "net"@ {
        None
    } else if parts[0] == "timezone"@ {
        if parts.len() < 2 {
            Some(about("Config: 'timezone' missing offset: ", line))
        } else if signed_number(parts[1]) is None {
            Some(about_word("Config: invalid timezone offset '", parts[1], line))
        } else {
            None
        }
    } else {
        Some(about("Config: unknown directive: ", line))
    }
}

/// A line whose first word begins with `#`.
pub open spec fn is_comment(line: Seq<char>) -> bool {
    let parts = words(line);
    parts.len() > 0 && parts[0].len() > 0 && parts[0][0] == '#'
}

/// What is said of a line, if anything. The line is told without the white space around it.
pub open spec fn line_complaint(line: Seq<char>) -> Option<Seq<u8>> {
    if is_comment(line) { None } else { complaint_of(words(line), trimmed(line)) }
}

/// What is said of some lines, in order.
pub open spec fn complaints(ls: Seq<Seq<char>>) -> Seq<Seq<u8>>
    decreases ls.len(),
{
    if ls.len() == 0 {
        Seq::empty()
    } else {
        let rest = complaints(ls.drop_last());
        match line_complaint(ls.last()) {
            None => rest,
            Some(m) => rest.push(m),
        }
    }
}

fn say(message: &str, line: &str) -> (r: Vec<u8>)
    ensures
        r@ == about(message, line@),
{
    let mut out: Vec<u8> = Vec::new();
    push_text(&mut out, message);
    push_text(&mut out, line);
    assert(out@ =~= about(message, line@));
    out
}

fn say_word(message: &str, word: &str, line: &str) -> (r: Vec<u8>)
    ensures
        r@ == about_word(message, word@, line@),
{
    let mut out: Vec<u8> = Vec::new();
    push_text(&mut out, message);
    push_text(&mut out, word);
    push_text(&mut out, "': ");
    push_text(&mut out, line);
    assert(out@ =~= about_word(message, word@, line@));
    out
}

pub open spec fn bytes_option(m: Option<Vec<u8>>) -> Option<Seq<u8>> {
    match m {
        Some(v) => Some(v@),
        None => None,
    }
}

fn complain(parts: &Vec<&str>, line: &str) -> (r: Option<Vec<u8>>)
    ensures
        bytes_option(r) == complaint_of(texts(parts@), line@),
{
    let n: usize = parts.len();
    if n == 0 {
        return None;
    }
    let name: &str = parts[0];
    if same_text(name, "driver") {
        return if n < 2 { Some(say("Config: 'driver' missing name: ", line)) } else { None };
    }
    if same_text(name, "isa") {
        if n < 3 {
            return Some(say("Config: 'isa' missing args: ", line));
        }
        return match parse_unsigned(parts[2], 10, 255) {
            None => Some(say_word("Config: invalid IRQ '", parts[2], line)),
            Some(_) => None,
        };
    }
    if same_text(name, "pci") {
        if n < 3 {
            return Some(say("Config: 'pci' missing args: ", line));
        }
        return match parse_vendor_device(parts[1]) {
            None => Some(say_word("Config: invalid PCI ID '", parts[1], line)),
            Some(_) => None,
        };
    }
    if same_text(name, "mount") {
        return if n < 4 { Some(say("Config: 'mount' missing args: ", line)) } else { None };
    }
    if same_text(name, "graphics") {
        return if n < 2 { Some(say("Config: 'graphics' missing path: ", line)) } else { None };
    }
    if same_text(name, "console") || same_text(name, "net") {
        return None;
    }
    if same_text(name, "timezone") {
        if n < 2 {
            return Some(say("Config: 'timezone' missing offset: ", line));
        }
        return match parse_i32(parts[1]) {
            None => Some(say_word("Config: invalid timezone offset '", parts[1], line)),
            Some(_) => None,
        };
    }
    Some(say("Config: unknown directive: ", line))
}

/// What is said of a line: which directive it lacks something of, what is wrong in it, or
/// that it is none. Nothing is said of a directive, a comment or an empty line.
pub fn line_message(line: &str) -> (r: Option<Vec<u8>>)
    ensures
        bytes_option(r) == line_complaint(line@),
{
    let parts: Vec<&str> = split_whitespace(line);
    if parts.len() > 0 {
        let first: &str = parts[0];
        assert(words(line@)[0] == first@);
        if first.unicode_len() > 0 && first.get_char(0) == '#' {
            return None;
        }
    }
    complain(&parts, trim(line))
}

/// What is said of the lines of a configuration file, in order.
pub fn config_messages(contents: &str) -> (r: Vec<Vec<u8>>)
    ensures
        lines_of(r@) == complaints(lines(contents@)),
{
    let ls: Vec<&str> = split_lines(contents);
    let ghost all = lines(contents@);
    let mut found: Vec<Vec<u8>> = Vec::new();
    let mut i: usize = 0;
    assert(lines_of(found@) =~= complaints(all.take(0)));
    while i < ls.len()
        invariant
            i <= ls@.len(),
            texts(ls@) == all,
            lines_of(found@) == complaints(all.take(i as int)),
        decreases ls@.len() - i,
    {
        let ghost before = lines_of(found@);
        proof {
            assert(all.take(i + 1).drop_last() =~= all.take(i as int));
            assert(all.take(i + 1).last() == ls@[i as int]@);
        }
        if let Some(m) = line_message(ls[i]) {
            found.push(m);
            assert(lines_of(found@) =~= before.push(m@));
        }
        i += 1;
    }
    assert(all.take(i as int) =~= all);
    found
}

/// What is said of the bytes of the configuration file at a path.
pub fn read_messages(path: &str, contents: &[u8]) -> (r: Vec<Vec<u8>>)
    ensures
        !vstd::utf8::valid_utf8(contents@) ==> lines_of(r@) == seq![
            text(path) + text(" contains invalid UTF-8"),
        ],
        forall|s: Seq<char>| contents@ == #[trigger] vstd::utf8::encode_utf8(s) ==> lines_of(r@)
            == complaints(lines(s)),
{
    match decode_utf8(contents) {
        None => {
            proof {
                assert forall|s: Seq<char>| contents@ != #[trigger] vstd::utf8::encode_utf8(s) by {
                    vstd::utf8::encode_utf8_valid_utf8(s);
                }
            }
            let mut out: Vec<u8> = Vec::new();
            push_text(&mut out, path);
            push_text(&mut out, " contains invalid UTF-8");
            assert(out@ =~= text(path) + text(" contains invalid UTF-8"));
            let r: Vec<Vec<u8>> = vec![out];
            assert(lines_of(r@) =~= seq![text(path) + text(" contains invalid UTF-8")]);
            r
        },
        Some(decoded) => {
            proof {
                assert forall|s: Seq<char>|
                    contents@ == #[trigger] vstd::utf8::encode_utf8(s) implies s == decoded@ by {
                    vstd::utf8::encode_utf8_decode_utf8(s);
                    vstd::utf8::encode_utf8_decode_utf8(decoded@);
                }
            }
            config_messages(decoded)
        },
    }
}

/// The name of an error.
pub open spec fn error_name(e: IoError) -> &'static str {
    match e {
        IoError::NotFound => "NotFound",
        IoError::FileHandleInvalid => "FileHandleInvalid",
        IoError::FileHandleWrongType => "FileHandleWrongType",
        IoError::UnsupportedOperation => "UnsupportedOperation",
        IoError::UnsupportedCommand => "UnsupportedCommand",
        IoError::InvalidArgument => "InvalidArgument",
        IoError::OperationFailed => "OperationFailed",
        IoError::ResourceInUse => "ResourceInUse",
        IoError::ResourceLimitExceeded => "ResourceLimitExceeded",
        IoError::ReadError => "ReadError",
        IoError::WriteError => "WriteError",
        IoError::CrossDeviceLink => "CrossDeviceLink",
        IoError::FileSystemError => "FileSystemError",
        IoError::Unknown => "Unknown",
    }
}

fn name_of_error(e: IoError) -> (r: &'static str)
    ensures
        r@ == error_name(e)@,
{
    match e {
        IoError::NotFound => "NotFound",
        IoError::FileHandleInvalid => "FileHandleInvalid",
        IoError::FileHandleWrongType => "FileHandleWrongType",
        IoError::UnsupportedOperation => "UnsupportedOperation",
        IoError::UnsupportedCommand => "UnsupportedCommand",
        IoError::InvalidArgument => "InvalidArgument",
        IoError::OperationFailed => "OperationFailed",
        IoError::ResourceInUse => "ResourceInUse",
        IoError::ResourceLimitExceeded => "ResourceLimitExceeded",
        IoError::ReadError => "ReadError",
        IoError::WriteError => "WriteError",
        IoError::CrossDeviceLink => "CrossDeviceLink",
        IoError::FileSystemError => "FileSystemError",
        IoError::Unknown => "Unknown",
    }
}

/// What is said where the file cannot be opened.
pub fn open_failure(path: &str, error: IoError) -> (r: Vec<u8>)
    ensures
        r@ == text("Failed to open ") + text(path) + text(": ") + text(error_name(error)),
{
    let mut out: Vec<u8> = Vec::new();
    push_text(&mut out, "Failed to open ");
    push_text(&mut out, path);
    push_text(&mut out, ": ");
    push_text(&mut out, name_of_error(error));
    assert(out@ =~= text("Failed to open ") + text(path) + text(": ") + text(error_name(error)));
    out
}

/// A line with words that is no comment gives a directive or a message, never both and never
/// nothing. Other lines give neither.
pub proof fn no_line_is_passed_over(line: Seq<char>)
    ensures
        words(line).len() > 0 && !is_comment(line) ==> line_directive(line).is_some()
            != line_complaint(line).is_some(),
        words(line).len() == 0 || is_comment(line) ==> line_directive(line) is None
            && line_complaint(line) is None,
{
}

} // verus!
