//! What the commands without files print.
use vstd::prelude::*;

use crate::bytes::truncated;
use crate::text::{push_bytes, push_text, sub_bytes, text};

verus! {

/// The contents of a list of byte strings.
pub open spec fn contents(args: Seq<Vec<u8>>) -> Seq<Seq<u8>> {
    Seq::new(args.len(), |i: int| args[i]@)
}

/// Words with one space between each two.
pub open spec fn joined(args: Seq<Seq<u8>>) -> Seq<u8>
    decreases args.len(),
{
    if args.len() == 0 {
        Seq::empty()
    } else if args.len() == 1 {
        args[0]
    } else {
        joined(args.drop_last()) + seq![0x20u8] + args.last()
    }
}

/// The words from `from` on, joined and cut at `limit` bytes.
pub fn rejoin(args: &Vec<Vec<u8>>, from: usize, limit: usize) -> (r: Vec<u8>)
    requires
        from <= args@.len(),
    ensures
        r@ == truncated(joined(contents(args@).skip(from as int)), limit as int),
{
    let mut out: Vec<u8> = Vec::new();
    let mut i: usize = from;
    let ghost words = contents(args@).skip(from as int);
    assert(words.subrange(0, 0) =~= Seq::empty());
    while i < args.len()
        invariant
            from <= i <= args@.len(),
            words == contents(args@).skip(from as int),
            out@ == truncated(joined(words.subrange(0, i - from)), limit as int),
        decreases args@.len() - i,
    {
        let ghost k = i - from;
        let ghost before = joined(words.subrange(0, k));
        assert(words.subrange(0, k + 1).drop_last() =~= words.subrange(0, k));
        assert(words.subrange(0, k + 1).last() == args@[i as int]@);
        if i > from && out.len() < limit {
            out.push(0x20);
        }
        let bytes: &[u8] = args[i].as_slice();
        let room: usize = limit - out.len();
        let n: usize = if bytes.len() < room { bytes.len() } else { room };
        push_bytes(&mut out, vstd::slice::slice_subrange(bytes, 0, n));
        i += 1;
        assert(out@ =~= truncated(joined(words.subrange(0, k + 1)), limit as int));
    }
    assert(words.subrange(0, args@.len() - from) =~= words);
    out
}

/// The line that ECHO prints: its words, and a line feed where it fits.
pub fn echo(args: &Vec<Vec<u8>>) -> (r: Vec<u8>)
    ensures
        args@.len() == 0 ==> r@ == seq![0x0Au8],
        args@.len() > 0 ==> r@ == truncated(joined(contents(args@)).push(0x0A), 256),
{
    let mut out: Vec<u8> = rejoin(args, 0, 256);
    assert(contents(args@).skip(0) =~= contents(args@));
    if args.len() == 0 {
        return vec![0x0A];
    }
    if out.len() < 256 {
        out.push(0x0A);
    }
    assert(out@ =~= truncated(joined(contents(args@)).push(0x0A), 256));
    out
}

/// The prompt format that PROMPT sets. Without words it is the default.
pub fn prompt(args: &Vec<Vec<u8>>) -> (r: Vec<u8>)
    ensures
        args@.len() == 0 ==> r@ == text("$P$G"),
        args@.len() > 0 ==> r@ == truncated(joined(contents(args@)), 128),
{
    if args.len() == 0 {
        let mut out: Vec<u8> = Vec::new();
        push_text(&mut out, "$P$G");
        assert(out@ =~= text("$P$G"));
        return out;
    }
    assert(contents(args@).skip(0) =~= contents(args@));
    rejoin(args, 0, 128)
}

/// The text that APPEND writes.
pub fn append_text(args: &Vec<Vec<u8>>) -> (r: Vec<u8>)
    requires
        args@.len() >= 1,
    ensures
        r@ == truncated(joined(contents(args@).skip(1)), 256),
{
    rejoin(args, 1, 256)
}

/// The value of a hexadecimal digit.
pub open spec fn hex_value(ch: u8) -> Option<u8> {
    if 0x30 <= ch <= 0x39 {
        Some((ch - 0x30) as u8)
    } else if 0x41 <= ch <= 0x46 {
        Some((ch - 0x41 + 10) as u8)
    } else if 0x61 <= ch <= 0x66 {
        Some((ch - 0x61 + 10) as u8)
    } else {
        None
    }
}

pub fn hex_digit(ch: u8) -> (r: Option<u8>)
    ensures
        r == hex_value(ch),
{
    if ch >= 0x30 && ch <= 0x39 {
        Some(ch - 0x30)
    } else if ch >= 0x41 && ch <= 0x46 {
        Some(ch - 0x41 + 10)
    } else if ch >= 0x61 && ch <= 0x66 {
        Some(ch - 0x61 + 10)
    } else {
        None
    }
}

/// Terminals count colors with red first, the palette of the screen with blue first.
pub open spec fn ansi_color(cga: int) -> int {
    let blue = cga % 2;
    let green = cga / 2 % 2;
    let red = cga / 4 % 2;
    red + 2 * green + 4 * blue
}

fn to_ansi_color(cga: u8) -> (r: u8)
    ensures
        r == ansi_color(cga as int),
        r < 8,
{
    cga / 4 % 2 + 2 * (cga / 2 % 2) + 4 * (cga % 2)
}

/// Turning a color over twice gives it back.
pub proof fn color_order_is_its_own_inverse(cga: int)
    requires
        0 <= cga < 8,
    ensures
        ansi_color(ansi_color(cga)) == cga,
{
}

/// The code for a foreground color: bright from 8 on.
pub open spec fn sgr_fg(cga: u8) -> Seq<u8> {
    seq![
        0x1Bu8, 0x5B, if cga >= 8 { 0x39u8 } else { 0x33u8 }, (0x30 + ansi_color(cga as int)) as u8,
        0x6D,
    ]
}

/// The code for a background color: bright from 8 on.
pub open spec fn sgr_bg(cga: u8) -> Seq<u8> {
    if cga >= 8 {
        seq![0x1Bu8, 0x5B, 0x31, 0x30, (0x30 + ansi_color(cga as int)) as u8, 0x6D]
    } else {
        seq![0x1Bu8, 0x5B, 0x34, (0x30 + ansi_color(cga as int)) as u8, 0x6D]
    }
}

/// Append the code for a foreground color.
pub fn write_sgr_fg(out: &mut Vec<u8>, cga: u8)
    ensures
        final(out)@ == old(out)@ + sgr_fg(cga),
{
    let base: u8 = to_ansi_color(cga);
    out.push(0x1B);
    out.push(0x5B);
    out.push(if cga >= 8 { 0x39 } else { 0x33 });
    out.push(0x30 + base);
    out.push(0x6D);
    assert(out@ =~= old(out)@ + sgr_fg(cga));
}

/// Append the code for a background color.
pub fn write_sgr_bg(out: &mut Vec<u8>, cga: u8)
    ensures
        final(out)@ == old(out)@ + sgr_bg(cga),
{
    let base: u8 = to_ansi_color(cga);
    out.push(0x1B);
    out.push(0x5B);
    if cga >= 8 {
        out.push(0x31);
        out.push(0x30);
    } else {
        out.push(0x34);
    }
    out.push(0x30 + base);
    out.push(0x6D);
    assert(out@ =~= old(out)@ + sgr_bg(cga));
}

pub const RESET_COLORS: &'static str = "\x1b[0m";
pub const CLEAR_SCREEN: &'static str = "\x1b[2J\x1b[H";
pub const COLOR_USAGE: &'static str = "Usage: COLOR [bg_fg]\n  Two hex digits (0-F): background, foreground\n  Example: COLOR 0A (green on black)\n";
pub const BAD_DIGIT: &'static str = "Invalid hex digit\n";
pub const SAME_COLORS: &'static str = "Foreground and background cannot be the same\n";

/// What COLOR prints.
pub open spec fn color_text(args: Seq<Seq<u8>>) -> Seq<u8> {
    if args.len() == 0 {
        text(RESET_COLORS) + text(CLEAR_SCREEN)
    } else if args[0].len() != 2 {
        text(COLOR_USAGE)
    } else {
        match (hex_value(args[0][0]), hex_value(args[0][1])) {
            (Some(bg), Some(fg)) => if bg == fg {
                text(SAME_COLORS)
            } else {
                text(RESET_COLORS) + sgr_fg(fg) + sgr_bg(bg) + text(CLEAR_SCREEN)
            },
            _ => text(BAD_DIGIT),
        }
    }
}

fn one_text(s: &str) -> (r: Vec<u8>)
    ensures
        r@ == text(s),
{
    let mut out: Vec<u8> = Vec::new();
    push_text(&mut out, s);
    assert(out@ =~= text(s));
    out
}

/// COLOR: set the colors by two hexadecimal digits, and clear the screen.
pub fn color(args: &Vec<Vec<u8>>) -> (r: Vec<u8>)
    ensures
        r@ == color_text(contents(args@)),
{
    if args.len() == 0 {
        let mut out: Vec<u8> = one_text(RESET_COLORS);
        push_text(&mut out, CLEAR_SCREEN);
        return out;
    }
    let arg: &Vec<u8> = &args[0];
    assert(contents(args@)[0] == arg@);
    if arg.len() != 2 {
        return one_text(COLOR_USAGE);
    }
    let bg: u8 = match hex_digit(arg[0]) {
        Some(v) => v,
        None => return one_text(BAD_DIGIT),
    };
    let fg: u8 = match hex_digit(arg[1]) {
        Some(v) => v,
        None => return one_text(BAD_DIGIT),
    };
    if fg == bg {
        return one_text(SAME_COLORS);
    }
    let mut out: Vec<u8> = one_text(RESET_COLORS);
    write_sgr_fg(&mut out, fg);
    write_sgr_bg(&mut out, bg);
    push_text(&mut out, CLEAR_SCREEN);
    out
}

/// CLS: clear the screen and go to its top left.
pub fn cls() -> (r: Vec<u8>)
    ensures
        r@ == text(CLEAR_SCREEN),
{
    one_text(CLEAR_SCREEN)
}

pub const HELP: &'static str = "APPEND <file> <text>  Append text to a file
CD/CHDIR [dir]        Change directory
CLS                   Clear the screen
COLOR [bg_fg]         Set console colors
COPY <src> <dest>     Copy a file
DEL/ERASE <file>      Delete a file
DIR [dir]             List directory contents
DRIVES                List available drives
ECHO [text]           Display a message
HELP                  Show this help
MKDIR/MD <dir>        Create a directory
MOVE <src> <dest>     Move a file (works across drives)
PROMPT [format]       Change the command prompt
REN/RENAME <old> <new>  Rename a file or directory
RMDIR/RD <dir>        Remove an empty directory
TYPE <file>           Display file contents
VER                   Display version info
";

/// HELP: a line for each command.
pub fn help() -> (r: Vec<u8>)
    ensures
        r@ == text(HELP),
{
    one_text(HELP)
}

/// What a part of a path asks of the working directory.
pub enum CdStep {
    Pop,
    Push(Vec<u8>),
    ResetDrive(Vec<u8>),
    PopToRoot,
}

/// The same, over sequences.
pub enum CdModel {
    Pop,
    Push(Seq<u8>),
    ResetDrive(Seq<u8>),
    PopToRoot,
}

impl View for CdStep {
    type V = CdModel;

    open spec fn view(&self) -> CdModel {
        match self {
            CdStep::Pop => CdModel::Pop,
            CdStep::Push(name) => CdModel::Push(name@),
            CdStep::ResetDrive(name) => CdModel::ResetDrive(name@),
            CdStep::PopToRoot => CdModel::PopToRoot,
        }
    }
}

pub open spec fn cd_models(v: Seq<CdStep>) -> Seq<CdModel> {
    Seq::new(v.len(), |i: int| v[i]@)
}

pub open spec fn is_letter(b: u8) -> bool {
    0x41 <= b <= 0x5A || 0x61 <= b <= 0x7A
}

/// Letters and a colon.
pub open spec fn drive_name(name: Seq<u8>) -> bool {
    name.len() > 0 && name.last() == 0x3A && forall|i: int|
        0 <= i < name.len() - 1 ==> is_letter(#[trigger] name[i])
}

/// Whether a name is that of a drive.
pub fn is_drive(name: &[u8]) -> (r: bool)
    requires
        name@.len() > 0,
    ensures
        r == drive_name(name@),
{
    let last: usize = name.len() - 1;
    let mut i: usize = 0;
    while i < last
        invariant
            i <= last == name@.len() - 1,
            forall|k: int| 0 <= k < i ==> is_letter(#[trigger] name@[k]),
        decreases last - i,
    {
        let b: u8 = name[i];
        if b < 0x41 || (b > 0x5A && b < 0x61) || b > 0x7A {
            assert(!is_letter(name@[i as int]));
            return false;
        }
        i += 1;
    }
    name[last] == 0x3A
}

/// What one part of a relative path does: nothing, one up, or one down.
pub open spec fn part_steps(part: Seq<u8>) -> Seq<CdModel> {
    if part == seq![0x2Eu8] {
        Seq::empty()
    } else if part == seq![0x2Eu8, 0x2E] {
        seq![CdModel::Pop]
    } else {
        seq![CdModel::Push(part)]
    }
}

/// The parts of a path, between backslashes.
pub open spec fn path_parts(path: Seq<u8>) -> Seq<Seq<u8>>
    decreases path.len(),
{
    if path.len() == 0 {
        seq![Seq::empty()]
    } else {
        let rest = path_parts(path.drop_last());
        if path.last() == 0x5C {
            rest.push(Seq::empty())
        } else {
            rest.drop_last().push(rest.last().push(path.last()))
        }
    }
}

/// What the parts of a relative path do, in order.
pub open spec fn parts_steps(parts: Seq<Seq<u8>>) -> Seq<CdModel>
    decreases parts.len(),
{
    if parts.len() == 0 {
        Seq::empty()
    } else {
        parts_steps(parts.drop_last()) + part_steps(parts.last())
    }
}

/// What CD does. Absolute paths are ignored.
pub open spec fn cd_steps(args: Seq<Seq<u8>>) -> Seq<CdModel> {
    if args.len() == 0 {
        seq![CdModel::PopToRoot]
    } else if args[0].len() > 0 && args[0][0] == 0x5C {
        Seq::empty()
    } else if drive_name(args[0]) {
        seq![CdModel::ResetDrive(args[0])]
    } else {
        parts_steps(path_parts(args[0]))
    }
}

proof fn lemma_path_parts(s: Seq<u8>, start: int, i: int)
    requires
        0 <= start <= i <= s.len(),
        start == 0 || s[start - 1] == 0x5C,
        forall|k: int| start <= k < i ==> #[trigger] s[k] != 0x5C,
    ensures
        path_parts(s.subrange(0, i)) == (if start == 0 {
            seq![s.subrange(start, i)]
        } else {
            path_parts(s.subrange(0, start - 1)).push(s.subrange(start, i))
        }),
    decreases i,
{
    let t = s.subrange(0, i);
    if i == start {
        assert(s.subrange(start, i) =~= Seq::empty());
        if start > 0 {
            assert(t.drop_last() =~= s.subrange(0, start - 1));
            assert(t.last() == 0x5C);
        }
    } else {
        lemma_path_parts(s, start, i - 1);
        assert(t.drop_last() =~= s.subrange(0, i - 1));
        assert(t.last() == s[i - 1]);
        let rest = path_parts(t.drop_last());
        assert(rest.last() == s.subrange(start, i - 1));
        assert(rest.last().push(t.last()) =~= s.subrange(start, i));
        if start == 0 {
            assert(rest.drop_last() =~= Seq::empty());
        } else {
            assert(rest.drop_last() =~= path_parts(s.subrange(0, start - 1)));
        }
    }
}

fn cd_part(part: &[u8], steps: &mut Vec<CdStep>)
    ensures
        cd_models(final(steps)@) == cd_models(old(steps)@) + part_steps(part@),
{
    let ghost before = cd_models(steps@);
    if part.len() == 1 && part[0] == 0x2E {
        assert(part@ =~= seq![0x2Eu8]);
        assert(before + part_steps(part@) =~= before);
    } else if part.len() == 2 && part[0] == 0x2E && part[1] == 0x2E {
        assert(part@ =~= seq![0x2Eu8, 0x2E]);
        steps.push(CdStep::Pop);
        assert(cd_models(steps@) =~= before + seq![CdModel::Pop]);
    } else {
        steps.push(CdStep::Push(sub_bytes(part, 0, part.len())));
        assert(part@.subrange(0, part@.len() as int) =~= part@);
        assert(cd_models(steps@) =~= before + seq![CdModel::Push(part@)]);
    }
}

/// CD: what becomes of the working directory.
pub fn cd(args: &Vec<Vec<u8>>) -> (r: Vec<CdStep>)
    requires
        args@.len() > 0 ==> args@[0]@.len() > 0,
    ensures
        cd_models(r@) == cd_steps(contents(args@)),
{
    let mut steps: Vec<CdStep> = Vec::new();
    if args.len() == 0 {
        steps.push(CdStep::PopToRoot);
        assert(cd_models(steps@) =~= seq![CdModel::PopToRoot]);
        return steps;
    }
    let arg: &[u8] = args[0].as_slice();
    assert(contents(args@)[0] == arg@);
    assert(cd_models(steps@) =~= Seq::empty());
    if arg[0] == 0x5C {
        return steps;
    }
    if is_drive(arg) {
        steps.push(CdStep::ResetDrive(sub_bytes(arg, 0, arg.len())));
        assert(arg@.subrange(0, arg@.len() as int) =~= arg@);
        assert(cd_models(steps@) =~= seq![CdModel::ResetDrive(arg@)]);
        return steps;
    }
    let n: usize = arg.len();
    let mut start: usize = 0;
    let mut i: usize = 0;
    while i < n
        invariant
            n == arg@.len(),
            start <= i <= n,
            start == 0 || arg@[start - 1] == 0x5C,
            forall|k: int| start <= k < i ==> #[trigger] arg@[k] != 0x5C,
            cd_models(steps@) == (if start == 0 {
                Seq::empty()
            } else {
                parts_steps(path_parts(arg@.subrange(0, start - 1)))
            }),
        decreases n - i,
    {
        if arg[i] == 0x5C {
            proof {
                lemma_path_parts(arg@, start as int, i as int);
                lemma_add_part(arg@, start as int, i as int);
            }
            cd_part(vstd::slice::slice_subrange(arg, start, i), &mut steps);
            start = i + 1;
        }
        i += 1;
    }
    proof {
        lemma_path_parts(arg@, start as int, n as int);
        lemma_add_part(arg@, start as int, n as int);
        assert(arg@.subrange(0, n as int) =~= arg@);
    }
    cd_part(vstd::slice::slice_subrange(arg, start, n), &mut steps);
    steps
}

proof fn lemma_add_part(s: Seq<u8>, start: int, i: int)
    requires
        0 <= start <= i <= s.len(),
        path_parts(s.subrange(0, i)) == (if start == 0 {
            seq![s.subrange(start, i)]
        } else {
            path_parts(s.subrange(0, start - 1)).push(s.subrange(start, i))
        }),
    ensures
        parts_steps(path_parts(s.subrange(0, i))) == (if start == 0 {
            Seq::empty()
        } else {
            parts_steps(path_parts(s.subrange(0, start - 1)))
        }) + part_steps(s.subrange(start, i)),
{
    let parts = path_parts(s.subrange(0, i));
    assert(parts.last() == s.subrange(start, i));
    if start == 0 {
        assert(parts.drop_last() =~= Seq::empty());
        assert(parts_steps(parts.drop_last()) =~= Seq::empty());
    } else {
        assert(parts.drop_last() =~= path_parts(s.subrange(0, start - 1)));
    }
}

} // verus!
