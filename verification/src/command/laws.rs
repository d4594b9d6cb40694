//! What holds of the commands of the interpreter.
use vstd::prelude::*;

use crate::api::io::{IoError, IoResult};
use crate::command::external::{attempts, AttemptModel};
use crate::command::files::{
    after_copying, after_deleting, after_renaming, chunk_at, copy_next, shown_next, CopyAction,
    CopyError, CopyState, MoveStep, ShowStep,
};
use crate::command::listing::{
    concat, is_report, is_row, row, row_is_determined, spaces, summary, DirEntryModel,
};
use crate::command::output::{
    ansi_color, cd_steps, color_text, hex_value, joined, parts_steps, path_parts, CdModel,
};
use crate::text::{decimal, text};
use crate::time::date::DateTime;

verus! {

/// What is printed of a file from an offset on, where no read fails.
pub open spec fn shown(file: Seq<u8>, offset: int) -> Seq<u8>
    decreases file.len() - offset,
{
    let chunk = chunk_at(file, offset);
    match shown_next(offset as u32, Ok(chunk.len() as u32)) {
        ShowStep::PrintAndRead(n, next) => if offset < next <= file.len() && n <= chunk.len() {
            chunk.take(n as int) + shown(file, next as int)
        } else {
            Seq::empty()
        },
        ShowStep::PrintAndStop(n) => chunk.take(n as int),
        ShowStep::Fail => Seq::empty(),
    }
}

/// A file that is shown is printed whole, every byte once and in order.
pub proof fn files_are_shown_whole(file: Seq<u8>, offset: int)
    requires
        0 <= offset <= file.len() <= 0xffff_0000,
    ensures
        shown(file, offset) == file.skip(offset),
    decreases file.len() - offset,
{
    let chunk = chunk_at(file, offset);
    assert(chunk.take(chunk.len() as int) =~= chunk);
    if chunk.len() == 0x1000 {
        files_are_shown_whole(file, offset + 0x1000);
        assert(chunk + file.skip(offset + 0x1000) =~= file.skip(offset));
    } else {
        assert(chunk =~= file.skip(offset));
    }
}

/// A failed read ends what is shown, with a message.
pub proof fn failed_reads_are_told(offset: u32, e: IoError)
    ensures
        shown_next(offset, Err(e)) == ShowStep::Fail,
{
}

/// A copy that fails stops there and says where: at the source, the destination, a read or a
/// write. It tells no number of bytes.
pub proof fn failed_copies_say_where(state: CopyState, e: IoError)
    requires
        !(state is Finished),
    ensures
        copy_next(state, Err(e)).0 == CopyState::Finished(None),
        copy_next(state, Err(e)).1 == CopyAction::Fail(match state {
            CopyState::OpeningSource => CopyError::Source,
            CopyState::CreatingDest => CopyError::Dest,
            CopyState::Reading(_) => CopyError::Read,
            _ => CopyError::Write,
        }),
{
}

/// The last step of a move, and whether its source was asked to be deleted.
pub open spec fn moved(rename: IoResult, copied: Option<u32>, deleted: IoResult) -> (MoveStep, bool) {
    match after_renaming(rename) {
        MoveStep::Copy => match after_copying(copied) {
            MoveStep::Delete => (after_deleting(deleted), true),
            step => (step, false),
        },
        MoveStep::Delete => (after_deleting(deleted), true),
        step => (step, false),
    }
}

/// A file moves by being renamed, and between drives by being copied and then deleted. Its source
/// is deleted only after all of it was copied, and only where it could not be renamed. The move is
/// told as done only where one of both came to its end.
pub proof fn moves_lose_no_file(rename: IoResult, copied: Option<u32>, deleted: IoResult)
    ensures
        ({
            let (step, gone) = moved(rename, copied, deleted);
            let across = rename == IoResult::Err(IoError::CrossDeviceLink);
            &&& gone == (across && copied is Some)
            &&& (step == MoveStep::Moved) == (rename is Ok || (gone && deleted is Ok))
            &&& (step == MoveStep::NotDeleted) == (gone && deleted is Err)
            &&& (step == MoveStep::NotFound) == (rename == IoResult::Err(IoError::NotFound))
            &&& (step == MoveStep::Stop) == (across && copied is None)
            &&& (step == MoveStep::Failed) == (rename is Err && !across && rename != IoResult::Err(
                IoError::NotFound,
            ))
        }),
{
}

/// Words are joined by one space: between them, not before the first nor behind the last.
pub proof fn words_are_joined_by_spaces(words: Seq<Seq<u8>>, word: Seq<u8>)
    ensures
        joined(seq![word]) == word,
        words.len() > 0 ==> joined(words.push(word)) == joined(words) + seq![0x20u8] + word,
        joined(Seq::empty()) == Seq::<u8>::empty(),
{
    if words.len() > 0 {
        assert(words.push(word).drop_last() =~= words);
    }
}

/// A part of a path holds no backslash.
pub open spec fn one_part(s: Seq<u8>) -> bool {
    forall|i: int| 0 <= i < s.len() ==> #[trigger] s[i] != 0x5C
}

/// Backslashes part a path.
pub proof fn backslashes_part_a_path(front: Seq<u8>, part: Seq<u8>)
    requires
        one_part(part),
    ensures
        path_parts(part) == seq![part],
        path_parts(front + seq![0x5Cu8] + part) == path_parts(front).push(part),
    decreases part.len(),
{
    let s = front + seq![0x5Cu8] + part;
    if part.len() == 0 {
        assert(part =~= Seq::empty());
        assert(s.drop_last() =~= front);
        assert(s.last() == 0x5C);
        assert(path_parts(part) =~= seq![part]);
        assert(path_parts(s) =~= path_parts(front).push(part));
    } else {
        let short = part.drop_last();
        assert(one_part(short)) by {
            assert forall|i: int| 0 <= i < short.len() implies #[trigger] short[i] != 0x5C by {
                assert(part[i] != 0x5C);
            }
        }
        assert(part[part.len() - 1] != 0x5C);
        backslashes_part_a_path(front, short);
        assert(s.drop_last() =~= front + seq![0x5Cu8] + short);
        assert(s.last() == part.last());
        assert(short.push(part.last()) =~= part);
        assert(path_parts(part) =~= seq![part]);
        assert(path_parts(s) =~= path_parts(front).push(part));
    }
}

/// The directory after a step of CD, as the names on the way to it.
pub open spec fn stepped(dir: Seq<Seq<u8>>, step: CdModel) -> Seq<Seq<u8>> {
    match step {
        CdModel::Pop => if dir.len() == 0 { dir } else { dir.drop_last() },
        CdModel::Push(name) => dir.push(name),
        CdModel::ResetDrive(_) => Seq::empty(),
        CdModel::PopToRoot => Seq::empty(),
    }
}

/// The directory after some steps, one after another.
pub open spec fn all_stepped(dir: Seq<Seq<u8>>, steps: Seq<CdModel>) -> Seq<Seq<u8>>
    decreases steps.len(),
{
    if steps.len() == 0 { dir } else { stepped(all_stepped(dir, steps.drop_last()), steps.last()) }
}

proof fn lemma_steps_join(dir: Seq<Seq<u8>>, a: Seq<CdModel>, b: Seq<CdModel>)
    ensures
        all_stepped(dir, a + b) == all_stepped(all_stepped(dir, a), b),
    decreases b.len(),
{
    if b.len() == 0 {
        assert(a + b =~= a);
    } else {
        lemma_steps_join(dir, a, b.drop_last());
        assert((a + b).drop_last() =~= a + b.drop_last());
        assert((a + b).last() == b.last());
    }
}

/// The directory that a relative path leads to.
pub open spec fn led_to(dir: Seq<Seq<u8>>, path: Seq<u8>) -> Seq<Seq<u8>> {
    all_stepped(dir, parts_steps(path_parts(path)))
}

/// A relative path is followed part by part: a name goes into the directory of that name, two dots
/// to the one above, one dot nowhere. A path with one part more goes one step further.
pub proof fn relative_paths_are_followed(dir: Seq<Seq<u8>>, front: Seq<u8>, part: Seq<u8>)
    requires
        one_part(part),
    ensures
        ({
            let to = |from: Seq<Seq<u8>>|
                if part == seq![0x2Eu8] {
                    from
                } else if part == seq![0x2Eu8, 0x2Eu8] {
                    if from.len() == 0 { from } else { from.drop_last() }
                } else {
                    from.push(part)
                };
            &&& led_to(dir, part) == to(dir)
            &&& led_to(dir, front + seq![0x5Cu8] + part) == to(led_to(dir, front))
        }),
{
    reveal_with_fuel(all_stepped, 3);
    reveal_with_fuel(parts_steps, 3);
    backslashes_part_a_path(front, part);
    let parts = path_parts(front);
    assert(parts.push(part).drop_last() =~= parts);
    assert(seq![part].drop_last() =~= Seq::empty());
    let steps = crate::command::output::part_steps(part);
    assert(parts_steps(seq![part]) =~= steps);
    lemma_steps_join(dir, parts_steps(parts), steps);
    assert(forall|d: Seq<Seq<u8>>|
        steps.len() == 1 ==> #[trigger] all_stepped(d, steps) == stepped(d, steps[0])) by {
        assert(steps.len() == 1 ==> steps.drop_last() =~= Seq::empty());
    }
}

/// CD by itself goes to the root, and with the name of a drive to that drive. Any other path that
/// does not begin with a backslash is relative.
pub proof fn directories_are_changed_as_told(path: Seq<u8>)
    requires
        path.len() > 0,
    ensures
        cd_steps(Seq::empty()) == seq![CdModel::PopToRoot],
        path.last() == 0x3A && (forall|i: int|
            0 <= i < path.len() - 1 ==> 0x41 <= #[trigger] path[i] <= 0x5A || 0x61 <= path[i] <= 0x7A)
            ==> cd_steps(seq![path]) == seq![CdModel::ResetDrive(path)],
        path[0] != 0x5C && path.last() != 0x3A ==> cd_steps(seq![path]) == parts_steps(
            path_parts(path),
        ),
{
    assert(seq![path][0] == path);
    if path.len() > 1 {
        assert(path[0] == path[0]);
    }
}

/// The value of a digit with that value, in either case, is read back.
pub proof fn hex_digits_are_read(v: u8)
    requires
        v < 16,
    ensures
        v < 10 ==> hex_value((0x30 + v) as u8) == Some(v),
        v >= 10 ==> hex_value((0x41 + v - 10) as u8) == Some(v) && hex_value((0x61 + v - 10) as u8)
            == Some(v),
{
}

/// COLOR takes the background from the first digit and the foreground from the second. Colours from
/// eight on are bright. Terminals count with red first: the bits for red and blue change places.
pub proof fn colours_are_set_as_told(arg: Seq<u8>, b: u8, f: u8)
    requires
        arg.len() == 2,
        hex_value(arg[0]) == Some(b),
        hex_value(arg[1]) == Some(f),
        b != f,
    ensures
        color_text(seq![arg]) == text("\x1b[0m") + seq![
            0x1Bu8, 0x5B, if f >= 8 { 0x39u8 } else { 0x33u8 },
            (0x30 + f as int / 4 % 2 + f as int / 2 % 2 * 2 + f as int % 2 * 4) as u8, 0x6D,
        ] + (if b >= 8 { seq![0x1Bu8, 0x5B, 0x31, 0x30] } else { seq![0x1Bu8, 0x5B, 0x34] }) + seq![
            (0x30 + b as int / 4 % 2 + b as int / 2 % 2 * 2 + b as int % 2 * 4) as u8, 0x6Du8,
        ] + text("\x1b[2J\x1b[H"),
        ansi_color(f as int) == f as int / 4 % 2 + f as int / 2 % 2 * 2 + f as int % 2 * 4,
{
    assert(seq![arg][0] == arg);
    assert(color_text(seq![arg]) =~= text("\x1b[0m") + seq![
        0x1Bu8, 0x5B, if f >= 8 { 0x39u8 } else { 0x33u8 },
        (0x30 + f as int / 4 % 2 + f as int / 2 % 2 * 2 + f as int % 2 * 4) as u8, 0x6D,
    ] + (if b >= 8 { seq![0x1Bu8, 0x5B, 0x31, 0x30] } else { seq![0x1Bu8, 0x5B, 0x34] }) + seq![
        (0x30 + b as int / 4 % 2 + b as int / 2 % 2 * 2 + b as int % 2 * 4) as u8, 0x6Du8,
    ] + text("\x1b[2J\x1b[H"));
}

/// A name without a dot is tried as it is first, then as a program and last as a batch file, with
/// their endings. A name with a dot is tried alone: as a batch file where its path ends like one, in
/// letters of either case, and else as a program.
pub proof fn programs_are_looked_for(name: Seq<u8>, path: Seq<u8>)
    ensures
        !name.contains(0x2E) ==> attempts(name, path) == seq![
            AttemptModel::Program(name), AttemptModel::Program(name + text(".ELF")),
            AttemptModel::Batch(name + text(".BAT")),
        ],
        name.contains(0x2E) && path.len() >= 4 && path[path.len() - 4] == 0x2E && (path[path.len() - 3]
            == 0x42 || path[path.len() - 3] == 0x62) && (path[path.len() - 2] == 0x41 || path[path.len()
            - 2] == 0x61) && (path.last() == 0x54 || path.last() == 0x74) ==> attempts(name, path)
            == seq![AttemptModel::Batch(name)],
        name.contains(0x2E) && (path.len() < 4 || path[path.len() - 4] != 0x2E || (path.last() != 0x54
            && path.last() != 0x74)) ==> attempts(name, path) == seq![AttemptModel::Program(name)],
{
    reveal_strlit(".BAT");
    let bat = text(".BAT");
    vstd::utf8::is_ascii_chars_encode_utf8(".BAT"@);
    assert(bat.len() == 4);
    assert(bat[0] == 0x2E && bat[1] == 0x42 && bat[2] == 0x41 && bat[3] == 0x54);
    let at = path.len() - 4;
    if path.len() >= 4 {
        assert(path[at] == path[path.len() - bat.len() + 0]);
        assert(path[at + 1] == path[path.len() - bat.len() + 1]);
        assert(path[at + 2] == path[path.len() - bat.len() + 2]);
        assert(path[at + 3] == path[path.len() - bat.len() + 3]);
    }
    if name.contains(0x2E) {
        let i = choose|i: int| 0 <= i < name.len() && name[i] == 0x2E;
        assert(name[i] == 0x2E);
        assert(crate::command::external::dotted(name));
    }
}

/// A row of a listing has the name first, then, from the fourteenth place on, how many bytes there
/// are, to the right of nine places, or that it is a directory, then the date and the time, and ends
/// its line.
pub proof fn rows_have_columns(entry: DirEntryModel, when: DateTime)
    requires
        entry.name.len() <= 13,
        decimal(entry.size as nat).len() <= 9,
    ensures
        ({
            let r = row(entry, when);
            let size = decimal(entry.size as nat);
            &&& r.len() >= 23
            &&& r.take(entry.name.len() as int) == entry.name
            &&& forall|i: int| entry.name.len() <= i < 13 ==> #[trigger] r[i] == 0x20
            &&& entry.is_dir ==> r.subrange(13, 23) == text("<DIR>     ")
            &&& !entry.is_dir ==> r.subrange(22 - size.len(), 22) == size && r[22] == 0x20
                && forall|i: int| 13 <= i < 22 - size.len() ==> #[trigger] r[i] == 0x20
            &&& r.skip(23) == when.date.text() + seq![0x20u8] + when.time.text() + seq![0x0Au8]
        }),
{
    reveal_strlit("<DIR>     ");
    vstd::utf8::is_ascii_chars_encode_utf8("<DIR>     "@);
    let r = row(entry, when);
    let size = decimal(entry.size as nat);
    let rest = when.date.text() + seq![0x20u8] + when.time.text() + seq![0x0Au8];
    let middle = if entry.is_dir {
        text("<DIR>     ")
    } else {
        spaces(9 - size.len()) + size + seq![0x20u8]
    };
    let head = entry.name + spaces(13 - entry.name.len());
    assert(r =~= head + middle + rest);
    assert(middle.len() == 10);
    assert(r.take(entry.name.len() as int) =~= entry.name);
    assert(r.skip(23) =~= rest);
    if entry.is_dir {
        assert(r.subrange(13, 23) =~= text("<DIR>     "));
    } else {
        assert(r.subrange(22 - size.len(), 22) =~= size);
    }
}

proof fn lemma_same_rows(entries: Seq<DirEntryModel>, a: Seq<Seq<u8>>, b: Seq<Seq<u8>>)
    requires
        a.len() == entries.len(),
        b.len() == entries.len(),
        forall|k: int| 0 <= k < a.len() ==> is_row(entries[k], #[trigger] a[k]),
        forall|k: int| 0 <= k < b.len() ==> is_row(entries[k], #[trigger] b[k]),
    ensures
        a == b,
{
    assert forall|k: int| 0 <= k < a.len() implies a[k] == b[k] by {
        row_is_determined(entries[k], a[k], b[k]);
    }
    assert(a =~= b);
}

/// A listing has a row for each entry, in their order, and the number of entries behind them.
pub proof fn listings_have_a_row_each(
    entries: Seq<DirEntryModel>, e: DirEntryModel, less: Seq<u8>, all: Seq<u8>, r: Seq<u8>,
)
    requires
        is_report(entries, less),
        is_report(entries.push(e), all),
        is_row(e, r),
    ensures
        less.len() >= summary(entries.len()).len(),
        less.skip(less.len() - summary(entries.len()).len()) == summary(entries.len()),
        all == less.subrange(0, less.len() - summary(entries.len()).len()) + r + summary(
            entries.len() + 1,
        ),
{
    let a = choose|rows: Seq<Seq<u8>>|
        #![trigger concat(rows)]
        rows.len() == entries.len() && (forall|k: int|
            0 <= k < rows.len() ==> is_row(entries[k], #[trigger] rows[k])) && less == concat(rows)
            + summary(entries.len());
    let more = entries.push(e);
    let b = choose|rows: Seq<Seq<u8>>|
        #![trigger concat(rows)]
        rows.len() == more.len() && (forall|k: int|
            0 <= k < rows.len() ==> is_row(more[k], #[trigger] rows[k])) && all == concat(rows)
            + summary(more.len());
    let head = b.drop_last();
    assert forall|k: int| 0 <= k < head.len() implies is_row(entries[k], #[trigger] head[k]) by {
        assert(head[k] == b[k]);
        assert(is_row(more[k], b[k]));
    }
    lemma_same_rows(entries, a, head);
    assert(is_row(more[entries.len() as int], b[entries.len() as int]));
    row_is_determined(e, b.last(), r);
    assert(less.subrange(0, less.len() - summary(entries.len()).len()) =~= concat(a));
    assert(less.skip(less.len() - summary(entries.len()).len()) =~= summary(entries.len()));
}

} // verus!
