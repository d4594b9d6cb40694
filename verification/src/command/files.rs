//! Commands on files: what they ask of the filesystem, step by step, and what they
//! print.
use vstd::prelude::*;

use crate::api::io::{IoError, IoResult};

use crate::text::{decimal, push_bytes, push_decimal, push_text, sub_bytes, text};

verus! {

/// The size of the buffer that files are read into.
pub const BUFFER_SIZE: u32 = 0x1000;

/// Where to read next after a chunk: a chunk that does not fill the buffer is the
/// last.
pub open spec fn next_read(offset: u32, len: u32) -> Option<u32> {
    if len < BUFFER_SIZE { None } else { Some((offset + len) as u32) }
}

/// Where to read next after a chunk of `len` bytes.
pub fn after_chunk(offset: u32, len: u32) -> (r: Option<u32>)
    requires
        offset + len <= u32::MAX,
    ensures
        r == next_read(offset, len),
{
    if len < BUFFER_SIZE { None } else { Some(offset + len) }
}

/// What a command that shows a file does after a read: print a number of bytes and
/// read on, or print them and stop, or print a message and stop.
#[derive(Clone, Copy, PartialEq, Eq, Structural, Debug)]
pub enum ShowStep {
    PrintAndRead(u32, u32),
    PrintAndStop(u32),
    Fail,
}

/// What follows the read of a chunk at an offset.
pub open spec fn shown_next(offset: u32, result: IoResult) -> ShowStep {
    match result {
        Err(_) => ShowStep::Fail,
        Ok(len) => match next_read(offset, len) {
            Some(next) => ShowStep::PrintAndRead(len, next),
            None => ShowStep::PrintAndStop(len),
        },
    }
}

/// TYPE, DRIVES and VER: what follows the read of a chunk at an offset.
pub fn show_chunk(offset: u32, result: IoResult) -> (r: ShowStep)
    requires
        result matches Ok(len) ==> offset + len <= u32::MAX,
    ensures
        r == (match result {
            Err(_) => ShowStep::Fail,
            Ok(len) => match next_read(offset, len) {
                Some(next) => ShowStep::PrintAndRead(len, next),
                None => ShowStep::PrintAndStop(len),
            },
        }),
        r == shown_next(offset, result),
{
    match result {
        Err(_) => ShowStep::Fail,
        Ok(len) => match after_chunk(offset, len) {
            Some(next) => ShowStep::PrintAndRead(len, next),
            None => ShowStep::PrintAndStop(len),
        },
    }
}

/// Where a copy stands.
#[derive(Clone, Copy, PartialEq, Eq, Structural, Debug)]
pub enum CopyState {
    OpeningSource,
    CreatingDest,
    /// Reading at an offset.
    Reading(u32),
    /// Writing a number of bytes at an offset.
    Writing(u32, u32),
    /// Over: the bytes copied, or none.
    Finished(Option<u32>),
}

/// What went wrong with a copy.
#[derive(Clone, Copy, PartialEq, Eq, Structural, Debug)]
pub enum CopyError {
    Source,
    Dest,
    Read,
    Write,
}

impl CopyError {
    pub open spec fn message_text(&self) -> Seq<char> {
        match self {
            CopyError::Source => "Failed to open source file\n"@,
            CopyError::Dest => "Failed to create destination file\n"@,
            CopyError::Read => "Error reading source file\n"@,
            CopyError::Write => "Error writing destination file\n"@,
        }
    }

    pub fn message(&self) -> (r: &'static str)
        ensures
            r@ == self.message_text(),
    {
        match self {
            CopyError::Source => "Failed to open source file\n",
            CopyError::Dest => "Failed to create destination file\n",
            CopyError::Read => "Error reading source file\n",
            CopyError::Write => "Error writing destination file\n",
        }
    }
}

/// What a copy does next.
#[derive(Clone, Copy, PartialEq, Eq, Structural, Debug)]
pub enum CopyAction {
    CreateDest,
    /// Read from the source at an offset.
    Read(u32),
    /// Write the first bytes of the buffer at an offset.
    Write(u32, u32),
    /// Print what went wrong, and close the files that are open.
    Fail(CopyError),
    /// Close both files.
    Close,
}

/// What follows the result of the last action.
pub open spec fn copy_next(state: CopyState, result: IoResult) -> (CopyState, CopyAction) {
    match (state, result) {
        (CopyState::OpeningSource, Ok(_)) => (CopyState::CreatingDest, CopyAction::CreateDest),
        (CopyState::OpeningSource, Err(_)) => (
            CopyState::Finished(None), CopyAction::Fail(CopyError::Source),
        ),
        (CopyState::CreatingDest, Ok(_)) => (CopyState::Reading(0), CopyAction::Read(0)),
        (CopyState::CreatingDest, Err(_)) => (
            CopyState::Finished(None), CopyAction::Fail(CopyError::Dest),
        ),
        (CopyState::Reading(offset), Ok(n)) => if n == 0 {
            (CopyState::Finished(Some(offset)), CopyAction::Close)
        } else {
            (CopyState::Writing(n, offset), CopyAction::Write(n, offset))
        },
        (CopyState::Reading(_), Err(_)) => (
            CopyState::Finished(None), CopyAction::Fail(CopyError::Read),
        ),
        (CopyState::Writing(n, offset), Ok(_)) => {
            let end = (offset + n) as u32;
            if n < BUFFER_SIZE {
                (CopyState::Finished(Some(end)), CopyAction::Close)
            } else {
                (CopyState::Reading(end), CopyAction::Read(end))
            }
        },
        (CopyState::Writing(_, _), Err(_)) => (
            CopyState::Finished(None), CopyAction::Fail(CopyError::Write),
        ),
        (CopyState::Finished(done), _) => (CopyState::Finished(done), CopyAction::Close),
    }
}

/// A copy in progress. It begins by opening the source.
pub struct CopyJob {
    pub state: CopyState,
}

impl CopyJob {
    pub fn new() -> (r: Self)
        ensures
            r.state == CopyState::OpeningSource,
    {
        CopyJob { state: CopyState::OpeningSource }
    }

    /// Go on with the result of the last action.
    pub fn copy_file(&mut self, result: IoResult) -> (r: CopyAction)
        requires
            old(self).state matches CopyState::Writing(n, offset) ==> offset + n <= u32::MAX,
        ensures
            (final(self).state, r) == copy_next(old(self).state, result),
    {
        match self.state {
            CopyState::OpeningSource => {
                if result.is_ok() {
                    self.state = CopyState::CreatingDest;
                    CopyAction::CreateDest
                } else {
                    self.state = CopyState::Finished(None);
                    CopyAction::Fail(CopyError::Source)
                }
            },
            CopyState::CreatingDest => {
                if result.is_ok() {
                    self.state = CopyState::Reading(0);
                    CopyAction::Read(0)
                } else {
                    self.state = CopyState::Finished(None);
                    CopyAction::Fail(CopyError::Dest)
                }
            },
            CopyState::Reading(offset) => match result {
                Ok(n) => {
                    if n == 0 {
                        self.state = CopyState::Finished(Some(offset));
                        CopyAction::Close
                    } else {
                        self.state = CopyState::Writing(n, offset);
                        CopyAction::Write(n, offset)
                    }
                },
                Err(_) => {
                    self.state = CopyState::Finished(None);
                    CopyAction::Fail(CopyError::Read)
                },
            },
            CopyState::Writing(n, offset) => {
                if result.is_err() {
                    self.state = CopyState::Finished(None);
                    return CopyAction::Fail(CopyError::Write);
                }
                let end: u32 = offset + n;
                if n < BUFFER_SIZE {
                    self.state = CopyState::Finished(Some(end));
                    CopyAction::Close
                } else {
                    self.state = CopyState::Reading(end);
                    CopyAction::Read(end)
                }
            },
            CopyState::Finished(_) => CopyAction::Close,
        }
    }
}

/// The chunk that a read at an offset gives.
pub open spec fn chunk_at(file: Seq<u8>, offset: int) -> Seq<u8> {
    if offset >= file.len() {
        Seq::empty()
    } else if file.len() - offset < BUFFER_SIZE {
        file.skip(offset)
    } else {
        file.subrange(offset, offset + BUFFER_SIZE)
    }
}

/// How a copy ends that goes on from a state with `dest` written so far, where no
/// read or write fails.
pub open spec fn copy_run(source: Seq<u8>, dest: Seq<u8>, state: CopyState) -> (Seq<u8>, CopyState)
    decreases source.len() - dest.len(), (if state is Reading { 1int } else { 0 }),
{
    match state {
        CopyState::Reading(offset) => {
            let chunk = chunk_at(source, offset as int);
            let (next, action) = copy_next(state, Ok(chunk.len() as u32));
            match action {
                CopyAction::Write(n, at) => if at == dest.len() && n == chunk.len() && at + n
                    <= source.len() && n > 0 {
                    let written = dest + chunk;
                    let (after, _) = copy_next(next, Ok(n));
                    copy_run(source, written, after)
                } else {
                    (dest, next)
                },
                _ => (dest, next),
            }
        },
        _ => (dest, state),
    }
}

proof fn lemma_copy_run(source: Seq<u8>, offset: int)
    requires
        0 <= offset <= source.len() <= 0xffff_0000,
    ensures
        copy_run(source, source.subrange(0, offset), CopyState::Reading(offset as u32)) == (
            source, CopyState::Finished(Some(source.len() as u32)),
        ),
    decreases source.len() - offset,
{
    let dest = source.subrange(0, offset);
    let chunk = chunk_at(source, offset);
    if chunk.len() == 0 {
        assert(dest =~= source);
    } else {
        let n = chunk.len() as int;
        assert(dest + chunk =~= source.subrange(0, offset + n));
        if n < BUFFER_SIZE {
            assert(source.subrange(0, offset + n) =~= source);
            let end = CopyState::Finished(Some((offset + n) as u32));
            assert(copy_run(source, source, end) == (source, end));
        } else {
            lemma_copy_run(source, offset + n);
        }
    }
}

/// A copy to an empty file, where no read or write fails, ends with all bytes of the
/// source in the destination, and tells their number.
pub proof fn copy_is_complete(source: Seq<u8>)
    requires
        source.len() <= 0xffff_0000,
    ensures
        copy_next(CopyState::OpeningSource, Ok(1)) == (
            CopyState::CreatingDest, CopyAction::CreateDest,
        ),
        copy_next(CopyState::CreatingDest, Ok(1)) == (CopyState::Reading(0), CopyAction::Read(0)),
        copy_run(source, Seq::empty(), CopyState::Reading(0)) == (
            source, CopyState::Finished(Some(source.len() as u32)),
        ),
{
    lemma_copy_run(source, 0);
    assert(source.subrange(0, 0) =~= Seq::empty());
}

/// What COPY prints at its end.
pub fn copy_report(bytes: u32) -> (r: Vec<u8>)
    ensures
        r@ == text("        1 file(s) copied (") + decimal(bytes as nat) + text(" bytes)\n"),
{
    let mut out: Vec<u8> = Vec::new();
    push_text(&mut out, "        1 file(s) copied (");
    push_decimal(&mut out, bytes as u64);
    push_text(&mut out, " bytes)\n");
    assert(out@ =~= text("        1 file(s) copied (") + decimal(bytes as nat)
        + text(" bytes)\n"));
    out
}

/// What APPEND prints at its end.
pub fn append_report(result: IoResult) -> (r: Vec<u8>)
    ensures
        r@ == (match result {
            Ok(n) => text("Appended ") + decimal(n as nat) + text(" bytes\n"),
            Err(_) => text("Write failed\n"),
        }),
{
    let mut out: Vec<u8> = Vec::new();
    match result {
        Ok(n) => {
            push_text(&mut out, "Appended ");
            push_decimal(&mut out, n as u64);
            push_text(&mut out, " bytes\n");
            assert(out@ =~= text("Appended ") + decimal(n as nat) + text(" bytes\n"));
        },
        Err(_) => {
            push_text(&mut out, "Write failed\n");
            assert(out@ =~= text("Write failed\n"));
        },
    }
    out
}

/// Where APPEND stands.
#[derive(Clone, Copy, PartialEq, Eq, Structural, Debug)]
pub enum AppendState {
    Opening,
    Asking,
    Writing,
    Finished,
}

/// What APPEND does next.
pub enum AppendAction {
    /// Ask for the size of the file.
    Ask,
    /// Write bytes at an offset.
    Write { bytes: Vec<u8>, offset: u32 },
    /// Print, and stop.
    Print(Vec<u8>),
}

/// The APPEND command in progress. It begins by opening the file, which is created where
/// it is not there.
pub struct AppendJob {
    pub bytes: Vec<u8>,
    pub state: AppendState,
}

impl AppendJob {
    pub fn new(bytes: Vec<u8>) -> (r: Self)
        ensures
            r.bytes == bytes,
            r.state == AppendState::Opening,
    {
        AppendJob { bytes, state: AppendState::Opening }
    }

    /// The file was opened, or could not be.
    pub fn opened(&mut self, ok: bool) -> (r: AppendAction)
        requires
            old(self).state == AppendState::Opening,
        ensures
            final(self).bytes == old(self).bytes,
            ok ==> final(self).state == AppendState::Asking && r is Ask,
            !ok ==> final(self).state == AppendState::Finished && (r matches AppendAction::Print(
                out,
            ) && out@ == text("Failed to open file\n")),
    {
        if ok {
            self.state = AppendState::Asking;
            return AppendAction::Ask;
        }
        self.state = AppendState::Finished;
        let mut out: Vec<u8> = Vec::new();
        push_text(&mut out, "Failed to open file\n");
        assert(out@ =~= text("Failed to open file\n"));
        AppendAction::Print(out)
    }

    /// The size of the file came: 0 where it is not known.
    pub fn sized(&mut self, byte_size: u32) -> (r: AppendAction)
        requires
            old(self).state == AppendState::Asking,
        ensures
            final(self).bytes == old(self).bytes,
            final(self).state == AppendState::Writing,
            r matches AppendAction::Write { bytes, offset } && bytes@ == old(self).bytes@ && offset
                == byte_size,
    {
        self.state = AppendState::Writing;
        let bytes: Vec<u8> = sub_bytes(self.bytes.as_slice(), 0, self.bytes.len());
        assert(bytes@ =~= self.bytes@);
        AppendAction::Write { bytes, offset: byte_size }
    }

    /// The bytes were written, or could not be.
    pub fn written(&mut self, result: IoResult) -> (r: AppendAction)
        requires
            old(self).state == AppendState::Writing,
        ensures
            final(self).bytes == old(self).bytes,
            final(self).state == AppendState::Finished,
            r matches AppendAction::Print(out) && out@ == (match result {
                Ok(n) => text("Appended ") + decimal(n as nat) + text(" bytes\n"),
                Err(_) => text("Write failed\n"),
            }),
    {
        self.state = AppendState::Finished;
        AppendAction::Print(append_report(result))
    }
}

/// Commands that need words.
#[derive(Clone, Copy, PartialEq, Eq, Structural, Debug)]
pub enum FileCommand {
    Append,
    Copy,
    Del,
    Mkdir,
    Move,
    Ren,
    Rmdir,
    Type,
}

/// The number of words that a command needs.
pub open spec fn words_needed(command: FileCommand) -> int {
    match command {
        FileCommand::Append => 2,
        FileCommand::Copy => 2,
        FileCommand::Del => 1,
        FileCommand::Mkdir => 1,
        FileCommand::Move => 2,
        FileCommand::Ren => 2,
        FileCommand::Rmdir => 1,
        FileCommand::Type => 1,
    }
}

pub open spec fn usage_text(command: FileCommand) -> Seq<char> {
    match command {
        FileCommand::Append => "Usage: APPEND <filename> <text>\n"@,
        FileCommand::Copy => "Usage: COPY <source> <dest>\n"@,
        FileCommand::Del => "Usage: DEL <filename>\n"@,
        FileCommand::Mkdir => "Usage: MKDIR <dirname>\n"@,
        FileCommand::Move => "Usage: MOVE <source> <dest>\n"@,
        FileCommand::Ren => "Usage: REN <old> <new>\n"@,
        FileCommand::Rmdir => "Usage: RMDIR <dirname>\n"@,
        FileCommand::Type => "No file specified!\n"@,
    }
}

/// What a command with too few words prints in place of running.
pub fn usage(command: FileCommand, words: usize) -> (r: Option<&'static str>)
    ensures
        r is Some <==> words < words_needed(command),
        r matches Some(m) ==> m@ == usage_text(command),
{
    let (needed, m): (usize, &'static str) = match command {
        FileCommand::Append => (2, "Usage: APPEND <filename> <text>\n"),
        FileCommand::Copy => (2, "Usage: COPY <source> <dest>\n"),
        FileCommand::Del => (1, "Usage: DEL <filename>\n"),
        FileCommand::Mkdir => (1, "Usage: MKDIR <dirname>\n"),
        FileCommand::Move => (2, "Usage: MOVE <source> <dest>\n"),
        FileCommand::Ren => (2, "Usage: REN <old> <new>\n"),
        FileCommand::Rmdir => (1, "Usage: RMDIR <dirname>\n"),
        FileCommand::Type => (1, "No file specified!\n"),
    };
    if words < needed { Some(m) } else { None }
}

/// What DEL prints about its result.
pub fn del(result: IoResult) -> (r: Option<&'static str>)
    ensures
        r is None <==> result is Ok,
        r matches Some(m) ==> m@ == (if result == IoResult::Err(IoError::NotFound) {
            "File not found\n"@
        } else {
            "Failed to delete file\n"@
        }),
{
    match result {
        Ok(_) => None,
        Err(IoError::NotFound) => Some("File not found\n"),
        Err(_) => Some("Failed to delete file\n"),
    }
}

/// What MKDIR prints about its result.
pub fn mkdir_cmd(result: IoResult) -> (r: Option<&'static str>)
    ensures
        r is None <==> result is Ok,
        r matches Some(m) ==> m@ == "Failed to create directory\n"@,
{
    match result {
        Ok(_) => None,
        Err(_) => Some("Failed to create directory\n"),
    }
}

/// What RMDIR prints about its result.
pub fn rmdir_cmd(result: IoResult) -> (r: Option<&'static str>)
    ensures
        r is None <==> result is Ok,
        r matches Some(m) ==> m@ == (if result == IoResult::Err(IoError::NotFound) {
            "Directory not found\n"@
        } else if result == IoResult::Err(IoError::ResourceInUse) {
            "Directory is not empty\n"@
        } else {
            "Failed to remove directory\n"@
        }),
{
    match result {
        Ok(_) => None,
        Err(IoError::NotFound) => Some("Directory not found\n"),
        Err(IoError::ResourceInUse) => Some("Directory is not empty\n"),
        Err(_) => Some("Failed to remove directory\n"),
    }
}

/// What REN prints about its result.
pub fn ren(result: IoResult) -> (r: Option<&'static str>)
    ensures
        r is None <==> result is Ok,
        r matches Some(m) ==> m@ == (if result == IoResult::Err(IoError::CrossDeviceLink) {
            "Cannot rename across drives. Use MOVE instead.\n"@
        } else if result == IoResult::Err(IoError::NotFound) {
            "File not found\n"@
        } else {
            "Failed to rename\n"@
        }),
{
    match result {
        Ok(_) => None,
        Err(IoError::CrossDeviceLink) => Some("Cannot rename across drives. Use MOVE instead.\n"),
        Err(IoError::NotFound) => Some("File not found\n"),
        Err(_) => Some("Failed to rename\n"),
    }
}

/// Both paths of a renaming, one after the other, and their lengths in one word.
pub struct RenameRequest {
    pub combined: Vec<u8>,
    pub lengths: u32,
}

/// Ask to rename a file.
pub fn do_rename(source: &[u8], dest: &[u8]) -> (r: RenameRequest)
    requires
        source@.len() + dest@.len() <= 512,
    ensures
        r.combined@ == source@ + dest@,
        r.lengths == source@.len() + dest@.len() * 0x1_0000,
{
    let mut combined: Vec<u8> = sub_bytes(source, 0, source.len());
    assert(combined@ =~= source@);
    push_bytes(&mut combined, dest);
    RenameRequest {
        combined,
        lengths: source.len() as u32 + dest.len() as u32 * 0x1_0000,
    }
}

/// The two paths of a renaming.
pub open spec fn rename_paths(combined: Seq<u8>, lengths: u32) -> (Seq<u8>, Seq<u8>) {
    let s = lengths as int % 0x1_0000;
    let d = lengths as int / 0x1_0000;
    (combined.subrange(0, s), combined.subrange(s, s + d))
}

/// The paths of a renaming are read back as they were given.
pub proof fn rename_round_trip(source: Seq<u8>, dest: Seq<u8>, lengths: u32)
    requires
        source.len() + dest.len() <= 512,
        lengths == source.len() + dest.len() * 0x1_0000,
    ensures
        rename_paths(source + dest, lengths) == (source, dest),
{
    let (s, d) = rename_paths(source + dest, lengths);
    assert(lengths as int % 0x1_0000 == source.len());
    assert(lengths as int / 0x1_0000 == dest.len());
    assert(s =~= source);
    assert(d =~= dest);
}

/// What follows the attempt to move a file by renaming it.
#[derive(Clone, Copy, PartialEq, Eq, Structural, Debug)]
pub enum MoveStep {
    /// Print that one file was moved.
    Moved,
    /// Copy the file, then delete the source.
    Copy,
    /// Print "File not found".
    NotFound,
    /// Print "Failed to move file".
    Failed,
    /// Delete the source.
    Delete,
    /// Print "File copied but failed to delete source".
    NotDeleted,
    /// Nothing more is printed.
    Stop,
}

/// What follows a renaming.
pub open spec fn after_renaming(result: IoResult) -> MoveStep {
    match result {
        Ok(_) => MoveStep::Moved,
        Err(e) => if e == IoError::CrossDeviceLink {
            MoveStep::Copy
        } else if e == IoError::NotFound {
            MoveStep::NotFound
        } else {
            MoveStep::Failed
        },
    }
}

/// What follows the copy of a move.
pub open spec fn after_copying(copied: Option<u32>) -> MoveStep {
    if copied is Some { MoveStep::Delete } else { MoveStep::Stop }
}

/// What follows the deletion of the source of a move.
pub open spec fn after_deleting(result: IoResult) -> MoveStep {
    if result is Ok { MoveStep::Moved } else { MoveStep::NotDeleted }
}

/// MOVE, after the renaming.
pub fn move_cmd(result: IoResult) -> (r: MoveStep)
    ensures
        r == after_renaming(result),
        r == (match result {
            Ok(_) => MoveStep::Moved,
            Err(e) => if e == IoError::CrossDeviceLink {
                MoveStep::Copy
            } else if e == IoError::NotFound {
                MoveStep::NotFound
            } else {
                MoveStep::Failed
            },
        }),
{
    match result {
        Ok(_) => MoveStep::Moved,
        Err(IoError::CrossDeviceLink) => MoveStep::Copy,
        Err(IoError::NotFound) => MoveStep::NotFound,
        Err(_) => MoveStep::Failed,
    }
}

/// MOVE, after the copy: the source is deleted only where all was copied.
pub fn move_copied(copied: Option<u32>) -> (r: MoveStep)
    ensures
        r == after_copying(copied),
        r == (if copied is Some { MoveStep::Delete } else { MoveStep::Stop }),
{
    match copied {
        Some(_) => MoveStep::Delete,
        None => MoveStep::Stop,
    }
}

/// MOVE, after the source was deleted.
pub fn move_deleted(result: IoResult) -> (r: MoveStep)
    ensures
        r == after_deleting(result),
        r == (if result is Ok { MoveStep::Moved } else { MoveStep::NotDeleted }),
{
    match result {
        Ok(_) => MoveStep::Moved,
        Err(_) => MoveStep::NotDeleted,
    }
}

/// What a step of MOVE prints.
pub fn move_message(step: MoveStep) -> (r: Option<&'static str>)
    ensures
        r is None <==> (step == MoveStep::Copy || step == MoveStep::Delete || step
            == MoveStep::Stop),
        r matches Some(m) ==> m@ == (match step {
            MoveStep::Moved => "        1 file(s) moved.\n"@,
            MoveStep::NotFound => "File not found\n"@,
            MoveStep::Failed => "Failed to move file\n"@,
            _ => "File copied but failed to delete source\n"@,
        }),
{
    match step {
        MoveStep::Moved => Some("        1 file(s) moved.\n"),
        MoveStep::NotFound => Some("File not found\n"),
        MoveStep::Failed => Some("Failed to move file\n"),
        MoveStep::NotDeleted => Some("File copied but failed to delete source\n"),
        _ => None,
    }
}

} // verus!
