use idos::api::io::{Handle, IoError};
use idos::command::dispatch::{
    exec_command_tree, find_builtin, redirect_message, setup_redirect, teardown_redirect, Action,
    Builtin, CommandComponent, CommandTree, Output, RedirectOutput, RedirectPlan, REDIRECT_FAILED,
};
use idos::command::external::{arg_structure, ends_with_ignore_case, has_extension, try_external, Attempt};
use idos::command::files::{
    copy_report, del, do_rename, mkdir_cmd, move_cmd, move_copied, move_deleted, move_message, ren,
    rmdir_cmd, show_chunk, usage, AppendAction, AppendJob, CopyAction, CopyError, CopyJob,
    CopyState, FileCommand, MoveStep, ShowStep,
};
use idos::command::listing::{dir_header, format_row, DirAction, DirEntry, DirJob, Listing};
use idos::command::output::{cd, cls, color, echo, help, is_drive, prompt, CdStep};

fn words(s: &[&str]) -> Vec<Vec<u8>> {
    s.iter().map(|w| w.as_bytes().to_vec()).collect()
}

#[test]
fn echo_joins_its_words() {
    assert_eq!(echo(&words(&[])), b"\n".to_vec());
    assert_eq!(echo(&words(&["hello", "world"])), b"hello world\n".to_vec());
    let long = "x".repeat(300);
    assert_eq!(echo(&words(&[&long])), long.as_bytes()[..256].to_vec());
    let exact = "y".repeat(255);
    assert_eq!(echo(&words(&[&exact])).len(), 256);
}

#[test]
fn prompt_is_set() {
    assert_eq!(prompt(&words(&[])), b"$P$G".to_vec());
    assert_eq!(prompt(&words(&["$P", "$G"])), b"$P $G".to_vec());
}

#[test]
fn colors_become_codes() {
    assert_eq!(color(&words(&["0A"])), b"\x1b[0m\x1b[92m\x1b[40m\x1b[2J\x1b[H".to_vec());
    assert_eq!(color(&words(&["91"])), b"\x1b[0m\x1b[34m\x1b[104m\x1b[2J\x1b[H".to_vec());
    assert_eq!(color(&words(&[])), b"\x1b[0m\x1b[2J\x1b[H".to_vec());
    assert_eq!(color(&words(&["0G"])), b"Invalid hex digit\n".to_vec());
    assert_eq!(color(&words(&["11"])), b"Foreground and background cannot be the same\n".to_vec());
    assert!(color(&words(&["111"])).starts_with(b"Usage: COLOR"));
    assert_eq!(cls(), b"\x1b[2J\x1b[H".to_vec());
    assert!(help().starts_with(b"APPEND <file>"));
}

#[test]
fn directories_are_changed() {
    let steps = cd(&words(&["..\\a\\.\\b"]));
    assert_eq!(steps.len(), 3);
    assert!(matches!(&steps[0], CdStep::Pop));
    assert!(matches!(&steps[1], CdStep::Push(n) if n == b"a"));
    assert!(matches!(&steps[2], CdStep::Push(n) if n == b"b"));
    assert!(matches!(&cd(&words(&["C:"]))[0], CdStep::ResetDrive(n) if n == b"C:"));
    assert!(cd(&words(&["\\x"])).is_empty());
    assert!(matches!(&cd(&words(&[]))[0], CdStep::PopToRoot));
    assert!(is_drive(b"DEV:"));
    assert!(!is_drive(b"A1:"));
}

#[test]
fn commands_are_found() {
    assert_eq!(find_builtin(b"ChDir"), Some(Builtin::Cd));
    assert_eq!(find_builtin(b"erase"), Some(Builtin::Del));
    assert_eq!(find_builtin(b"foo"), None);
    let tree = CommandTree {
        root: Some(CommandComponent::Executable(
            b"dir".to_vec(),
            vec![],
            RedirectOutput::Append(b"x".to_vec()),
        )),
    };
    assert_eq!(exec_command_tree(&tree), (RedirectPlan::Append, Action::Run(Builtin::Dir)));
    let tree = CommandTree {
        root: Some(CommandComponent::Executable(
            b"prog".to_vec(),
            vec![],
            RedirectOutput::Overwrite(b"x".to_vec()),
        )),
    };
    assert_eq!(exec_command_tree(&tree), (RedirectPlan::Refuse, Action::External));
    let tree = CommandTree {
        root: Some(CommandComponent::Executable(b"a:".to_vec(), vec![], RedirectOutput::Unchanged)),
    };
    assert_eq!(exec_command_tree(&tree), (RedirectPlan::Keep, Action::ChangeDrive));
    let tree = CommandTree { root: Some(CommandComponent::Unsupported) };
    assert_eq!(exec_command_tree(&tree), (RedirectPlan::Keep, Action::Unsupported));
    assert_eq!(
        exec_command_tree(&CommandTree { root: None }),
        (RedirectPlan::Keep, Action::Nothing)
    );
}

#[test]
fn redirection_is_undone_again() {
    let before = Output { stdout: Handle::new(1), write_offset: 9 };
    let mut out = before;
    let saved = setup_redirect(&mut out, RedirectPlan::Append, Handle::new(5), Ok(1), 100);
    assert_eq!(out, Output { stdout: Handle::new(5), write_offset: 100 });
    out.write_offset = 150;
    assert_eq!(teardown_redirect(&mut out, saved), Some(Handle::new(5)));
    assert_eq!(out, before);
    let saved = setup_redirect(
        &mut out,
        RedirectPlan::Overwrite,
        Handle::new(5),
        Err(IoError::NotFound),
        0,
    );
    assert!(saved.is_none());
    assert_eq!(out, before);
    assert_eq!(redirect_message(RedirectPlan::Append, false), Some(REDIRECT_FAILED));
    assert_eq!(redirect_message(RedirectPlan::Append, true), None);
}

#[test]
fn external_names_are_tried_in_order() {
    assert!(has_extension(b"a.b"));
    assert!(!has_extension(b"ab"));
    assert!(ends_with_ignore_case(b"C:\\RUN.bat", b".BAT"));
    let t = try_external(b"edit", b"C:\\edit");
    assert_eq!(t.len(), 3);
    assert!(matches!(&t[0], Attempt::Program(n) if n == b"edit"));
    assert!(matches!(&t[1], Attempt::Program(n) if n == b"edit.ELF"));
    assert!(matches!(&t[2], Attempt::Batch(n) if n == b"edit.BAT"));
    let t = try_external(b"run.bat", b"C:\\run.bat");
    assert!(t.len() == 1 && matches!(&t[0], Attempt::Batch(_)));
    let t = try_external(b"x.elf", b"C:\\x.elf");
    assert!(t.len() == 1 && matches!(&t[0], Attempt::Program(_)));
}

#[test]
fn arguments_are_framed() {
    assert_eq!(
        arg_structure(b"P", &words(&["ab", ""])),
        vec![1, 0, b'P', 2, 0, b'a', b'b', 0, 0]
    );
    let long = vec![7u8; 300];
    let framed = arg_structure(&long, &vec![]);
    assert_eq!(&framed[..2], &[44, 1]);
    assert_eq!(framed.len(), 302);
}

#[test]
fn copy_runs_to_its_end() {
    let mut job = CopyJob::new();
    assert_eq!(job.copy_file(Ok(1)), CopyAction::CreateDest);
    assert_eq!(job.copy_file(Ok(1)), CopyAction::Read(0));
    assert_eq!(job.copy_file(Ok(4096)), CopyAction::Write(4096, 0));
    assert_eq!(job.copy_file(Ok(4096)), CopyAction::Read(4096));
    assert_eq!(job.copy_file(Ok(10)), CopyAction::Write(10, 4096));
    assert_eq!(job.copy_file(Ok(10)), CopyAction::Close);
    assert_eq!(job.state, CopyState::Finished(Some(4106)));
    assert_eq!(copy_report(4106), b"        1 file(s) copied (4106 bytes)\n".to_vec());
}

#[test]
fn copy_fails_at_each_step() {
    let e = Err(IoError::OperationFailed);
    let mut job = CopyJob::new();
    assert_eq!(job.copy_file(e), CopyAction::Fail(CopyError::Source));
    let mut job = CopyJob::new();
    job.copy_file(Ok(1));
    assert_eq!(job.copy_file(e), CopyAction::Fail(CopyError::Dest));
    let mut job = CopyJob::new();
    job.copy_file(Ok(1));
    job.copy_file(Ok(1));
    assert_eq!(job.copy_file(e), CopyAction::Fail(CopyError::Read));
    let mut job = CopyJob::new();
    job.copy_file(Ok(1));
    job.copy_file(Ok(1));
    job.copy_file(Ok(8));
    assert_eq!(job.copy_file(e), CopyAction::Fail(CopyError::Write));
    assert_eq!(job.state, CopyState::Finished(None));
    assert_eq!(CopyError::Write.message(), "Error writing destination file\n");
    assert_eq!(CopyError::Source.message(), "Failed to open source file\n");
    assert_eq!(CopyError::Dest.message(), "Failed to create destination file\n");
    assert_eq!(CopyError::Read.message(), "Error reading source file\n");
}

#[test]
fn moves_fall_back_to_copies() {
    assert_eq!(move_cmd(Ok(0)), MoveStep::Moved);
    assert_eq!(move_cmd(Err(IoError::CrossDeviceLink)), MoveStep::Copy);
    assert_eq!(move_cmd(Err(IoError::NotFound)), MoveStep::NotFound);
    assert_eq!(move_cmd(Err(IoError::ReadError)), MoveStep::Failed);
    assert_eq!(move_copied(Some(3)), MoveStep::Delete);
    assert_eq!(move_copied(None), MoveStep::Stop);
    assert_eq!(move_deleted(Err(IoError::NotFound)), MoveStep::NotDeleted);
    assert_eq!(move_message(MoveStep::Moved), Some("        1 file(s) moved.\n"));
    assert_eq!(move_message(MoveStep::Copy), None);
}

#[test]
fn messages_of_file_commands() {
    assert_eq!(del(Ok(1)), None);
    assert_eq!(del(Err(IoError::NotFound)), Some("File not found\n"));
    assert_eq!(del(Err(IoError::WriteError)), Some("Failed to delete file\n"));
    assert_eq!(mkdir_cmd(Err(IoError::NotFound)), Some("Failed to create directory\n"));
    assert_eq!(rmdir_cmd(Err(IoError::ResourceInUse)), Some("Directory is not empty\n"));
    assert_eq!(rmdir_cmd(Err(IoError::NotFound)), Some("Directory not found\n"));
    assert_eq!(rmdir_cmd(Err(IoError::Unknown)), Some("Failed to remove directory\n"));
    assert_eq!(
        ren(Err(IoError::CrossDeviceLink)),
        Some("Cannot rename across drives. Use MOVE instead.\n")
    );
    assert_eq!(usage(FileCommand::Copy, 1), Some("Usage: COPY <source> <dest>\n"));
    assert_eq!(usage(FileCommand::Type, 1), None);
    let r = do_rename(b"C:\\A", b"C:\\BCD");
    assert_eq!(r.combined, b"C:\\AC:\\BCD".to_vec());
    assert_eq!(r.lengths, 4 | (6 << 16));
    assert_eq!(show_chunk(0, Ok(4096)), ShowStep::PrintAndRead(4096, 4096));
    assert_eq!(show_chunk(4096, Ok(4)), ShowStep::PrintAndStop(4));
    assert_eq!(show_chunk(0, Err(IoError::ReadError)), ShowStep::Fail);
}

#[test]
fn append_goes_to_the_end() {
    let mut job = AppendJob::new(b"more".to_vec());
    assert!(matches!(job.opened(true), AppendAction::Ask));
    assert!(matches!(job.sized(12), AppendAction::Write { bytes, offset: 12 } if bytes == b"more"));
    assert!(matches!(job.written(Ok(4)), AppendAction::Print(t) if t == b"Appended 4 bytes\n"));
    let mut job = AppendJob::new(b"more".to_vec());
    assert!(matches!(job.opened(false), AppendAction::Print(t) if t == b"Failed to open file\n"));
}

#[test]
fn rows_of_a_listing() {
    let e = DirEntry { name: b"README.TXT".to_vec(), size: 1234, mod_timestamp: 1278713001, is_dir: false };
    assert_eq!(format_row(&e), b"README.TXT        1234 08-07-2020 22:03:21\n".to_vec());
    let e = DirEntry { name: b"BIN".to_vec(), size: 0, mod_timestamp: 0, is_dir: true };
    assert_eq!(format_row(&e), b"BIN          <DIR>     01-01-1980 00:00:00\n".to_vec());
}

#[test]
fn names_that_are_no_text_are_replaced() {
    let mut l = Listing::new();
    assert!(!l.add_chunk(b"A\0\xff\0tail"));
    assert_eq!(l.entries.len(), 2);
    assert_eq!(l.entries[0].name, b"A".to_vec());
    assert_eq!(l.entries[1].name, "\u{fffd}".as_bytes().to_vec());
}

#[test]
fn directory_is_listed() {
    assert!(dir_header(b"C:\\").ends_with(b"Directory of C:\\\n\n"));
    let mut job = DirJob::new(b"C:\\".to_vec());
    assert!(matches!(job.opened(true), DirAction::Read(0)));
    assert!(matches!(job.read(b"A.TXT\0SUB\0"), DirAction::OpenEntry(p) if p == b"C:\\A.TXT"));
    assert!(matches!(job.entry_opened(true), DirAction::Ask));
    assert!(matches!(job.entry_status(5, 0, 1), DirAction::OpenEntry(p) if p == b"C:\\SUB"));
    match job.entry_opened(false) {
        DirAction::Print(out) => assert_eq!(
            out,
            b"A.TXT                5 01-01-1980 00:00:00\nSUB                  0 01-01-1980 00:00:00\n             2 file(s)\n".to_vec()
        ),
        _ => panic!("not printed"),
    }
    let mut job = DirJob::new(b"C:\\".to_vec());
    assert!(matches!(job.opened(false), DirAction::Print(t) if t == b"Failed to open directory...\n"));
}
