//! Which command a line names, and where its output goes.
use vstd::prelude::*;

use crate::api::io::{Handle, IoResult};
use crate::command::output::{drive_name, is_drive};
use crate::text::{bytes_equal, text, to_upper, upper_all};

verus! {

/// Where the output of a command goes.
#[derive(Debug)]
pub enum RedirectOutput {
    Unchanged,
    Overwrite(Vec<u8>),
    Append(Vec<u8>),
}

/// A part of a command line: a command with its words and its output, or something
/// that is not a command.
#[derive(Debug)]
pub enum CommandComponent {
    Executable(Vec<u8>, Vec<Vec<u8>>, RedirectOutput),
    Unsupported,
}

/// A parsed command line.
#[derive(Debug)]
pub struct CommandTree {
    pub root: Option<CommandComponent>,
}

impl CommandTree {
    pub fn get_root(&self) -> (r: Option<&CommandComponent>)
        ensures
            r == (match self.root {
                Some(c) => Some(&c),
                None => None,
            }),
    {
        match &self.root {
            Some(c) => Some(c),
            None => None,
        }
    }
}

/// The commands that the interpreter has itself.
#[derive(Clone, Copy, PartialEq, Eq, Structural, Debug)]
pub enum Builtin {
    Cd,
    Cls,
    Color,
    Copy,
    Del,
    Dir,
    Drives,
    Append,
    Echo,
    Help,
    Mkdir,
    Move,
    Prompt,
    Rmdir,
    Ren,
    Type,
    Ver,
}

/// The command of a name in upper case.
pub open spec fn builtin_named(name: Seq<u8>) -> Option<Builtin> {
    if name == text("CD") || name == text("CHDIR") {
        Some(Builtin::Cd)
    } else if name == text("CLS") {
        Some(Builtin::Cls)
    } else if name == text("COLOR") {
        Some(Builtin::Color)
    } else if name == text("COPY") {
        Some(Builtin::Copy)
    } else if name == text("DEL") || name == text("ERASE") {
        Some(Builtin::Del)
    } else if name == text("DIR") {
        Some(Builtin::Dir)
    } else if name == text("DRIVES") {
        Some(Builtin::Drives)
    } else if name == text("APPEND") {
        Some(Builtin::Append)
    } else if name == text("ECHO") {
        Some(Builtin::Echo)
    } else if name == text("HELP") {
        Some(Builtin::Help)
    } else if name == text("MD") || name == text("MKDIR") {
        Some(Builtin::Mkdir)
    } else if name == text("MOVE") {
        Some(Builtin::Move)
    } else if name == text("PROMPT") {
        Some(Builtin::Prompt)
    } else if name == text("RD") || name == text("RMDIR") {
        Some(Builtin::Rmdir)
    } else if name == text("REN") || name == text("RENAME") {
        Some(Builtin::Ren)
    } else if name == text("TYPE") {
        Some(Builtin::Type)
    } else if name == text("VER") {
        Some(Builtin::Ver)
    } else {
        None
    }
}

fn named(name: &Vec<u8>, word: &str) -> (r: bool)
    ensures
        r == (name@ == text(word)),
{
    bytes_equal(name.as_slice(), word.as_bytes())
}

/// The command of a name, in any case.
pub fn find_builtin(name: &[u8]) -> (r: Option<Builtin>)
    ensures
        r == builtin_named(upper_all(name@)),
{
    let mut up: Vec<u8> = Vec::new();
    let mut i: usize = 0;
    while i < name.len()
        invariant
            i <= name@.len(),
            up@ =~= upper_all(name@).subrange(0, i as int),
        decreases name@.len() - i,
    {
        up.push(to_upper(name[i]));
        i += 1;
    }
    assert(up@ =~= upper_all(name@));
    if named(&up, "CD") || named(&up, "CHDIR") {
        Some(Builtin::Cd)
    } else if named(&up, "CLS") {
        Some(Builtin::Cls)
    } else if named(&up, "COLOR") {
        Some(Builtin::Color)
    } else if named(&up, "COPY") {
        Some(Builtin::Copy)
    } else if named(&up, "DEL") || named(&up, "ERASE") {
        Some(Builtin::Del)
    } else if named(&up, "DIR") {
        Some(Builtin::Dir)
    } else if named(&up, "DRIVES") {
        Some(Builtin::Drives)
    } else if named(&up, "APPEND") {
        Some(Builtin::Append)
    } else if named(&up, "ECHO") {
        Some(Builtin::Echo)
    } else if named(&up, "HELP") {
        Some(Builtin::Help)
    } else if named(&up, "MD") || named(&up, "MKDIR") {
        Some(Builtin::Mkdir)
    } else if named(&up, "MOVE") {
        Some(Builtin::Move)
    } else if named(&up, "PROMPT") {
        Some(Builtin::Prompt)
    } else if named(&up, "RD") || named(&up, "RMDIR") {
        Some(Builtin::Rmdir)
    } else if named(&up, "REN") || named(&up, "RENAME") {
        Some(Builtin::Ren)
    } else if named(&up, "TYPE") {
        Some(Builtin::Type)
    } else if named(&up, "VER") {
        Some(Builtin::Ver)
    } else {
        None
    }
}

/// What a command line asks for.
#[derive(Clone, Copy, PartialEq, Eq, Structural, Debug)]
pub enum Action {
    /// An empty line.
    Nothing,
    /// Print "Unsupported syntax!".
    Unsupported,
    /// Run a command of the interpreter with the words of the line.
    Run(Builtin),
    /// Change to the drive that the line names.
    ChangeDrive,
    /// Look for a program or a batch file of that name; where there is none, print
    /// "Unknown command!".
    External,
}

/// What is done about the output before the command runs.
#[derive(Clone, Copy, PartialEq, Eq, Structural, Debug)]
pub enum RedirectPlan {
    /// Output stays where it is.
    Keep,
    /// Print that programs cannot be redirected, and keep the output.
    Refuse,
    /// Open the named file, creating it, and write from its start.
    Overwrite,
    /// Open the named file, creating it, and write from its end.
    Append,
}

pub const UNSUPPORTED_SYNTAX: &'static str = "Unsupported syntax!\n";
pub const UNKNOWN_COMMAND: &'static str = "Unknown command!\n";
pub const REDIRECT_REFUSED: &'static str = "Redirect not supported for external commands\n";
pub const REDIRECT_FAILED: &'static str = "Failed to open file for redirect\n";

/// What a line asks for.
pub open spec fn tree_action(tree: CommandTree) -> Action {
    match tree.root {
        None => Action::Nothing,
        Some(CommandComponent::Unsupported) => Action::Unsupported,
        Some(CommandComponent::Executable(name, args, redirect)) => {
            match builtin_named(upper_all(name@)) {
                Some(b) => Action::Run(b),
                None => if drive_name(name@) { Action::ChangeDrive } else { Action::External },
            }
        },
    }
}

/// What a line asks for with its output.
pub open spec fn tree_redirect(tree: CommandTree) -> RedirectPlan {
    match tree.root {
        Some(CommandComponent::Executable(name, args, redirect)) => {
            redirect_plan(
                redirect, builtin_named(upper_all(name@)) is Some || drive_name(name@),
            )
        },
        _ => RedirectPlan::Keep,
    }
}

/// Only commands of the interpreter, drives among them, can be redirected.
pub open spec fn redirect_plan(redirect: RedirectOutput, own: bool) -> RedirectPlan {
    match redirect {
        RedirectOutput::Unchanged => RedirectPlan::Keep,
        _ if !own => RedirectPlan::Refuse,
        RedirectOutput::Overwrite(_) => RedirectPlan::Overwrite,
        RedirectOutput::Append(_) => RedirectPlan::Append,
    }
}

/// What is done about the output of a command.
pub fn plan_redirect(redirect: &RedirectOutput, own: bool) -> (r: RedirectPlan)
    ensures
        r == redirect_plan(*redirect, own),
{
    match redirect {
        RedirectOutput::Unchanged => RedirectPlan::Keep,
        RedirectOutput::Overwrite(_) => {
            if own { RedirectPlan::Overwrite } else { RedirectPlan::Refuse }
        },
        RedirectOutput::Append(_) => {
            if own { RedirectPlan::Append } else { RedirectPlan::Refuse }
        },
    }
}

/// A command has a name.
pub open spec fn tree_wf(tree: CommandTree) -> bool {
    match tree.root {
        Some(CommandComponent::Executable(name, args, redirect)) => name@.len() > 0,
        _ => true,
    }
}

/// What a parsed line asks for: first what becomes of the output, then what is run.
pub fn exec_command_tree(tree: &CommandTree) -> (r: (RedirectPlan, Action))
    requires
        tree_wf(*tree),
    ensures
        r == (tree_redirect(*tree), tree_action(*tree)),
{
    match tree.get_root() {
        None => (RedirectPlan::Keep, Action::Nothing),
        Some(root) => match root {
            CommandComponent::Unsupported => (RedirectPlan::Keep, Action::Unsupported),
            CommandComponent::Executable(name, _args, redirect) => {
                let builtin: Option<Builtin> = find_builtin(name.as_slice());
                let drive: bool = is_drive(name.as_slice());
                let plan: RedirectPlan = plan_redirect(redirect, builtin.is_some() || drive);
                match builtin {
                    Some(b) => (plan, Action::Run(b)),
                    None => (plan, if drive { Action::ChangeDrive } else { Action::External }),
                }
            },
        },
    }
}

/// Where output goes: a file, and the place in it of the next byte.
#[derive(Clone, Copy, PartialEq, Eq, Structural, Debug)]
pub struct Output {
    pub stdout: Handle,
    pub write_offset: u32,
}

/// Where output went before it was redirected, and the file that it goes to.
#[derive(Clone, Copy, PartialEq, Eq, Structural, Debug)]
pub struct SavedRedirect {
    pub stdout: Handle,
    pub write_offset: u32,
    pub file_handle: Option<Handle>,
}

/// What a redirection that is planned does once the file was opened. `byte_size` is
/// the size of the file. A file that could not be opened leaves the output alone.
pub open spec fn redirected(
    output: Output, plan: RedirectPlan, file: Handle, opened: bool, byte_size: u32,
) -> (Output, Option<SavedRedirect>) {
    if (plan == RedirectPlan::Overwrite || plan == RedirectPlan::Append) && opened {
        (
            Output {
                stdout: file,
                write_offset: if plan == RedirectPlan::Append { byte_size } else { 0 },
            },
            Some(
                SavedRedirect {
                    stdout: output.stdout,
                    write_offset: output.write_offset,
                    file_handle: Some(file),
                },
            ),
        )
    } else {
        (output, None)
    }
}

/// Redirect the output as planned.
pub fn setup_redirect(
    output: &mut Output,
    plan: RedirectPlan,
    file: Handle,
    opened: IoResult,
    byte_size: u32,
) -> (r: Option<SavedRedirect>)
    ensures
        (*final(output), r) == redirected(*old(output), plan, file, opened is Ok, byte_size),
{
    let append: bool = match plan {
        RedirectPlan::Keep => return None,
        RedirectPlan::Refuse => return None,
        RedirectPlan::Overwrite => false,
        RedirectPlan::Append => true,
    };
    if opened.is_err() {
        return None;
    }
    let saved: SavedRedirect = SavedRedirect {
        stdout: output.stdout,
        write_offset: output.write_offset,
        file_handle: Some(file),
    };
    output.stdout = file;
    output.write_offset = if append { byte_size } else { 0 };
    Some(saved)
}

/// What a plan prints about the redirection, given whether its file was opened.
pub fn redirect_message(plan: RedirectPlan, opened: bool) -> (r: Option<&'static str>)
    ensures
        match r {
            None => plan == RedirectPlan::Keep || (plan != RedirectPlan::Refuse && opened),
            Some(m) => (plan == RedirectPlan::Refuse && m@ == REDIRECT_REFUSED@) || ((plan
                == RedirectPlan::Overwrite || plan == RedirectPlan::Append) && !opened && m@
                == REDIRECT_FAILED@),
        },
{
    match plan {
        RedirectPlan::Keep => None,
        RedirectPlan::Refuse => Some(REDIRECT_REFUSED),
        _ => if opened { None } else { Some(REDIRECT_FAILED) },
    }
}

/// The output after a redirection ended.
pub open spec fn restored(output: Output, saved: Option<SavedRedirect>) -> Output {
    match saved {
        None => output,
        Some(s) => Output { stdout: s.stdout, write_offset: s.write_offset },
    }
}

/// Restore the output. Gives the file to close.
pub fn teardown_redirect(output: &mut Output, saved: Option<SavedRedirect>) -> (r: Option<Handle>)
    ensures
        *final(output) == restored(*old(output), saved),
        r == (match saved {
            None => None::<Handle>,
            Some(s) => s.file_handle,
        }),
{
    match saved {
        None => None,
        Some(s) => {
            output.stdout = s.stdout;
            output.write_offset = s.write_offset;
            s.file_handle
        },
    }
}

/// After a command, output goes where it went before, whatever the command wrote.
pub proof fn redirection_is_undone(
    output: Output, plan: RedirectPlan, file: Handle, opened: bool, byte_size: u32, written: u32,
)
    ensures
        ({
            let (during, saved) = redirected(output, plan, file, opened, byte_size);
            saved is Some ==> restored(Output { write_offset: written, ..during }, saved) == output
        }),
        ({
            let (during, saved) = redirected(output, plan, file, opened, byte_size);
            saved is None ==> during == output
        }),
{
}

/// The case of letters in a command's name does not matter.
pub proof fn names_ignore_case(a: Seq<u8>, b: Seq<u8>)
    requires
        upper_all(a) == upper_all(b),
    ensures
        builtin_named(upper_all(a)) == builtin_named(upper_all(b)),
        builtin_named(upper_all(upper_all(a))) == builtin_named(upper_all(a)),
{
    assert(upper_all(upper_all(a)) =~= upper_all(a));
}

} // verus!
