//! What holds of the names of commands.
use vstd::prelude::*;

use crate::command::dispatch::{
    builtin_named, tree_action, tree_redirect, Action, Builtin, CommandComponent, CommandTree,
    RedirectOutput, RedirectPlan,
};
use crate::text::{text, upper_all};

verus! {

/// The names of the commands.
pub open spec fn command_names() -> Seq<(&'static str, Builtin)> {
    seq![
        ("CD", Builtin::Cd),
        ("CHDIR", Builtin::Cd),
        ("CLS", Builtin::Cls),
        ("COLOR", Builtin::Color),
        ("COPY", Builtin::Copy),
        ("DEL", Builtin::Del),
        ("ERASE", Builtin::Del),
        ("DIR", Builtin::Dir),
        ("DRIVES", Builtin::Drives),
        ("APPEND", Builtin::Append),
        ("ECHO", Builtin::Echo),
        ("HELP", Builtin::Help),
        ("MD", Builtin::Mkdir),
        ("MKDIR", Builtin::Mkdir),
        ("MOVE", Builtin::Move),
        ("PROMPT", Builtin::Prompt),
        ("RD", Builtin::Rmdir),
        ("RMDIR", Builtin::Rmdir),
        ("REN", Builtin::Ren),
        ("RENAME", Builtin::Ren),
        ("TYPE", Builtin::Type),
        ("VER", Builtin::Ver),
    ]
}

/// Strings with the same bytes are the same.
pub proof fn texts_tell_strings_apart(a: &str, b: &str)
    requires
        text(a) == text(b),
    ensures
        a@ == b@,
{
    vstd::utf8::encode_utf8_decode_utf8(a@);
    vstd::utf8::encode_utf8_decode_utf8(b@);
}

proof fn lemma_literals()
    ensures
        forall|i: int|
            0 <= i < command_names().len() ==> builtin_named(
                text((#[trigger] command_names()[i]).0),
            ) == Some(command_names()[i].1),
{
    reveal_strlit("CD");
    reveal_strlit("CHDIR");
    reveal_strlit("CLS");
    reveal_strlit("COLOR");
    reveal_strlit("COPY");
    reveal_strlit("DEL");
    reveal_strlit("ERASE");
    reveal_strlit("DIR");
    reveal_strlit("DRIVES");
    reveal_strlit("APPEND");
    reveal_strlit("ECHO");
    reveal_strlit("HELP");
    reveal_strlit("MD");
    reveal_strlit("MKDIR");
    reveal_strlit("MOVE");
    reveal_strlit("PROMPT");
    reveal_strlit("RD");
    reveal_strlit("RMDIR");
    reveal_strlit("REN");
    reveal_strlit("RENAME");
    reveal_strlit("TYPE");
    reveal_strlit("VER");
    assert forall|a: &str, b: &str| #[trigger] text(a) == #[trigger] text(b) implies a@ == b@ by {
        texts_tell_strings_apart(a, b);
    }
    assert("CHDIR"@[1] != "COLOR"@[1]);
    assert("CLS"@[0] != "DEL"@[0]);
    assert("CHDIR"@[0] != "ERASE"@[0]);
    assert("COLOR"@[0] != "ERASE"@[0]);
    assert("CLS"@[0] != "DIR"@[0]);
    assert("DEL"@[1] != "DIR"@[1]);
    assert("DRIVES"@[0] != "APPEND"@[0]);
    assert("COPY"@[0] != "ECHO"@[0]);
    assert("COPY"@[0] != "HELP"@[0]);
    assert("ECHO"@[0] != "HELP"@[0]);
    assert("CD"@[0] != "MD"@[0]);
    assert("CHDIR"@[0] != "MKDIR"@[0]);
    assert("COLOR"@[0] != "MKDIR"@[0]);
    assert("ERASE"@[0] != "MKDIR"@[0]);
    assert("COPY"@[0] != "MOVE"@[0]);
    assert("ECHO"@[0] != "MOVE"@[0]);
    assert("HELP"@[0] != "MOVE"@[0]);
    assert("DRIVES"@[0] != "PROMPT"@[0]);
    assert("APPEND"@[0] != "PROMPT"@[0]);
    assert("CD"@[0] != "RD"@[0]);
    assert("MD"@[0] != "RD"@[0]);
    assert("CHDIR"@[0] != "RMDIR"@[0]);
    assert("COLOR"@[0] != "RMDIR"@[0]);
    assert("ERASE"@[0] != "RMDIR"@[0]);
    assert("MKDIR"@[0] != "RMDIR"@[0]);
    assert("CLS"@[0] != "REN"@[0]);
    assert("DEL"@[0] != "REN"@[0]);
    assert("DIR"@[0] != "REN"@[0]);
    assert("DRIVES"@[0] != "RENAME"@[0]);
    assert("APPEND"@[0] != "RENAME"@[0]);
    assert("PROMPT"@[0] != "RENAME"@[0]);
    assert("COPY"@[0] != "TYPE"@[0]);
    assert("ECHO"@[0] != "TYPE"@[0]);
    assert("HELP"@[0] != "TYPE"@[0]);
    assert("MOVE"@[0] != "TYPE"@[0]);
    assert("CLS"@[0] != "VER"@[0]);
    assert("DEL"@[0] != "VER"@[0]);
    assert("DIR"@[0] != "VER"@[0]);
    assert("REN"@[0] != "VER"@[0]);
    assert(builtin_named(text("CD")) == Some(Builtin::Cd));
    assert(builtin_named(text("CHDIR")) == Some(Builtin::Cd));
    assert(builtin_named(text("CLS")) == Some(Builtin::Cls));
    assert(builtin_named(text("COLOR")) == Some(Builtin::Color));
    assert(builtin_named(text("COPY")) == Some(Builtin::Copy));
    assert(builtin_named(text("DEL")) == Some(Builtin::Del));
    assert(builtin_named(text("ERASE")) == Some(Builtin::Del));
    assert(builtin_named(text("DIR")) == Some(Builtin::Dir));
    assert(builtin_named(text("DRIVES")) == Some(Builtin::Drives));
    assert(builtin_named(text("APPEND")) == Some(Builtin::Append));
    assert(builtin_named(text("ECHO")) == Some(Builtin::Echo));
    assert(builtin_named(text("HELP")) == Some(Builtin::Help));
    assert(builtin_named(text("MD")) == Some(Builtin::Mkdir));
    assert(builtin_named(text("MKDIR")) == Some(Builtin::Mkdir));
    assert(builtin_named(text("MOVE")) == Some(Builtin::Move));
    assert(builtin_named(text("PROMPT")) == Some(Builtin::Prompt));
    assert(builtin_named(text("RD")) == Some(Builtin::Rmdir));
    assert(builtin_named(text("RMDIR")) == Some(Builtin::Rmdir));
    assert(builtin_named(text("REN")) == Some(Builtin::Ren));
    assert(builtin_named(text("RENAME")) == Some(Builtin::Ren));
    assert(builtin_named(text("TYPE")) == Some(Builtin::Type));
    assert(builtin_named(text("VER")) == Some(Builtin::Ver));
}

/// Each name leads to its command, and no other name leads to a command.
pub proof fn commands_have_their_names(name: Seq<u8>, i: int)
    requires
        0 <= i < command_names().len(),
    ensures
        builtin_named(text(command_names()[i].0)) == Some(command_names()[i].1),
        builtin_named(name) matches Some(b) ==> exists|k: int|
            0 <= k < command_names().len() && name == text((#[trigger] command_names()[k]).0) && b
                == command_names()[k].1,
{
    lemma_literals();
    assert(builtin_named(text(command_names()[i].0)) == Some(command_names()[i].1));
    if let Some(b) = builtin_named(name) {
        let all = command_names();
        assert(all[0] == ("CD", Builtin::Cd));
        assert(all[1] == ("CHDIR", Builtin::Cd));
        assert(all[2] == ("CLS", Builtin::Cls));
        assert(all[3] == ("COLOR", Builtin::Color));
        assert(all[4] == ("COPY", Builtin::Copy));
        assert(all[5] == ("DEL", Builtin::Del));
        assert(all[6] == ("ERASE", Builtin::Del));
        assert(all[7] == ("DIR", Builtin::Dir));
        assert(all[8] == ("DRIVES", Builtin::Drives));
        assert(all[9] == ("APPEND", Builtin::Append));
        assert(all[10] == ("ECHO", Builtin::Echo));
        assert(all[11] == ("HELP", Builtin::Help));
        assert(all[12] == ("MD", Builtin::Mkdir));
        assert(all[13] == ("MKDIR", Builtin::Mkdir));
        assert(all[14] == ("MOVE", Builtin::Move));
        assert(all[15] == ("PROMPT", Builtin::Prompt));
        assert(all[16] == ("RD", Builtin::Rmdir));
        assert(all[17] == ("RMDIR", Builtin::Rmdir));
        assert(all[18] == ("REN", Builtin::Ren));
        assert(all[19] == ("RENAME", Builtin::Ren));
        assert(all[20] == ("TYPE", Builtin::Type));
        assert(all[21] == ("VER", Builtin::Ver));
    }
}

/// Every command can be reached.
pub proof fn every_command_has_a_name(b: Builtin) -> (i: int)
    ensures
        0 <= i < command_names().len(),
        builtin_named(text(command_names()[i].0)) == Some(b),
{
    lemma_literals();
    let i: int = match b {
        Builtin::Cd => 0,
        Builtin::Cls => 2,
        Builtin::Color => 3,
        Builtin::Copy => 4,
        Builtin::Del => 5,
        Builtin::Dir => 7,
        Builtin::Drives => 8,
        Builtin::Append => 9,
        Builtin::Echo => 10,
        Builtin::Help => 11,
        Builtin::Mkdir => 12,
        Builtin::Move => 14,
        Builtin::Prompt => 15,
        Builtin::Rmdir => 16,
        Builtin::Ren => 18,
        Builtin::Type => 20,
        Builtin::Ver => 21,
    };
    assert(command_names()[i].1 == b);
    i
}

/// A line that begins with the name of a command, in letters of either case, runs it, and its
/// output goes where the line says.
pub proof fn lines_run_the_commands_they_name(
    name: Vec<u8>, args: Vec<Vec<u8>>, redirect: RedirectOutput, i: int,
)
    requires
        0 <= i < command_names().len(),
        upper_all(name@) == text(command_names()[i].0),
    ensures
        ({
            let tree = CommandTree {
                root: Some(CommandComponent::Executable(name, args, redirect)),
            };
            &&& tree_action(tree) == Action::Run(command_names()[i].1)
            &&& tree_redirect(tree) == (match redirect {
                RedirectOutput::Unchanged => RedirectPlan::Keep,
                RedirectOutput::Overwrite(_) => RedirectPlan::Overwrite,
                RedirectOutput::Append(_) => RedirectPlan::Append,
            })
        }),
{
    commands_have_their_names(name@, i);
}

/// A line whose first word names no command is a drive, where the word is letters and a colon,
/// and else a program. Only a program refuses to have its output sent elsewhere.
pub proof fn other_lines_are_drives_or_programs(
    name: Vec<u8>, args: Vec<Vec<u8>>, redirect: RedirectOutput,
)
    requires
        forall|i: int|
            0 <= i < command_names().len() ==> upper_all(name@) != text(
                (#[trigger] command_names()[i]).0,
            ),
    ensures
        ({
            let tree = CommandTree {
                root: Some(CommandComponent::Executable(name, args, redirect)),
            };
            let drive = name@.len() > 0 && name@.last() == 0x3A && forall|i: int|
                0 <= i < name@.len() - 1 ==> 0x41 <= #[trigger] name@[i] <= 0x5A || 0x61 <= name@[i]
                    <= 0x7A;
            &&& tree_action(tree) == (if drive { Action::ChangeDrive } else { Action::External })
            &&& tree_action(tree) == Action::External && !(redirect is Unchanged) ==> tree_redirect(
                tree,
            ) == RedirectPlan::Refuse
            &&& redirect is Unchanged ==> tree_redirect(tree) == RedirectPlan::Keep
        }),
{
    if builtin_named(upper_all(name@)) is Some {
        commands_have_their_names(upper_all(name@), 0);
        let k = choose|k: int|
            0 <= k < command_names().len() && upper_all(name@) == text(
                (#[trigger] command_names()[k]).0,
            ) && builtin_named(upper_all(name@)) == Some(command_names()[k].1);
        assert(upper_all(name@) != text(command_names()[k].0));
    }
}

} // verus!
