//! Which terminal emulator to start next to a script, and with which
//! arguments. The functions here only choose; starting a program is left to
//! the caller.

use crate::text::str_equals;
use vstd::prelude::*;
use vstd::string::StringExecFns;

verus! {

/// The values of a sequence of strings.
pub open spec fn strings_view(strings: Seq<String>) -> Seq<Seq<char>> {
    Seq::new(strings.len(), |i: int| strings[i]@)
}

/// The terminal emulators that are tried when the user names none, in the
/// order in which they are tried.
pub open spec fn default_terminals() -> Seq<Seq<char>> {
    seq![
        "x-terminal-emulator"@,
        "xdg-terminal-exec"@,
        "gnome-terminal"@,
        "konsole"@,
        "xfce4-terminal"@,
        "kitty"@,
        "alacritty"@,
    ]
}

/// The terminal emulators to try: the one that the user prefers, if any,
/// then the usual ones.
pub open spec fn candidates(preferred: Option<Seq<char>>) -> Seq<Seq<char>> {
    match preferred {
        Some(name) => seq![name] + default_terminals(),
        None => default_terminals(),
    }
}

/// The terminal emulators to try, in order: the one that the user prefers,
/// if any, then the usual ones.
pub fn terminal_candidates(preferred: Option<String>) -> (names: Vec<String>)
    ensures
        strings_view(names@) == candidates(
            match preferred {
                Some(name) => Some(name@),
                None => None,
            },
        ),
{
    let mut names: Vec<String> = Vec::new();
    match preferred {
        Some(name) => {
            names.push(name);
        },
        None => {},
    }
    let ghost head = strings_view(names@);
    names.push(String::from_str("x-terminal-emulator"));
    names.push(String::from_str("xdg-terminal-exec"));
    names.push(String::from_str("gnome-terminal"));
    names.push(String::from_str("konsole"));
    names.push(String::from_str("xfce4-terminal"));
    names.push(String::from_str("kitty"));
    names.push(String::from_str("alacritty"));
    proof {
        assert(strings_view(names@) =~= head + default_terminals());
    }
    names
}

/// A terminal emulator and the option that tells it where to start.
#[derive(Clone, Copy, Debug, PartialEq, Eq)]
pub struct TerminalCommand {
    pub program: &'static str,
    pub directory_option: &'static str,
}

/// The terminal emulator of a desktop environment and the option that tells
/// it where to start, for the environments that have a terminal of their
/// own.
pub open spec fn terminal_of_desktop(desktop: Seq<char>) -> Option<(Seq<char>, Seq<char>)> {
    if desktop == "GNOME"@ || desktop == "Unity"@ {
        Some(("gnome-terminal"@, "--working-directory"@))
    } else if desktop == "KDE"@ {
        Some(("konsole"@, "--workdir"@))
    } else if desktop == "XFCE"@ {
        Some(("xfce4-terminal"@, "--working-directory"@))
    } else {
        None
    }
}

/// The terminal emulator of a desktop environment, for the environments
/// that have one of their own.
pub fn desktop_terminal(desktop: &str) -> (command: Option<TerminalCommand>)
    ensures
        match command {
            Some(c) => terminal_of_desktop(desktop@) == Some((c.program@, c.directory_option@)),
            None => terminal_of_desktop(desktop@) is None,
        },
{
    if str_equals(desktop, "GNOME") || str_equals(desktop, "Unity") {
        Some(TerminalCommand { program: "gnome-terminal", directory_option: "--working-directory" })
    } else if str_equals(desktop, "KDE") {
        Some(TerminalCommand { program: "konsole", directory_option: "--workdir" })
    } else if str_equals(desktop, "XFCE") {
        Some(TerminalCommand { program: "xfce4-terminal", directory_option: "--working-directory" })
    } else {
        None
    }
}

/// The terminal emulators that are tried on a desktop without one of its
/// own, in order. Each is started with a shell command to run.
pub fn fallback_terminals() -> (names: Vec<&'static str>)
    ensures
        names@.len() == 4,
        names@[0]@ == "x-terminal-emulator"@,
        names@[1]@ == "xterm"@,
        names@[2]@ == "rxvt"@,
        names@[3]@ == "urxvt"@,
{
    let mut names: Vec<&'static str> = Vec::new();
    names.push("x-terminal-emulator");
    names.push("xterm");
    names.push("rxvt");
    names.push("urxvt");
    names
}

/// The shell command that a fallback terminal runs: change to the
/// directory, then become an interactive shell.
pub fn change_directory_command(dir: &str) -> (command: String)
    ensures
        command@ == "cd '"@ + dir@ + "'; exec bash"@,
{
    let mut command = String::from_str("cd '");
    command.append(dir);
    command.append("'; exec bash");
    command
}

/// The argument that asks the file manager to show a folder.
pub fn show_folder_argument(dir: &str) -> (argument: String)
    ensures
        argument@ == "array:string:\"file://"@ + dir@ + "\""@,
{
    let mut argument = String::from_str("array:string:\"file://");
    argument.append(dir);
    argument.append("\"");
    argument
}

} // verus!
