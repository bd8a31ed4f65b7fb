//! The command line, and what it asks for.

use vstd::prelude::*;
use crate::history::{bash_name, zsh_name};
use crate::text::{chars_of, contains, is_substring};

verus! {

/// The largest number of entries that is loaded where none is given.
pub const DEFAULT_LIMIT: usize = 50_000;

/// The arguments of the command line.
#[derive(Debug)]
pub struct Args {
    /// The shell to print or install the integration for, if asked.
    pub init: Option<String>,
    /// The query to start with.
    pub query: Option<String>,
    /// The history file to read instead of the user's own.
    pub file: Option<String>,
    /// The largest number of entries to load; 0 for all.
    pub limit: usize,
}

/// A shell that the tool integrates with.
#[derive(Clone, Copy, Debug, PartialEq, Eq, Structural)]
pub enum Shell {
    Zsh,
    Bash,
}

/// What the command line asks for.
#[derive(Clone, Copy, Debug, PartialEq, Eq, Structural)]
pub enum Startup {
    /// Print the integration script of a shell.
    PrintScript(Shell),
    /// Install the integration into the profile of the user's shell.
    Install,
    /// The shell named is none that the tool integrates with.
    UnknownShell,
    /// Search the history.
    Search,
}

pub open spec fn auto_name() -> Seq<char> {
    seq!['a', 'u', 't', 'o']
}

/// The text that a profile holds once the integration is installed.
pub open spec fn init_mark() -> Seq<char> {
    seq!['i', 'h', 'i', 's', 't', 'o', 'r', 'y', ' ', '-', '-', 'i', 'n', 'i', 't']
}

/// What an `init` argument asks for.
pub open spec fn startup_of(init: Option<Seq<char>>) -> Startup {
    match init {
        None => Startup::Search,
        Some(name) => if name == zsh_name() {
            Startup::PrintScript(Shell::Zsh)
        } else if name == bash_name() {
            Startup::PrintScript(Shell::Bash)
        } else if name == auto_name() {
            Startup::Install
        } else {
            Startup::UnknownShell
        },
    }
}

/// The shell that the name of the user's shell stands for: zsh if it holds
/// `zsh`, else bash if it holds `bash`.
pub open spec fn shell_of(name: Seq<char>) -> Option<Shell> {
    if is_substring(zsh_name(), name) {
        Some(Shell::Zsh)
    } else if is_substring(bash_name(), name) {
        Some(Shell::Bash)
    } else {
        None
    }
}

/// Whether two texts are the same.
fn same_text(a: &Vec<char>, b: &Vec<char>) -> (same: bool)
    ensures
        same == (a@ == b@),
{
    if a.len() != b.len() {
        return false;
    }
    let mut i: usize = 0;
    while i < a.len()
        invariant
            a.len() == b.len(),
            i <= a.len(),
            forall|k: int| 0 <= k < i ==> a@[k] == b@[k],
        decreases a.len() - i,
    {
        if a[i] != b[i] {
            return false;
        }
        i += 1;
    }
    assert(a@ =~= b@);
    true
}

impl Args {
    /// What the command line asks for.
    pub fn startup(&self) -> (startup: Startup)
        ensures
            startup == startup_of(
                match self.init {
                    Some(name) => Some(name@),
                    None => None,
                },
            ),
    {
        match &self.init {
            None => Startup::Search,
            Some(name) => {
                let chars = chars_of(name.as_str());
                let zsh: Vec<char> = vec!['z', 's', 'h'];
                let bash: Vec<char> = vec!['b', 'a', 's', 'h'];
                let auto: Vec<char> = vec!['a', 'u', 't', 'o'];
                assert(zsh@ =~= zsh_name());
                assert(bash@ =~= bash_name());
                assert(auto@ =~= auto_name());
                if same_text(&chars, &zsh) {
                    Startup::PrintScript(Shell::Zsh)
                } else if same_text(&chars, &bash) {
                    Startup::PrintScript(Shell::Bash)
                } else if same_text(&chars, &auto) {
                    Startup::Install
                } else {
                    Startup::UnknownShell
                }
            },
        }
    }
}

impl Shell {
    /// The name of the shell, as text.
    pub open spec fn name_text(self) -> Seq<char> {
        match self {
            Shell::Zsh => "zsh"@,
            Shell::Bash => "bash"@,
        }
    }

    /// The shell that the name of the user's shell stands for.
    pub fn from_env(name: &str) -> (shell: Option<Shell>)
        ensures
            shell == shell_of(name@),
    {
        let chars = chars_of(name);
        let zsh: Vec<char> = vec!['z', 's', 'h'];
        let bash: Vec<char> = vec!['b', 'a', 's', 'h'];
        assert(zsh@ =~= zsh_name());
        assert(bash@ =~= bash_name());
        if contains(&chars, &zsh) {
            Some(Shell::Zsh)
        } else if contains(&chars, &bash) {
            Some(Shell::Bash)
        } else {
            None
        }
    }

    /// The name of the shell.
    pub fn name(self) -> (name: &'static str)
        ensures
            name@ == self.name_text(),
    {
        match self {
            Shell::Zsh => "zsh",
            Shell::Bash => "bash",
        }
    }

    /// The name of the shell's profile in the home directory.
    pub fn profile_name(self) -> (name: &'static str)
        ensures
            name@ == match self {
                Shell::Zsh => ".zshrc"@,
                Shell::Bash => ".bashrc"@,
            },
    {
        match self {
            Shell::Zsh => ".zshrc",
            Shell::Bash => ".bashrc",
        }
    }

    /// The lines that install the integration in the shell's profile.
    pub fn eval_line(self) -> (line: String)
        ensures
            line@ == "\neval \"$(ihistory --init "@ + self.name_text() + ")\"\n"@,
    {
        let mut line = String::from_str("\neval \"$(ihistory --init ");
        line.append(self.name());
        line.append(")\"\n");
        line
    }
}

/// Whether the integration is installed in a profile with these contents.
pub fn is_configured(contents: &str) -> (configured: bool)
    ensures
        configured == is_substring(init_mark(), contents@),
{
    let chars = chars_of(contents);
    let mark: Vec<char> = vec![
        'i', 'h', 'i', 's', 't', 'o', 'r', 'y', ' ', '-', '-', 'i', 'n', 'i', 't',
    ];
    assert(mark@ =~= init_mark());
    contains(&chars, &mark)
}

} // verus!
