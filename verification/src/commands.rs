//! The values the command line hands the library: shells, OSes, output
//! formats, and the argument records of the subcommands that take them.
use vstd::prelude::*;

use crate::domain::{Os, Shell};
use crate::text::{str_eq, trim, trim_str};

verus! {

/// The `--shell` values the command line accepts.
#[derive(Debug, Clone, Copy, PartialEq, Eq, Structural)]
pub enum ShellArg {
    Bash,
    Zsh,
    PowerShell,
    Cmd,
}

/// Output format for `cuvm ls`.
#[derive(Debug, Clone, Copy, PartialEq, Eq, Structural)]
pub enum OutputFormat {
    Text,
    Json,
}

/// The `--os` override of the hidden `env`/`hook` plumbing commands.
#[derive(Debug, Clone, Copy, PartialEq, Eq, Structural)]
pub enum OsArg {
    Linux,
    Windows,
}

/// The shell a `--shell` value names.
pub open spec fn shell_of(s: ShellArg) -> Shell {
    match s {
        ShellArg::Bash => Shell::Bash,
        ShellArg::Zsh => Shell::Zsh,
        ShellArg::PowerShell => Shell::PowerShell,
        ShellArg::Cmd => Shell::Cmd,
    }
}

/// The OS an `--os` value names.
pub open spec fn os_of(o: OsArg) -> Os {
    match o {
        OsArg::Linux => Os::Linux,
        OsArg::Windows => Os::Windows,
    }
}

impl From<ShellArg> for Shell {
    fn from(s: ShellArg) -> (r: Shell) {
        match s {
            ShellArg::Bash => Shell::Bash,
            ShellArg::Zsh => Shell::Zsh,
            ShellArg::PowerShell => Shell::PowerShell,
            ShellArg::Cmd => Shell::Cmd,
        }
    }
}

impl vstd::std_specs::convert::FromSpecImpl<ShellArg> for Shell {
    open spec fn obeys_from_spec() -> bool {
        true
    }

    open spec fn from_spec(v: ShellArg) -> Shell {
        shell_of(v)
    }
}

impl From<OsArg> for Os {
    fn from(o: OsArg) -> (r: Os) {
        match o {
            OsArg::Linux => Os::Linux,
            OsArg::Windows => Os::Windows,
        }
    }
}

impl vstd::std_specs::convert::FromSpecImpl<OsArg> for Os {
    open spec fn obeys_from_spec() -> bool {
        true
    }

    open spec fn from_spec(v: OsArg) -> Os {
        os_of(v)
    }
}

/// The OS scripts are emitted for: an explicit `--os` wins, else the host's.
pub fn resolve_os(os: Option<OsArg>, host_windows: bool) -> (r: Os)
    ensures
        r == match os {
            Some(o) => os_of(o),
            None => if host_windows {
                Os::Windows
            } else {
                Os::Linux
            },
        },
{
    match os {
        Some(o) => Os::from(o),
        None => if host_windows {
            Os::Windows
        } else {
            Os::Linux
        },
    }
}

/// The root command line; the subcommand is read by the binary.
#[derive(Debug)]
pub struct Cli {}

/// Arguments of `cuvm which`.
#[derive(Debug)]
pub struct WhichArgs {
    /// Version spec to look up.
    pub spec: String,
}

/// Arguments of `cuvm use`.
#[derive(Debug)]
pub struct UseArgs {
    /// Optional spec; omitted means the pin of the current directory or the default.
    pub spec: Option<String>,
    /// Target shell of the emitted script (bash when not given).
    pub shell: ShellArg,
}

/// Arguments of `cuvm default`.
#[derive(Debug)]
pub struct DefaultArgs {
    /// Version spec to set as default.
    pub spec: String,
    /// Also create the opt-in `current` link.
    pub link: bool,
}

/// Arguments of `cuvm alias`.
#[derive(Debug)]
pub struct AliasArgs {
    /// Alias name.
    pub name: String,
    /// Target spec.
    pub target: String,
}

/// Arguments of `cuvm unalias`.
#[derive(Debug)]
pub struct UnaliasArgs {
    /// Alias name to remove.
    pub name: String,
}

/// Arguments of `cuvm pin`.
#[derive(Debug)]
pub struct PinArgs {
    /// Version spec to write to `.cuda-version`.
    pub spec: String,
}

/// `cuvm cudnn <...>`.
#[derive(Debug)]
pub enum CudnnCommand {
    /// Download a cuDNN (or take a local redist archive) and link it into an
    /// installed toolkit.
    Install { what: String, for_toolkit: String, accept_eula: bool },
    /// List cuDNN payloads and their toolkits.
    Ls,
}

/// `cuvm nccl <...>`.
#[derive(Debug)]
pub enum NcclCommand {
    /// Download an NCCL (or take a local archive) and link it into an
    /// installed toolkit.
    Install { what: String, for_toolkit: String },
    /// List NCCL payloads and their toolkits.
    Ls,
}

/// `cuvm self <...>`.
#[derive(Debug)]
pub enum SelfCommand {
    /// Remove the cuvm binary and its data directory.
    Uninstall { yes: bool },
    /// Replace the running cuvm with a newer release (or the one asked for).
    Update { check: bool, force: bool, version: Option<String> },
}

/// Whether an answer to a `[y/N]` prompt confirms: `y`, `Y` or `yes`,
/// surrounding whitespace aside.
pub fn confirms(answer: &str) -> (r: bool)
    ensures
        r == (trim(answer@) == "y"@ || trim(answer@) == "Y"@ || trim(answer@) == "yes"@),
{
    let t = trim_str(answer);
    str_eq(t.as_str(), "y") || str_eq(t.as_str(), "Y") || str_eq(t.as_str(), "yes")
}

} // verus!
