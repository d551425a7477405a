//! The command line: subcommands and their arguments.
use vstd::prelude::*;

use crate::config::PlatformArch;

verus! {

/// The whole command line.
#[derive(Debug)]
pub struct Cli {
    pub command: Command,
}

/// The subcommands.
#[derive(Debug)]
pub enum Command {
    /// Run the 1C executable with the specified connection target and infobase reference.
    Run(RunArgs),
    /// Check the existence and size of an infobase on a DB server.
    Check(CheckArgs),
    /// Dump the infobase to a .dt file.
    Dump(DumpArgs),
    /// Clean up orphaned cache folders (not associated with registered infobases in ibases.v8i file).
    Clean(CleanArgs),
    /// Configure baza settings.
    Config(ConfigArgs),
}

/// Arguments of `run`.
#[derive(Debug)]
pub struct RunArgs {
    /// Connection target: file path, web URL, 1C server name, or full connection string.
    /// If omitted, the connection string is read from the clipboard.
    pub target: Option<String>,
    /// When `target` is a 1C server name, this is the infobase reference on that server.
    pub base: Option<String>,
    /// Read the connection string from stdin instead of arguments or clipboard.
    pub stdin: bool,
    /// Username to use for infobase authentication.
    pub username: Option<String>,
    /// Password to use for infobase authentication.
    pub password: Option<String>,
    /// Prompt for infobase credentials in the terminal (password hidden).
    pub auth: bool,
    /// Open the infobase in the 1C Designer.
    pub designer: bool,
    /// Use the x86 version of the 1C executable.
    pub x86: bool,
    /// Use the x86_64 version of the 1C executable.
    pub x86_64: bool,
}

/// Arguments of `check`.
#[derive(Debug)]
pub struct CheckArgs {
    /// Infobase name as it appears on the DB server.
    pub name: String,
    /// Restrict the check to a specific DB server from the config.
    pub server: Option<String>,
    /// Report the size of the infobase instead of just existence.
    pub size: bool,
    /// Report the size in bytes instead of human-readable format.
    pub bytes: bool,
    /// Check the servers synchronously (preserves base order from config).
    pub sync: bool,
}

/// Arguments of `dump`.
#[derive(Debug)]
pub struct DumpArgs {
    /// Database server name.
    pub server: String,
    /// Database base name as it appears on the DB server.
    pub name: String,
    /// Username to use for infobase authentication; prompted for where absent.
    pub ib_username: Option<String>,
    /// Password to use for infobase authentication; prompted for where absent.
    pub ib_password: Option<String>,
    /// Platform architecture.
    pub arch: Option<PlatformArch>,
    /// Platform version (`N.N.N.N`).
    pub platform_version: Option<String>,
    /// Output .dt file path.
    pub out: Option<String>,
    /// Show verbose output.
    pub verbose: bool,
}

/// Arguments of `clean`.
#[derive(Debug)]
pub struct CleanArgs {
    /// Show what would be removed without deleting anything.
    pub dry_run: bool,
    /// Remove all cache folders, not just orphaned.
    pub all: bool,
}

/// Arguments of `config`.
#[derive(Debug)]
pub struct ConfigArgs {
    /// Open the config folder in the default file explorer.
    pub open: bool,
}

} // verus!
