//! The command line of the launcher: its subcommands and their options.
use vstd::prelude::*;

verus! {

/// The command line.
#[derive(Debug, Clone)]
pub struct Cli {
    pub command: Option<Command>,
}

/// A subcommand.
#[derive(Debug, Clone)]
pub enum Command {
    /// List Minecraft versions found in the game directory.
    Versions {
        /// Game directory override (defaults to auto-detection).
        game_dir: Option<String>,
    },
    /// Launch a Minecraft version.
    Launch {
        /// Version name (a folder under versions/ with <name>.jar + <name>.json).
        version: String,
        /// Game directory (required — the launcher will not guess).
        game_dir: String,
        /// Offline username (letters, digits, underscores; 3–16 chars).
        username: Option<String>,
        /// Maximum heap for the game (-Xmx), e.g. "4G" or "4096M".
        ram: String,
        /// Server address to auto-connect to (host or host:port).
        server: Option<String>,
        /// Print every log line from the game (default: errors only).
        all_logs: bool,
        /// Print the launch command instead of running it.
        dry_run: bool,
    },
}

} // verus!
