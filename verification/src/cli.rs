//! The command line: one of four commands with its arguments.
use vstd::prelude::*;

verus! {

/// The parsed command line.
pub struct Options {
    pub args: Argument,
}

/// The command the user asked for.
pub enum Argument {
    /// Install the plain game of version `version` as the game `name`.
    Install { version: String, name: String },
    /// Install the mods of the modpack index `file` into the game `name`.
    Modpack { file: String, name: String },
    /// List the launcher profiles.
    List {},
    /// Write the start script of a modded game.
    Generate { game_path: String, client: String, mod_json: Option<String>, output_path: String },
}

} // verus!
