//! A command-line launcher for Minecraft: installs plain games and
//! modpacks, keeps the launcher profiles, and writes start scripts.
pub mod text;
mod pattern;
pub mod classpath;
pub mod cli;
pub mod digest;
pub mod generate_launch_script;
pub mod init;
pub mod installer;
pub mod json;
pub mod launcher_profile;
pub mod lib_get_fabric;
pub mod lib_get_forgelike;

pub use cli::{Argument, Options};
pub use launcher_profile::{GameProfiles, LauncherProfile};
