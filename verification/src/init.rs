//! The directory that a command installs into.
use vstd::prelude::*;
use vstd::string::*;
use crate::cli::Argument;
use crate::text::cat;

verus! {

/// The directory that `arg` installs into, for the user whose home is
/// `home`: a plain game goes to `<home>/.minecraft/versions/<name>`, a
/// modpack to `<home>/.wml/minecraft/versions/<name>`; the other commands
/// install nothing.
pub open spec fn target_dir(arg: Argument, home: Seq<char>) -> Option<Seq<char>> {
    match arg {
        Argument::Install { version, name } => Some(home + "/.minecraft/versions/"@ + name@),
        Argument::Modpack { file, name } => Some(home + "/.wml/minecraft/versions/"@ + name@),
        _ => None,
    }
}

/// The directory that the command `arg` installs into, if any.
pub fn install_target_dir(arg: &Argument, home: &String) -> (r: Option<String>)
    ensures
        match target_dir(*arg, home@) {
            Some(d) => r is Some && r->0@ == d,
            None => r is None,
        },
{
    match arg {
        Argument::Install { version: _, name } => {
            let mut p = cat(home.as_str(), "/.minecraft/versions/");
            p.append(name.as_str());
            Some(p)
        },
        Argument::Modpack { file: _, name } => {
            let mut p = cat(home.as_str(), "/.wml/minecraft/versions/");
            p.append(name.as_str());
            Some(p)
        },
        _ => None,
    }
}

} // verus!
