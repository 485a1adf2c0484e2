# wml

A command-line launcher for Minecraft on Linux: it installs plain games and
Modrinth modpacks, keeps `~/.minecraft/launcher_profiles.json`, lists the
installed games and writes the `start.sh` script that starts a game, plain
or through a mod loader (Fabric, Forge, NeoForge).

- `src/` is the library, each function with a proved contract: classpaths (`lib_get_fabric`,
  `lib_get_forgelike`), start scripts and paths (`generate_launch_script`),
  launcher profiles (`launcher_profile`), install plans (`installer`,
  `init`), SHA-1 checks (`digest`) and JSON re-indenting (`json`).
- `app/` is the program around it: command line, files, network and the
  parallel downloads.
- `tests/` runs the library on concrete inputs.

Usage is unchanged: `wml install -v 1.21.8 --name whatever`, `wml list`,
`wml generate --game-path ~/.minecraft/versions/1.21.8/ --client NeoForge
--mod-json <loader>.json --output-path <dir>`, `wml modpack --file
<modrinth.index.json> --name whatever`.

Collections: the launcher profiles are kept in a `Vec` of key/profile pairs
whose keys are unique (a type invariant of `LauncherProfile`), in the order
they were stored; the classpath builders remove repeated entries with a
`Vec`, keeping the first occurrence of each. `app/` converts to and from the
`HashMap` that `launcher_profiles.json` is read into.
