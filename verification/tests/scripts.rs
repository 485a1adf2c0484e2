use wml::generate_launch_script::{
    generate_launch_sh, generate_launch_sh_after_install, list_profiles, loaders_needed,
    normalize_path, start_script_file, version_json_of, Game, MainClass,
};
use wml::launcher_profile::generate_launch_profile;
use wml::{GameProfiles, LauncherProfile};

fn s(x: &str) -> String {
    x.to_string()
}

fn profile(name: &str, version: &str) -> GameProfiles {
    GameProfiles {
        gameDir: None,
        javaDir: None,
        lastVersionId: s(version),
        name: s(name),
        profile_type: s("custom"),
    }
}

#[test]
fn normalize_home_relative_path() {
    let home = s("/home/u");
    let cwd = s("/work");
    assert_eq!(normalize_path(&s("~/games/x"), Some(&home), Some(&cwd)), "/home/u/games/x");
    assert_eq!(normalize_path(&s("~/~/x"), Some(&home), Some(&cwd)), "/home/u/x");
    assert_eq!(normalize_path(&s("~/x"), Some(&s("/home/u/")), Some(&cwd)), "/home/u/x");
    assert_eq!(normalize_path(&s("~//abs"), Some(&home), Some(&cwd)), "/abs");
}

#[test]
fn normalize_relative_and_absolute_paths() {
    let home = s("/home/u");
    let cwd = s("/work");
    assert_eq!(normalize_path(&s("rel/p"), Some(&home), Some(&cwd)), "/work/rel/p");
    assert_eq!(normalize_path(&s("/abs/p/"), Some(&home), Some(&cwd)), "/abs/p/");
    assert_eq!(normalize_path(&s(""), Some(&home), Some(&cwd)), "/work/");
    assert_eq!(normalize_path(&s("~/x"), None, Some(&cwd)), "/work/~/x");
    assert_eq!(normalize_path(&s("rel"), None, None), "rel");
}

#[test]
fn normalize_twice_is_normalize_once() {
    let home = s("/home/u");
    let cwd = s("/work");
    for p in ["~/a", "b/c", "/d", "", "~/~/e", "~"] {
        let once = normalize_path(&s(p), Some(&home), Some(&cwd));
        let twice = normalize_path(&once, Some(&home), Some(&cwd));
        assert_eq!(once, twice);
        assert!(once.starts_with('/'));
    }
}

#[test]
fn vanilla_script_after_install() {
    let script = generate_launch_sh_after_install(
        &s("/h/.minecraft/versions/g/"),
        &s("1.20.1"),
        &s("/l/a.jar:/l/b.jar"),
        &s("vanilla"),
        &s("/h"),
    )
    .unwrap();
    let expected = [
        "#!/bin/sh",
        "/usr/bin/java \\",
        "-Xmx8024m \\",
        "-Xmn128m \\",
        "-XX:+UseG1GC \\",
        "-XX:-UseAdaptiveSizePolicy \\",
        "-Djava.library.path=/h/.minecraft/versions/g//natives \\",
        "-cp \"/l/a.jar:/l/b.jar:1.20.1.jar\" \\",
        "net.minecraft.client.main.Main \\",
        "--version 1.20.1 \\",
        "--gameDir /h/.minecraft/versions/g/ \\",
        "--assetsDir /h/.minecraft/assets \\",
        "--assetIndex 1.20.1 \\",
        "--username whiterely \\",
        "--accessToken 0 \\",
        "--userType legacy",
    ]
    .join("\n");
    assert_eq!(script, expected);
}

#[test]
fn no_script_after_installing_a_modded_client() {
    let r = generate_launch_sh_after_install(&s("/o"), &s("1"), &s("l"), &s("fabric"), &s("/h"));
    assert!(r.is_none());
}

#[test]
fn script_paths() {
    assert_eq!(start_script_file(&s("/o")), "/o/start.sh");
    assert_eq!(version_json_of(&s("/g/")), "/g/version.json");
}

fn loader_json() -> MainClass {
    MainClass {
        inheritsFrom: s("1.20.1"),
        mainClass: s("cpw.mods.bootstraplauncher.BootstrapLauncher"),
        arguments: Game { game: vec![s("--launchTarget"), s("forgeclient")], jvm: vec![s("-Dx=1")] },
    }
}

#[test]
fn modded_script_for_a_forge_profile() {
    let mut profiles = LauncherProfile::new();
    profiles.insert(s("k1"), profile("neo", "neoforge-21.8.31"));
    profiles.insert(s("k2"), profile("other", "fabric-loader-0.15"));
    assert_eq!(loaders_needed(&profiles, &s("neo")), (false, true));
    let forge = s("/cp/a.jar");
    let script = generate_launch_sh(
        &s("/h"),
        &s("/h/.minecraft/versions/1.20.1/"),
        &s("/out"),
        &s("neo"),
        &profiles,
        &loader_json(),
        None,
        Some(&forge),
    )
    .unwrap();
    let expected = [
        "#!/bin/sh",
        "export library_directory=\"/h/.minecraft/libraries\"",
        "export classpath_separator=\":\"",
        "export version_name=\"1.20.1\"",
        "/usr/bin/java \\",
        "--add-opens java.base/java.lang.invoke=ALL-UNNAMED \\",
        "--add-opens java.base/java.nio=ALL-UNNAMED \\",
        "--add-opens java.base/sun.nio.fs=ALL-UNNAMED \\",
        "-Xmx8024m \\",
        "-Xmn128m \\",
        "-XX:+UseG1GC \\",
        "-XX:-UseAdaptiveSizePolicy \\",
        "-Djava.library.path=/h/.minecraft/versions/1.20.1/natives \\",
        "-Dx=1 -Dx=1  \\",
        "-cp \"/cp/a.jar:/h/.minecraft/versions/1.20.1/1.20.1.jar\" \\",
        "cpw.mods.bootstraplauncher.BootstrapLauncher \\",
        "--launchTarget forgeclient  \\",
        "--version 1.20.1 \\",
        "--gameDir /out \\",
        "--assetsDir /h/.minecraft/assets \\",
        "--assetIndex 1.20.1 \\",
        "--username whiterely \\",
        "--accessToken 0 \\",
        "--userType legacy",
    ]
    .join("\n");
    assert_eq!(script, expected);
}

#[test]
fn modded_script_for_a_fabric_profile() {
    let mut profiles = LauncherProfile::new();
    profiles.insert(s("k"), profile("fab", "fabric-loader-0.15-1.20.1"));
    assert_eq!(loaders_needed(&profiles, &s("fab")), (true, false));
    assert_eq!(loaders_needed(&profiles, &s("nobody")), (false, false));
    let fabric = s("/cp/f.jar");
    let script = generate_launch_sh(
        &s("/h"),
        &s("/g/"),
        &s("/out"),
        &s("fab"),
        &profiles,
        &loader_json(),
        Some(&fabric),
        None,
    )
    .unwrap();
    let lines: Vec<&str> = script.split('\n').collect();
    assert_eq!(lines.len(), 24);
    assert_eq!(lines[13], " \\");
    assert_eq!(lines[14], "-cp \"/cp/f.jar:/g/1.20.1.jar\" \\");
    assert_eq!(lines[16], " \\");
}

#[test]
fn no_matching_profile_gives_empty_parts() {
    let mut profiles = LauncherProfile::new();
    profiles.insert(s("k"), profile("someone", "1.20.1"));
    let script = generate_launch_sh(
        &s("/h"),
        &s("/g/"),
        &s("/out"),
        &s("x"),
        &profiles,
        &loader_json(),
        None,
        None,
    )
    .unwrap();
    let lines: Vec<&str> = script.split('\n').collect();
    assert_eq!(lines[14], "-cp \":/g/1.20.1.jar\" \\");
}

#[test]
fn listing_profiles() {
    let mut profiles = LauncherProfile::new();
    profiles.insert(s("k1"), profile("a", "1.20.1"));
    profiles.insert(s("k2"), profile("b", "fabric"));
    let lines = list_profiles(&profiles);
    assert_eq!(
        lines,
        vec![
            s("Profile key: k1"),
            s("Name: a"),
            s("Last Version: 1.20.1"),
            s(""),
            s("Profile key: k2"),
            s("Name: b"),
            s("Last Version: fabric"),
            s(""),
        ]
    );
}

#[test]
fn recording_a_game_profile() {
    let mut profiles = LauncherProfile::new();
    generate_launch_profile(&mut profiles, s("1.20.1"), s("abc"), &s("/home/u"));
    assert_eq!(profiles.len(), 1);
    let (key, p) = profiles.entry(0);
    assert_eq!(key, "a9993e364706816aba3e25717850c26c9cd0d89d");
    assert_eq!(p.gameDir.as_deref(), Some("/home/u/.minecraft/versions/abc/"));
    assert_eq!(p.javaDir.as_deref(), Some("/usr/bin/java"));
    assert_eq!(p.lastVersionId, "1.20.1");
    assert_eq!(p.name, "abc");
    assert_eq!(p.profile_type, "custom");
}

#[test]
fn recording_the_same_game_twice_keeps_one_profile() {
    let mut profiles = LauncherProfile::new();
    profiles.insert(s("first"), profile("x", "1"));
    generate_launch_profile(&mut profiles, s("1.20.1"), s("abc"), &s("/h"));
    generate_launch_profile(&mut profiles, s("1.21"), s("abc"), &s("/h"));
    assert_eq!(profiles.len(), 2);
    let (key, p) = profiles.entry(1);
    assert_eq!(key, "a9993e364706816aba3e25717850c26c9cd0d89d");
    assert_eq!(p.lastVersionId, "1.21");
    assert_eq!(profiles.entry(0).0, "first");
}

#[test]
fn profiles_from_entries_keep_the_last_of_a_key() {
    let entries = vec![(s("k"), profile("a", "1")), (s("j"), profile("b", "2")), (s("k"), profile("c", "3"))];
    let profiles = LauncherProfile::from_entries(entries);
    assert_eq!(profiles.len(), 2);
    assert_eq!(profiles.find(&s("k")), Some(0));
    assert_eq!(profiles.entry(0).1.name, "c");
    assert_eq!(profiles.find(&s("zz")), None);
    let back = profiles.into_entries();
    assert_eq!(back.len(), 2);
    assert_eq!(back[1].0, "j");
}

#[test]
fn profiles_survive_taking_apart_and_rebuilding() {
    let mut profiles = LauncherProfile::new();
    profiles.insert(s("b"), profile("x", "1"));
    profiles.insert(s("a"), profile("y", "2"));
    let rebuilt = LauncherProfile::from_entries(profiles.into_entries());
    assert_eq!(rebuilt.len(), 2);
    assert_eq!(rebuilt.entry(0).0, "b");
    assert_eq!(rebuilt.entry(1).1.name, "y");
}

#[test]
fn no_profiles_no_script() {
    let profiles = LauncherProfile::new();
    let script = generate_launch_sh(
        &s("/h"),
        &s("/g/"),
        &s("/out"),
        &s("x"),
        &profiles,
        &loader_json(),
        None,
        None,
    );
    assert!(script.is_none());
}

#[test]
fn script_does_not_depend_on_profile_order() {
    let make = |first: bool| {
        let mut profiles = LauncherProfile::new();
        if first {
            profiles.insert(s("k1"), profile("neo", "neoforge-21"));
            profiles.insert(s("k2"), profile("other", "fabric-x"));
        } else {
            profiles.insert(s("k2"), profile("other", "fabric-x"));
            profiles.insert(s("k1"), profile("neo", "neoforge-21"));
        }
        let forge = s("/cp/a.jar");
        generate_launch_sh(&s("/h"), &s("/g/"), &s("/o"), &s("neo"), &profiles, &loader_json(), None, Some(&forge))
    };
    assert_eq!(make(true), make(false));
}
