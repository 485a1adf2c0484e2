use wml::digest::{sha1_hex, sha1_matches, text_sha1_hex, to_hex_lower};
use wml::init::install_target_dir;
use wml::installer::{
    all_have_downloads, asset_download, find_version, hash_has_prefix, install_layout,
    is_modrinth_index, is_native_jar, is_native_library, library_tasks, loader_messages,
    modpack_dir, modpack_tasks, native_file_name, LibraryArtifact, LoaderVersions, ModFile,
    Version,
};
use wml::json::{pretty_json, JsonFormatError};
use wml::Argument;

fn s(x: &str) -> String {
    x.to_string()
}

#[test]
fn sha1_of_known_inputs() {
    assert_eq!(sha1_hex(b"abc"), "a9993e364706816aba3e25717850c26c9cd0d89d");
    assert_eq!(sha1_hex(b""), "da39a3ee5e6b4b0d3255bfef95601890afd80709");
    assert_eq!(text_sha1_hex("abc"), "a9993e364706816aba3e25717850c26c9cd0d89d");
}

#[test]
fn hex_is_two_lower_case_digits_per_byte() {
    assert_eq!(to_hex_lower(&[0x00, 0x0f, 0xa0, 0xff]), "000fa0ff");
    assert_eq!(to_hex_lower(&[]), "");
}

#[test]
fn checksum_check() {
    let good = s("a9993e364706816aba3e25717850c26c9cd0d89d");
    let upper = s("A9993E364706816ABA3E25717850C26C9CD0D89D");
    assert!(sha1_matches(b"abc", Some(&good)));
    assert!(!sha1_matches(b"abd", Some(&good)));
    assert!(!sha1_matches(b"abc", Some(&upper)));
    assert!(sha1_matches(b"anything", None));
    let own = sha1_hex(b"some bytes");
    assert!(sha1_matches(b"some bytes", Some(&own)));
    assert_eq!(own.len(), 40);
}

#[test]
fn finding_a_version() {
    let versions = vec![
        Version { id: s("1.20.1"), kind: s("release"), url: s("u1") },
        Version { id: s("1.21"), kind: s("release"), url: s("u2") },
        Version { id: s("1.21"), kind: s("snapshot"), url: s("u3") },
    ];
    assert_eq!(find_version(&versions, &s("1.21")), Some(1));
    assert_eq!(find_version(&versions, &s("1.20.1")), Some(0));
    assert_eq!(find_version(&versions, &s("9")), None);
}

#[test]
fn layout_of_an_installation() {
    let l = install_layout(&s("/home/u"), &s("mygame"), &s("1.20.1"));
    assert_eq!(l.root_path, "/home/u/.minecraft");
    assert_eq!(l.version_json_file, "/home/u/.minecraft/versions/mygame/version.json");
    assert_eq!(l.version_dir, "/home/u/.minecraft/versions/mygame");
    assert_eq!(l.client_jar, "/home/u/.minecraft/versions/mygame/1.20.1.jar");
    assert_eq!(l.asset_index_dir, "/home/u/.minecraft/assets/indexes");
    assert_eq!(l.asset_index_file, "/home/u/.minecraft/assets/indexes/1.20.1.json");
    assert_eq!(l.libraries_dir, "/home/u/.minecraft/libraries/");
    assert_eq!(l.natives_dir, "/home/u/.minecraft/versions/mygame/natives/");
    assert_eq!(l.game_dir, "/home/u/.minecraft/versions/mygame/");
    assert_eq!(l.profile_path, "/home/u/.minecraft/launcher_profiles.json");
}

#[test]
fn library_downloads() {
    let libs = vec![LibraryArtifact { path: s("a/b.jar"), sha1: s("ff"), url: s("https://x/a/b.jar") }];
    let tasks = library_tasks(&s("/r"), &libs);
    assert_eq!(tasks.len(), 1);
    assert_eq!(tasks[0].url, "https://x/a/b.jar");
    assert_eq!(tasks[0].save_path, "/r/libraries/a/b.jar");
    assert_eq!(tasks[0].sha1.as_deref(), Some("ff"));
}

#[test]
fn asset_downloads_go_under_the_digest_prefix() {
    let hash = s("bdf48ef6b5d0d23bbb02e17d04865216179f510a");
    assert!(hash_has_prefix(&hash));
    let t = asset_download(&s("/r"), &hash);
    assert_eq!(
        t.url,
        "https://resources.download.minecraft.net/bd/bdf48ef6b5d0d23bbb02e17d04865216179f510a"
    );
    assert_eq!(t.save_path, "/r/assets/objects/bd/bdf48ef6b5d0d23bbb02e17d04865216179f510a");
    assert_eq!(t.sha1.as_deref(), Some("bdf48ef6b5d0d23bbb02e17d04865216179f510a"));
}

#[test]
fn asset_prefix_is_two_bytes() {
    let hash = s("éa");
    assert!(hash_has_prefix(&hash));
    let t = asset_download(&s("/r"), &hash);
    assert_eq!(t.save_path, format!("/r/assets/objects/{}/{}", &hash[0..2], hash));
    assert!(!hash_has_prefix(&s("a")));
    assert!(!hash_has_prefix(&s("aé")));
    assert!(!hash_has_prefix(&s("")));
}

#[test]
fn modpack_planning() {
    assert_eq!(modpack_dir(&s("/h"), &s("pack")), "/h/.minecraft/versions/pack");
    assert!(is_modrinth_index(&s("/d/modrinth.index.json")));
    assert!(!is_modrinth_index(&s("/d/pack.json")));
    assert!(!is_modrinth_index(&s("/d/Modrinth.index.json")));
    let files = vec![
        ModFile { path: s("mods/a.jar"), sha1: s("11"), downloads: vec![s("https://a"), s("https://b")] },
        ModFile { path: s("config/x.toml"), sha1: s("22"), downloads: vec![s("https://c")] },
    ];
    assert!(all_have_downloads(&files));
    let tasks = modpack_tasks(&s("/h/.minecraft/versions/pack"), &files);
    assert_eq!(tasks.len(), 2);
    assert_eq!(tasks[0].url, "https://a");
    assert_eq!(tasks[0].save_path, "/h/.minecraft/versions/pack/mods/a.jar");
    assert_eq!(tasks[1].sha1.as_deref(), Some("22"));
    let none = vec![ModFile { path: s("p"), sha1: s("0"), downloads: vec![] }];
    assert!(!all_have_downloads(&none));
}

#[test]
fn loader_report_lines() {
    let deps = LoaderVersions {
        fabric_loader: Some(s("0.15.0")),
        forge_loader: None,
        neoforge_loader: Some(s("21.8.31")),
        minecraft: s("1.21.8"),
    };
    assert_eq!(
        loader_messages(&deps),
        vec![s("minecraft:1.21.8\nfabric:0.15.0"), s("minecraft:1.21.8\nfabric:21.8.31")]
    );
}

#[test]
fn native_jars_and_libraries() {
    assert!(is_native_jar(&s("lwjgl-3.3.1-natives-linux.jar"), true));
    assert!(!is_native_jar(&s("lwjgl-3.3.1-natives-linux.jar"), false));
    assert!(!is_native_jar(&s("lwjgl-3.3.1.jar"), true));
    assert!(!is_native_jar(&s("natives.zip"), true));
    assert!(is_native_library(&s("linux/x64/org/lwjgl/liblwjgl.so")));
    assert!(is_native_library(&s("lwjgl.dll")));
    assert!(is_native_library(&s("a/liblwjgl.dylib")));
    assert!(!is_native_library(&s("META-INF/MANIFEST.MF")));
    assert_eq!(native_file_name(&s("linux/x64/org/lwjgl/liblwjgl.so")), "liblwjgl.so");
    assert_eq!(native_file_name(&s("lwjgl.dll")), "lwjgl.dll");
}

#[test]
fn json_is_reindented() {
    assert_eq!(pretty_json("{\"a\":[1,2]}").unwrap(), "{\n  \"a\": [\n    1,\n    2\n  ]\n}");
    assert_eq!(pretty_json("{oops"), Err(JsonFormatError::Invalid));
}

#[test]
fn install_targets() {
    let home = s("/home/u");
    let install = Argument::Install { version: s("1.20.1"), name: s("g") };
    let modpack = Argument::Modpack { file: s("f"), name: s("p") };
    assert_eq!(install_target_dir(&install, &home).as_deref(), Some("/home/u/.minecraft/versions/g"));
    assert_eq!(install_target_dir(&modpack, &home).as_deref(), Some("/home/u/.wml/minecraft/versions/p"));
    assert_eq!(install_target_dir(&Argument::List {}, &home), None);
}

#[test]
fn json_reindenting_matches_serde_json_and_settles() {
    let text = "{\"b\": {\"c\": [true, null, \"x\"]}, \"a\": 1}";
    let once = pretty_json(text).unwrap();
    let value: serde_json::Value = serde_json::from_str(text).unwrap();
    assert_eq!(once, serde_json::to_string_pretty(&value).unwrap());
    assert_eq!(pretty_json(&once).unwrap(), once);
}
