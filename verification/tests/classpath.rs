use wml::lib_get_fabric;
use wml::lib_get_forgelike;

fn strings(items: &[&str]) -> Vec<String> {
    items.iter().map(|s| s.to_string()).collect()
}

#[test]
fn forgelike_game_libraries_only() {
    let home = "/home/u".to_string();
    let libs = strings(&["a/a.jar", "b/b.jar"]);
    let cp = lib_get_forgelike::lib_get(&home, &libs, None);
    assert_eq!(cp, "/home/u/.minecraft/libraries/a/a.jar:/home/u/.minecraft/libraries/b/b.jar");
}

#[test]
fn forgelike_removes_repeats_and_puts_bootstrap_first() {
    let home = "/h".to_string();
    let libs = strings(&["a.jar", "b.jar", "a.jar"]);
    let loader = strings(&["cpw/bootstraplauncher-1.1.jar", "b.jar", "c.jar"]);
    let cp = lib_get_forgelike::lib_get(&home, &libs, Some(&loader));
    assert_eq!(
        cp,
        "/h/.minecraft/libraries/cpw/bootstraplauncher-1.1.jar:/h/.minecraft/libraries/a.jar:/h/.minecraft/libraries/b.jar:/h/.minecraft/libraries/c.jar"
    );
}

#[test]
fn forgelike_keeps_only_the_last_bootstrap_entry() {
    let home = "/h".to_string();
    let libs = strings(&["bootstraplauncher-1.jar", "x.jar"]);
    let loader = strings(&["bootstraplauncher-2.jar"]);
    let cp = lib_get_forgelike::lib_get(&home, &libs, Some(&loader));
    assert_eq!(cp, "/h/.minecraft/libraries/bootstraplauncher-2.jar:/h/.minecraft/libraries/x.jar");
}

#[test]
fn forgelike_empty_lists_give_empty_classpath() {
    let home = "/h".to_string();
    let cp = lib_get_forgelike::lib_get(&home, &Vec::new(), Some(&Vec::new()));
    assert_eq!(cp, "");
}

#[test]
fn maven_coordinate_to_file() {
    let home = "/home/u".to_string();
    assert_eq!(
        lib_get_fabric::maven_name_to_path("net.fabricmc:fabric-loader:0.15.0", &home),
        "/home/u/.minecraft/libraries/net/fabricmc/fabric-loader/0.15.0/fabric-loader-0.15.0.jar"
    );
}

#[test]
fn maven_coordinates_need_three_parts() {
    assert!(lib_get_fabric::is_maven_coordinate("a:b:c"));
    assert!(!lib_get_fabric::is_maven_coordinate("a:b"));
    assert!(!lib_get_fabric::is_maven_coordinate("a:b:c:d"));
    assert!(lib_get_fabric::is_maven_coordinate("::"));
}

#[test]
fn split_char_matches_str_split() {
    for s in ["a:b:c", "", ":", "a::b", "abc", ":x:"] {
        let expected: Vec<String> = s.split(':').map(|p| p.to_string()).collect();
        assert_eq!(lib_get_fabric::split_char(s, ':'), expected);
    }
}

#[test]
fn fabric_classpath_joins_game_and_loader_files_once() {
    let home = "/h".to_string();
    let libs = strings(&["org/ow2/asm/asm/9.6/asm-9.6.jar", "x.jar"]);
    let loader = strings(&["org.ow2.asm:asm:9.6", "net.fabricmc:intermediary:1.20.1"]);
    let cp = lib_get_fabric::lib_get(&home, &libs, Some(&loader));
    assert_eq!(
        cp,
        "/h/.minecraft/libraries/org/ow2/asm/asm/9.6/asm-9.6.jar:/h/.minecraft/libraries/x.jar:/h/.minecraft/libraries/net/fabricmc/intermediary/1.20.1/intermediary-1.20.1.jar"
    );
}

#[test]
fn fabric_without_loader_json() {
    let home = "/h".to_string();
    let libs = strings(&["x.jar", "x.jar"]);
    assert_eq!(lib_get_fabric::lib_get(&home, &libs, None), "/h/.minecraft/libraries/x.jar");
}

#[test]
fn loader_libraries_only_add_entries() {
    let home = "/h".to_string();
    let libs = strings(&["a.jar", "bootstraplauncher.jar", "b.jar"]);
    let loader = strings(&["c.jar", "a.jar"]);
    let alone = lib_get_forgelike::lib_get(&home, &libs, None);
    let with = lib_get_forgelike::lib_get(&home, &libs, Some(&loader));
    let with_entries: Vec<&str> = with.split(':').collect();
    for e in alone.split(':') {
        assert!(with_entries.contains(&e));
    }
}

#[test]
fn loader_libraries_only_add_pieces_even_with_colons() {
    let home = "/mnt/c:/h".to_string();
    let libs = strings(&["a:b.jar", "x.jar"]);
    let loader = strings(&["c.jar"]);
    let alone = lib_get_forgelike::lib_get(&home, &libs, None);
    let with = lib_get_forgelike::lib_get(&home, &libs, Some(&loader));
    let with_pieces: Vec<&str> = with.split(':').collect();
    for piece in alone.split(':') {
        assert!(with_pieces.contains(&piece));
    }
}
