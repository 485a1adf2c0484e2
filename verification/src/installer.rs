//! Installing: which version of the game to fetch, where each file of an
//! installation goes, what to download for a game or a modpack, and which
//! native libraries to unpack.
use vstd::prelude::*;
use vstd::string::*;
use crate::pattern::{is_plain_word, WordPattern};
use crate::text::{
    cat, cat3, chars_of, contains_sub, ends_with, str_contains, str_ends_with, string_of,
};

verus! {

/// One version that the version manifest offers.
pub struct Version {
    pub id: String,
    pub kind: String,
    pub url: String,
}

/// The position of the first version with id `id` in `versions`, if any.
pub fn find_version(versions: &Vec<Version>, id: &String) -> (r: Option<usize>)
    ensures
        match r {
            Some(i) => i < versions@.len() && versions@[i as int].id@ == id@ && forall|j: int|
                0 <= j < i ==> versions@[j].id@ != id@,
            None => forall|j: int| 0 <= j < versions@.len() ==> versions@[j].id@ != id@,
        },
{
    for i in 0..versions.len()
        invariant
            forall|j: int| 0 <= j < i ==> versions@[j].id@ != id@,
    {
        if versions[i].id == *id {
            return Some(i);
        }
    }
    None
}

/// Where the files of the game `name` (of game version `version`) go for
/// the user whose home is `home`.
pub struct InstallLayout {
    /// `<home>/.minecraft`
    pub root_path: String,
    /// `<root>/versions/<name>/version.json`
    pub version_json_file: String,
    /// `<root>/versions/<name>`
    pub version_dir: String,
    /// `<root>/versions/<name>/<version>.jar`
    pub client_jar: String,
    /// `<root>/assets/indexes`
    pub asset_index_dir: String,
    /// `<root>/assets/indexes/<version>.json`
    pub asset_index_file: String,
    /// `<root>/libraries/`
    pub libraries_dir: String,
    /// `<root>/versions/<name>/natives/`
    pub natives_dir: String,
    /// `<root>/versions/<name>/`
    pub game_dir: String,
    /// `<root>/launcher_profiles.json`
    pub profile_path: String,
}

/// The game's root directory.
pub open spec fn game_root(home: Seq<char>) -> Seq<char> {
    home + "/.minecraft"@
}

/// The directory of the installed game `name`.
pub open spec fn version_dir_of(home: Seq<char>, name: Seq<char>) -> Seq<char> {
    game_root(home) + "/versions/"@ + name
}

/// The layout is the one described on each field.
pub open spec fn is_layout(
    l: InstallLayout,
    home: Seq<char>,
    name: Seq<char>,
    version: Seq<char>,
) -> bool {
    let root = game_root(home);
    let dir = version_dir_of(home, name);
    &&& l.root_path@ == root
    &&& l.version_json_file@ == dir + "/version.json"@
    &&& l.version_dir@ == dir
    &&& l.client_jar@ == dir + "/"@ + version + ".jar"@
    &&& l.asset_index_dir@ == root + "/assets/indexes"@
    &&& l.asset_index_file@ == root + "/assets/indexes"@ + "/"@ + version + ".json"@
    &&& l.libraries_dir@ == root + "/libraries/"@
    &&& l.natives_dir@ == dir + "/natives/"@
    &&& l.game_dir@ == dir + "/"@
    &&& l.profile_path@ == root + "/launcher_profiles.json"@
}

/// Where the files of the game `name` of version `version` go.
pub fn install_layout(home: &String, name: &String, version: &String) -> (r: InstallLayout)
    ensures
        is_layout(r, home@, name@, version@),
{
    let root = cat(home.as_str(), "/.minecraft");
    let dir = cat3(root.as_str(), "/versions/", name.as_str());
    let mut client_jar = cat3(dir.as_str(), "/", version.as_str());
    client_jar.append(".jar");
    let asset_index_dir = cat(root.as_str(), "/assets/indexes");
    let mut asset_index_file = cat3(asset_index_dir.as_str(), "/", version.as_str());
    asset_index_file.append(".json");
    InstallLayout {
        version_json_file: cat(dir.as_str(), "/version.json"),
        client_jar,
        asset_index_file,
        asset_index_dir,
        libraries_dir: cat(root.as_str(), "/libraries/"),
        natives_dir: cat(dir.as_str(), "/natives/"),
        game_dir: cat(dir.as_str(), "/"),
        profile_path: cat(root.as_str(), "/launcher_profiles.json"),
        version_dir: dir,
        root_path: root,
    }
}

/// A file to fetch: from where, to where, and the SHA-1 digest (in
/// hexadecimal) it must have, if one is known.
pub struct DownloadTask {
    pub url: String,
    pub save_path: String,
    pub sha1: Option<String>,
}

/// The plain values of a download.
pub open spec fn task_view(t: DownloadTask) -> (Seq<char>, Seq<char>, Option<Seq<char>>) {
    (
        t.url@,
        t.save_path@,
        match t.sha1 {
            Some(s) => Some(s@),
            None => None,
        },
    )
}

/// A library that the game's `version.json` lists: its path below the
/// library directory, its digest and where to fetch it.
pub struct LibraryArtifact {
    pub path: String,
    pub sha1: String,
    pub url: String,
}

/// The download of library `a` into the game root `root`.
pub open spec fn library_task(root: Seq<char>, a: LibraryArtifact) -> (
    Seq<char>,
    Seq<char>,
    Option<Seq<char>>,
) {
    (a.url@, root + "/libraries/"@ + a.path@, Some(a.sha1@))
}

/// The downloads of all libraries `libraries` into the game root
/// `root_path`, in order; each is checked against the library's digest.
pub fn library_tasks(root_path: &String, libraries: &Vec<LibraryArtifact>) -> (r: Vec<DownloadTask>)
    ensures
        r@.len() == libraries@.len(),
        forall|i: int|
            0 <= i < r@.len() ==> task_view(#[trigger] r@[i]) == library_task(
                root_path@,
                libraries@[i],
            ),
{
    let mut r: Vec<DownloadTask> = Vec::new();
    for i in 0..libraries.len()
        invariant
            r@.len() == i,
            forall|k: int|
                0 <= k < i ==> task_view(#[trigger] r@[k]) == library_task(root_path@, libraries@[k]),
    {
        let a = &libraries[i];
        r.push(
            DownloadTask {
                url: a.url.clone(),
                save_path: cat3(root_path.as_str(), "/libraries/", a.path.as_str()),
                sha1: Some(a.sha1.clone()),
            },
        );
    }
    r
}

/// The number of bytes that `c` takes in UTF-8.
pub open spec fn utf8_width(c: char) -> int {
    if (c as u32) < 0x80 {
        1
    } else if (c as u32) < 0x800 {
        2
    } else if (c as u32) < 0x10000 {
        3
    } else {
        4
    }
}

/// The first two bytes of `hash` end on a character boundary (so that they
/// can be cut off as text).
pub open spec fn has_two_byte_prefix(hash: Seq<char>) -> bool {
    &&& hash.len() >= 1
    &&& (utf8_width(hash[0]) == 2 || (utf8_width(hash[0]) == 1 && hash.len() >= 2 && utf8_width(
        hash[1],
    ) == 1))
}

/// The characters of the first two bytes of `hash`.
pub open spec fn two_byte_prefix(hash: Seq<char>) -> Seq<char> {
    if utf8_width(hash[0]) == 2 {
        hash.take(1)
    } else {
        hash.take(2)
    }
}

/// The download of the asset object with digest `hash` into the game root
/// `root`: objects are stored, and served, under the first two digits of
/// their digest.
pub open spec fn asset_task(root: Seq<char>, hash: Seq<char>) -> (
    Seq<char>,
    Seq<char>,
    Option<Seq<char>>,
) {
    let prefix = two_byte_prefix(hash);
    (
        "https://resources.download.minecraft.net/"@ + prefix + "/"@ + hash,
        root + "/assets/objects/"@ + prefix + "/"@ + hash,
        Some(hash),
    )
}

/// The download of the asset object with digest `hash` into the game root
/// `root_path`.
pub fn asset_download(root_path: &String, hash: &String) -> (r: DownloadTask)
    requires
        has_two_byte_prefix(hash@),
    ensures
        task_view(r) == asset_task(root_path@, hash@),
{
    let chars = chars_of(hash.as_str());
    let mut prefix_chars: Vec<char> = Vec::new();
    prefix_chars.push(chars[0]);
    if (chars[0] as u32) < 0x80 {
        prefix_chars.push(chars[1]);
        assert(prefix_chars@ =~= hash@.take(2));
    } else {
        assert(prefix_chars@ =~= hash@.take(1));
    }
    let prefix = string_of(&prefix_chars);
    let mut url = cat3("https://resources.download.minecraft.net/", prefix.as_str(), "/");
    url.append(hash.as_str());
    let mut save_path = cat3(root_path.as_str(), "/assets/objects/", prefix.as_str());
    save_path.append("/");
    save_path.append(hash.as_str());
    DownloadTask { url, save_path, sha1: Some(hash.clone()) }
}

/// Whether the first two bytes of `hash` can be cut off as text.
pub fn hash_has_prefix(hash: &String) -> (r: bool)
    ensures
        r == has_two_byte_prefix(hash@),
{
    let chars = chars_of(hash.as_str());
    if chars.len() == 0 {
        return false;
    }
    let c0 = chars[0] as u32;
    if c0 < 0x80 {
        chars.len() >= 2 && (chars[1] as u32) < 0x80
    } else {
        c0 < 0x800
    }
}

/// Where the modpack `name` is installed for the user whose home is `home`.
pub fn modpack_dir(home: &String, name: &String) -> (r: String)
    ensures
        r@ == home@ + "/.minecraft/versions/"@ + name@,
{
    cat3(home.as_str(), "/.minecraft/versions/", name.as_str())
}

/// Whether the file `file` is taken for a Modrinth modpack index: its
/// name mentions `modrinth`.
pub fn is_modrinth_index(file: &String) -> (r: bool)
    ensures
        r == contains_sub(file@, "modrinth"@),
{
    proof {
        reveal_strlit("modrinth");
        assert(is_plain_word("modrinth"@));
    }
    let pattern = WordPattern::new("modrinth");
    pattern.is_match(file.as_str())
}

/// One file of a Modrinth modpack: where it goes below the pack's
/// directory, its SHA-1 digest and the addresses it can be fetched from.
pub struct ModFile {
    pub path: String,
    pub sha1: String,
    pub downloads: Vec<String>,
}

/// The download of modpack file `f` into the pack's directory `dir`: from
/// its first address, checked against its digest.
pub open spec fn mod_task(dir: Seq<char>, f: ModFile) -> (Seq<char>, Seq<char>, Option<Seq<char>>) {
    (f.downloads@[0]@, dir + "/"@ + f.path@, Some(f.sha1@))
}


/// A modpack file goes below the pack's directory exactly where the index
/// puts it: its save path is the directory, a `/`, and the index's path
/// unchanged, directories included; it is fetched from its first address
/// and checked against its digest.
pub proof fn law_mod_task_place(dir: Seq<char>, f: ModFile)
    requires
        f.downloads@.len() > 0,
    ensures
        ({
            let (url, save, sha1) = mod_task(dir, f);
            &&& save.len() == dir.len() + 1 + f.path@.len()
            &&& save.subrange(0, dir.len() as int) == dir
            &&& save[dir.len() as int] == '/'
            &&& save.subrange(dir.len() as int + 1, save.len() as int) == f.path@
            &&& url == f.downloads@[0]@
            &&& sha1 == Some(f.sha1@)
        }),
{
    reveal_strlit("/");
    let save = mod_task(dir, f).1;
    assert(save.subrange(0, dir.len() as int) =~= dir);
    assert(save.subrange(dir.len() as int + 1, save.len() as int) =~= f.path@);
}

/// The downloads of all files of a modpack into its directory
/// `modpack_path`, in order. A file without any address is refused by
/// `requires`.
pub fn modpack_tasks(modpack_path: &String, files: &Vec<ModFile>) -> (r: Vec<DownloadTask>)
    requires
        forall|i: int| 0 <= i < files@.len() ==> (#[trigger] files@[i]).downloads@.len() > 0,
    ensures
        r@.len() == files@.len(),
        forall|i: int|
            0 <= i < r@.len() ==> task_view(#[trigger] r@[i]) == mod_task(modpack_path@, files@[i]),
        forall|i: int|
            0 <= i < r@.len() ==> (#[trigger] r@[i]).save_path@ == modpack_path@ + "/"@ + files@[i].path@
                && r@[i].url@ == files@[i].downloads@[0]@ && r@[i].sha1 is Some && r@[i].sha1->0@
                == files@[i].sha1@,
{
    let mut r: Vec<DownloadTask> = Vec::new();
    for i in 0..files.len()
        invariant
            forall|k: int| 0 <= k < files@.len() ==> (#[trigger] files@[k]).downloads@.len() > 0,
            r@.len() == i,
            forall|k: int|
                0 <= k < i ==> task_view(#[trigger] r@[k]) == mod_task(modpack_path@, files@[k]),
    {
        let f = &files[i];
        assert(files@[i as int].downloads@.len() > 0);
        r.push(
            DownloadTask {
                url: f.downloads[0].clone(),
                save_path: cat3(modpack_path.as_str(), "/", f.path.as_str()),
                sha1: Some(f.sha1.clone()),
            },
        );
    }
    r
}

/// Whether every file of a modpack has an address to fetch it from.
pub fn all_have_downloads(files: &Vec<ModFile>) -> (r: bool)
    ensures
        r == forall|i: int| 0 <= i < files@.len() ==> (#[trigger] files@[i]).downloads@.len() > 0,
{
    for i in 0..files.len()
        invariant
            forall|k: int| 0 <= k < i ==> (#[trigger] files@[k]).downloads@.len() > 0,
    {
        if files[i].downloads.len() == 0 {
            return false;
        }
    }
    true
}

/// The loaders a Modrinth modpack depends on, and its game version.
pub struct LoaderVersions {
    pub fabric_loader: Option<String>,
    pub forge_loader: Option<String>,
    pub neoforge_loader: Option<String>,
    pub minecraft: String,
}

/// The report line of one loader the pack depends on (every loader is
/// reported under the label `fabric`).
pub open spec fn loader_line(minecraft: Seq<char>, loader: Option<String>) -> Seq<Seq<char>> {
    match loader {
        Some(v) => seq!["minecraft:"@ + minecraft + "\nfabric:"@ + v@],
        None => Seq::empty(),
    }
}

/// What installing a modpack reports of its dependencies: one line for each
/// loader it names (Fabric, Forge, NeoForge, in that order).
pub open spec fn loader_report(deps: LoaderVersions) -> Seq<Seq<char>> {
    loader_line(deps.minecraft@, deps.fabric_loader) + loader_line(deps.minecraft@, deps.forge_loader)
        + loader_line(deps.minecraft@, deps.neoforge_loader)
}

fn push_loader_line(lines: &mut Vec<String>, minecraft: &String, loader: &Option<String>)
    ensures
        final(lines).deep_view() == old(lines).deep_view() + loader_line(minecraft@, *loader),
{
    let ghost before = lines.deep_view();
    match loader {
        Some(v) => {
            let mut l = cat("minecraft:", minecraft.as_str());
            l.append("\nfabric:");
            l.append(v.as_str());
            lines.push(l);
            assert(lines.deep_view() =~= before + loader_line(minecraft@, *loader));
        },
        None => {
            assert(lines.deep_view() =~= before + loader_line(minecraft@, *loader));
        },
    }
}

/// The lines that report the loaders a modpack depends on.
pub fn loader_messages(deps: &LoaderVersions) -> (r: Vec<String>)
    ensures
        r.deep_view() == loader_report(*deps),
{
    let mut lines: Vec<String> = Vec::new();
    assert(lines.deep_view() =~= Seq::<Seq<char>>::empty());
    push_loader_line(&mut lines, &deps.minecraft, &deps.fabric_loader);
    push_loader_line(&mut lines, &deps.minecraft, &deps.forge_loader);
    push_loader_line(&mut lines, &deps.minecraft, &deps.neoforge_loader);
    lines
}

/// A jar of native libraries: a file whose extension is `jar` (the name
/// ends with `.jar` and has something before that dot) and whose name
/// mentions `natives`.
pub open spec fn is_native_jar_name(file_name: Seq<char>, is_file: bool) -> bool {
    &&& is_file
    &&& ends_with(file_name, ".jar"@)
    &&& file_name.len() > 4
    &&& contains_sub(file_name, "natives"@)
}

/// Whether a file named `file_name` is a jar of native libraries.
pub fn is_native_jar(file_name: &String, is_file: bool) -> (r: bool)
    ensures
        r == is_native_jar_name(file_name@, is_file),
{
    proof {
        reveal_strlit(".jar");
    }
    is_file && str_ends_with(file_name.as_str(), ".jar") && file_name.unicode_len() > 4
        && str_contains(file_name.as_str(), "natives")
}

/// A native library inside a jar: its name ends with `.so`, `.dll` or
/// `.dylib`.
pub open spec fn is_native_library_name(entry_name: Seq<char>) -> bool {
    ends_with(entry_name, ".so"@) || ends_with(entry_name, ".dll"@) || ends_with(entry_name, ".dylib"@)
}


/// `n` ends with the characters of `p`, compared one by one.
proof fn lemma_ends_with_chars(n: Seq<char>, p: Seq<char>)
    ensures
        ends_with(n, p) <==> (n.len() >= p.len() && forall|k: int|
            0 <= k < p.len() ==> #[trigger] n[n.len() - p.len() + k] == p[k]),
{
    if n.len() >= p.len() {
        let tail = n.subrange(n.len() - p.len(), n.len() as int);
        if ends_with(n, p) {
            assert forall|k: int| 0 <= k < p.len() implies #[trigger] n[n.len() - p.len() + k] == p[k] by {
                assert(tail[k] == n[n.len() - p.len() + k]);
            }
        }
        if forall|k: int| 0 <= k < p.len() ==> #[trigger] n[n.len() - p.len() + k] == p[k] {
            assert forall|k: int| 0 <= k < p.len() implies #[trigger] tail[k] == p[k] by {
                assert(tail[k] == n[n.len() - p.len() + k]);
            }
            assert(tail =~= p);
        }
    }
}

/// An entry is a native library exactly when its name ends in `.so`,
/// `.dll` or `.dylib`, character for character; so a name whose last
/// character is none of `o`, `l`, `b` (a `.sha1` or `.git` side file, for
/// instance) never is one, whatever it holds before.
pub proof fn law_native_library_name(n: Seq<char>)
    ensures
        is_native_library_name(n) <==> {
            let l = n.len() as int;
            ||| (l >= 3 && n[l - 3] == '.' && n[l - 2] == 's' && n[l - 1] == 'o')
            ||| (l >= 4 && n[l - 4] == '.' && n[l - 3] == 'd' && n[l - 2] == 'l' && n[l - 1] == 'l')
            ||| (l >= 6 && n[l - 6] == '.' && n[l - 5] == 'd' && n[l - 4] == 'y' && n[l - 3] == 'l'
                && n[l - 2] == 'i' && n[l - 1] == 'b')
        },
        (n.len() == 0 || (n.last() != 'o' && n.last() != 'l' && n.last() != 'b')) ==> !is_native_library_name(n),
{
    reveal_strlit(".so");
    reveal_strlit(".dll");
    reveal_strlit(".dylib");
    lemma_ends_with_chars(n, ".so"@);
    lemma_ends_with_chars(n, ".dll"@);
    lemma_ends_with_chars(n, ".dylib"@);
    let l = n.len() as int;
    let so = ".so"@;
    let dll = ".dll"@;
    let dylib = ".dylib"@;
    assert(ends_with(n, so) <==> (l >= 3 && n[l - 3] == '.' && n[l - 2] == 's' && n[l - 1] == 'o')) by {
        if l >= 3 {
            assert(n[l - 3 + 0] == n[l - 3] && n[l - 3 + 1] == n[l - 2] && n[l - 3 + 2] == n[l - 1]);
            if n[l - 3] == '.' && n[l - 2] == 's' && n[l - 1] == 'o' {
                assert forall|k: int| 0 <= k < 3 implies #[trigger] n[l - 3 + k] == so[k] by {
                    if k == 0 {} else if k == 1 {} else {}
                }
            }
        }
    }
    assert(ends_with(n, dll) <==> (l >= 4 && n[l - 4] == '.' && n[l - 3] == 'd' && n[l - 2] == 'l'
        && n[l - 1] == 'l')) by {
        if l >= 4 {
            assert(n[l - 4 + 0] == n[l - 4] && n[l - 4 + 1] == n[l - 3] && n[l - 4 + 2] == n[l - 2]
                && n[l - 4 + 3] == n[l - 1]);
            if n[l - 4] == '.' && n[l - 3] == 'd' && n[l - 2] == 'l' && n[l - 1] == 'l' {
                assert forall|k: int| 0 <= k < 4 implies #[trigger] n[l - 4 + k] == dll[k] by {
                    if k == 0 {} else if k == 1 {} else if k == 2 {} else {}
                }
            }
        }
    }
    assert(ends_with(n, dylib) <==> (l >= 6 && n[l - 6] == '.' && n[l - 5] == 'd' && n[l - 4] == 'y'
        && n[l - 3] == 'l' && n[l - 2] == 'i' && n[l - 1] == 'b')) by {
        if l >= 6 {
            assert(n[l - 6 + 0] == n[l - 6] && n[l - 6 + 1] == n[l - 5] && n[l - 6 + 2] == n[l - 4]
                && n[l - 6 + 3] == n[l - 3] && n[l - 6 + 4] == n[l - 2] && n[l - 6 + 5] == n[l - 1]);
            if n[l - 6] == '.' && n[l - 5] == 'd' && n[l - 4] == 'y' && n[l - 3] == 'l' && n[l - 2] == 'i'
                && n[l - 1] == 'b' {
                assert forall|k: int| 0 <= k < 6 implies #[trigger] n[l - 6 + k] == dylib[k] by {
                    if k == 0 {} else if k == 1 {} else if k == 2 {} else if k == 3 {} else if k == 4 {} else {}
                }
            }
        }
    }
    if l > 0 {
        assert(n.last() == n[l - 1]);
    }
}

/// Whether the jar entry named `entry_name` is a native library.
pub fn is_native_library(entry_name: &String) -> (r: bool)
    ensures
        r == is_native_library_name(entry_name@),
{
    str_ends_with(entry_name.as_str(), ".so") || str_ends_with(entry_name.as_str(), ".dll")
        || str_ends_with(entry_name.as_str(), ".dylib")
}

/// The last component of the entry path `name`: what follows its last `/`
/// (all of it when there is none).
pub open spec fn last_component(name: Seq<char>) -> Seq<char> {
    if exists|i: int| 0 <= i < name.len() && name[i] == '/' {
        let k = choose|k: int|
            0 <= k < name.len() && name[k] == '/' && forall|j: int| k < j < name.len() ==> name[j] != '/';
        name.subrange(k + 1, name.len() as int)
    } else {
        name
    }
}

/// The file name that a native library is unpacked under: the last
/// component of its entry path (for such a name, what `Path::file_name`
/// gives).
pub fn native_file_name(entry_name: &String) -> (r: String)
    requires
        is_native_library_name(entry_name@),
    ensures
        r@ == last_component(entry_name@),
{
    let chars = chars_of(entry_name.as_str());
    let n = chars.len();
    let mut i: usize = n;
    while i > 0 && chars[i - 1] != '/'
        invariant
            chars@ == entry_name@,
            n == chars@.len(),
            i <= n,
            forall|j: int| i <= j < n ==> chars@[j] != '/',
        decreases i,
    {
        i = i - 1;
    }
    let mut out: Vec<char> = Vec::new();
    let mut j: usize = i;
    while j < n
        invariant
            chars@ == entry_name@,
            n == chars@.len(),
            i <= j <= n,
            out@ == chars@.subrange(i as int, j as int),
        decreases n - j,
    {
        out.push(chars[j]);
        assert(out@ =~= chars@.subrange(i as int, j + 1));
        j = j + 1;
    }
    let ghost s = entry_name@;
    proof {
        if i > 0 {
            let k = (i - 1) as int;
            assert(s[k] == '/');
            let c = choose|c: int|
                0 <= c < s.len() && s[c] == '/' && forall|j: int| c < j < s.len() ==> s[j] != '/';
            if c < k {
                assert(s[k] != '/');
            }
            if c > k {
                assert(s[c] != '/');
            }
            assert(c == k);
        } else {
            assert(out@ =~= s);
            assert(!exists|k: int| 0 <= k < s.len() && s[k] == '/');
        }
    }
    string_of(&out)
}

} // verus!
