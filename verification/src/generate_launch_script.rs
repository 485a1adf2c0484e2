//! Start scripts: the paths a user gives, made absolute, and the text of the
//! shell script that starts an installed game (plain, or through a mod
//! loader chosen by the user's launcher profiles).
use vstd::prelude::*;
use vstd::string::*;
use crate::launcher_profile::{keys_unique, GameProfilesView, LauncherProfile};
use crate::pattern::{is_plain_word, WordPattern};
use crate::text::{
    cat, concat_all, contains_sub, join, join_strings, owned, starts_with, str_starts_with, trim_start_all,
    trim_start_matches,
};

verus! {

/// A path that starts at the root (`/`).
pub open spec fn is_absolute(p: Seq<char>) -> bool {
    p.len() > 0 && p[0] == '/'
}

/// `base` joined with `p` as `PathBuf::join` does on Unix: an absolute `p`
/// replaces `base`; otherwise a `/` is put between them unless `base` is
/// empty or already ends with one.
pub open spec fn join_path(base: Seq<char>, p: Seq<char>) -> Seq<char> {
    if is_absolute(p) {
        p
    } else if base.len() == 0 || base.last() == '/' {
        base + p
    } else {
        base + "/"@ + p
    }
}

/// The path that `user_path` names: a leading `~/` (repeated or not) is
/// the home directory, when it is known; a relative result is taken from
/// the current directory, when it is known.
pub open spec fn normalized(
    user_path: Seq<char>,
    home: Option<Seq<char>>,
    current_dir: Option<Seq<char>>,
) -> Seq<char> {
    let p = if starts_with(user_path, "~/"@) && home is Some {
        join_path(home->0, trim_start_all(user_path, "~/"@))
    } else {
        user_path
    };
    if !is_absolute(p) && current_dir is Some {
        join_path(current_dir->0, p)
    } else {
        p
    }
}

/// Whether `p` starts at the root.
pub fn is_absolute_path(p: &str) -> (r: bool)
    ensures
        r == is_absolute(p@),
{
    p.unicode_len() > 0 && p.get_char(0) == '/'
}

/// `base` joined with `p` (`PathBuf::join` on Unix).
pub fn join_path_of(base: &str, p: &str) -> (r: String)
    ensures
        r@ == join_path(base@, p@),
{
    if is_absolute_path(p) {
        return owned(p);
    }
    let base_empty = base.unicode_len() == 0;
    if base_empty {
        return cat(base, p);
    }
    let base_slash = base.get_char(base.unicode_len() - 1) == '/';
    if base_slash {
        cat(base, p)
    } else {
        let mut r = owned(base);
        r.append("/");
        r.append(p);
        r
    }
}

/// The absolute path that the user's `user_path` names.
///
/// `home` is the user's home directory and `current_dir` the working
/// directory, each when it could be found. A path that starts with `~/`
/// has every leading `~/` taken off and is joined to `home`; a path that is
/// then still relative is joined to `current_dir`.
pub fn normalize_path(
    user_path: &String,
    home: Option<&String>,
    current_dir: Option<&String>,
) -> (r: String)
    ensures
        r@ == normalized(
            user_path@,
            match home {
                Some(h) => Some(h@),
                None => None,
            },
            match current_dir {
                Some(c) => Some(c@),
                None => None,
            },
        ),
{
    let mut p = owned(user_path.as_str());
    if str_starts_with(user_path.as_str(), "~/") {
        match home {
            Some(h) => {
                proof {
                    reveal_strlit("~/");
                }
                let rest = trim_start_matches(user_path.as_str(), "~/");
                p = join_path_of(h.as_str(), rest.as_str());
            },
            None => {},
        }
    }
    if !is_absolute_path(p.as_str()) {
        match current_dir {
            Some(c) => {
                p = join_path_of(c.as_str(), p.as_str());
            },
            None => {},
        }
    }
    p
}

/// Joining anything to an absolute base gives an absolute path.
pub proof fn lemma_join_absolute(base: Seq<char>, p: Seq<char>)
    requires
        is_absolute(base),
    ensures
        is_absolute(join_path(base, p)),
{
    reveal_strlit("/");
    if !is_absolute(p) {
        if base.last() == '/' {
            assert((base + p)[0] == base[0]);
        } else {
            assert((base + "/"@ + p)[0] == base[0]);
        }
    }
}

/// With an absolute working directory, a normalized path is absolute, and
/// normalizing it again leaves it as it is.
pub proof fn law_normalize_idempotent(
    user_path: Seq<char>,
    home: Option<Seq<char>>,
    current_dir: Seq<char>,
)
    requires
        is_absolute(current_dir),
    ensures
        is_absolute(normalized(user_path, home, Some(current_dir))),
        normalized(normalized(user_path, home, Some(current_dir)), home, Some(current_dir))
            == normalized(user_path, home, Some(current_dir)),
{
    reveal_strlit("~/");
    let p = if starts_with(user_path, "~/"@) && home is Some {
        join_path(home->0, trim_start_all(user_path, "~/"@))
    } else {
        user_path
    };
    if !is_absolute(p) {
        lemma_join_absolute(current_dir, p);
    }
    let q = normalized(user_path, home, Some(current_dir));
    assert(is_absolute(q));
    assert(!starts_with(q, "~/"@)) by {
        if starts_with(q, "~/"@) {
            assert(q.subrange(0, 2)[0] == q[0]);
        }
    }
}


/// The `version.json` of the game whose directory is `game_path` (which
/// ends with `/`).
pub fn version_json_of(game_path: &String) -> (r: String)
    ensures
        r@ == game_path@ + "version.json"@,
{
    cat(game_path.as_str(), "version.json")
}


/// `t` in front of `n` copies of `t` is `n + 1` copies.
proof fn lemma_repeat_front(t: Seq<char>, n: nat)
    ensures
        t + repeat(t, n) == repeat(t, n + 1),
    decreases n,
{
    if n == 0 {
        assert(t + Seq::<char>::empty() =~= Seq::<char>::empty() + t);
    } else {
        lemma_repeat_front(t, (n - 1) as nat);
        assert(t + (repeat(t, (n - 1) as nat) + t) =~= (t + repeat(t, (n - 1) as nat)) + t);
    }
}

/// Taking off the leading repetitions of `p` leaves a text that follows
/// some number of copies of `p` and does not start with `p` itself.
proof fn lemma_trim_start_all(s: Seq<char>, p: Seq<char>)
    requires
        p.len() > 0,
    ensures
        exists|k: nat| s == repeat(p, k) + trim_start_all(s, p),
        !starts_with(trim_start_all(s, p), p),
    decreases s.len(),
{
    if starts_with(s, p) {
        let rest = s.subrange(p.len() as int, s.len() as int);
        lemma_trim_start_all(rest, p);
        let k = choose|k: nat| rest == repeat(p, k) + trim_start_all(rest, p);
        lemma_repeat_front(p, k);
        assert(s =~= p + rest);
        assert(s =~= repeat(p, k + 1) + trim_start_all(s, p));
    } else {
        assert(s =~= repeat(p, 0) + s);
    }
}

/// `base` joined with `p` ends with `p`, character for character.
proof fn lemma_join_keeps_tail(base: Seq<char>, p: Seq<char>)
    ensures
        join_path(base, p).len() >= p.len(),
        join_path(base, p).subrange(join_path(base, p).len() - p.len(), join_path(base, p).len() as int)
            == p,
{
    let j = join_path(base, p);
    assert(j.subrange(j.len() - p.len(), j.len() as int) =~= p);
}

/// The user's text is kept as written at the end of the normalized path:
/// after a leading `~/` (repeated or not) when the home directory is
/// known, all of it otherwise. In particular a path that names a directory
/// with a final `/` keeps that `/`.
pub proof fn law_normalize_keeps_user_text(
    user_path: Seq<char>,
    home: Option<Seq<char>>,
    current_dir: Option<Seq<char>>,
)
    ensures
        ({
            let from_home = starts_with(user_path, "~/"@) && home is Some;
            let kept = if from_home {
                trim_start_all(user_path, "~/"@)
            } else {
                user_path
            };
            let r = normalized(user_path, home, current_dir);
            &&& r.len() >= kept.len()
            &&& r.subrange(r.len() - kept.len(), r.len() as int) == kept
            &&& from_home ==> (exists|k: nat| user_path == repeat("~/"@, k) + kept) && !starts_with(
                kept,
                "~/"@,
            )
            &&& (kept.len() > 0 && kept.last() == '/') ==> r.len() > 0 && r.last() == '/'
        }),
{
    reveal_strlit("~/");
    let from_home = starts_with(user_path, "~/"@) && home is Some;
    let kept = if from_home {
        trim_start_all(user_path, "~/"@)
    } else {
        user_path
    };
    let p = if from_home {
        join_path(home->0, kept)
    } else {
        user_path
    };
    if from_home {
        lemma_trim_start_all(user_path, "~/"@);
        lemma_join_keeps_tail(home->0, kept);
    }
    assert(p.len() >= kept.len());
    assert(p.subrange(p.len() - kept.len(), p.len() as int) == kept);
    let r = normalized(user_path, home, current_dir);
    if !is_absolute(p) && current_dir is Some {
        lemma_join_keeps_tail(current_dir->0, p);
        assert(r == join_path(current_dir->0, p));
        let rt = r.subrange(r.len() - kept.len(), r.len() as int);
        let pt = p.subrange(p.len() - kept.len(), p.len() as int);
        let rp = r.subrange(r.len() - p.len(), r.len() as int);
        assert forall|i: int| 0 <= i < kept.len() implies #[trigger] rt[i] == pt[i] by {
            assert(rt[i] == r[r.len() - kept.len() + i]);
            assert(rp[p.len() - kept.len() + i] == r[r.len() - kept.len() + i]);
            assert(rp[p.len() - kept.len() + i] == p[p.len() - kept.len() + i]);
        }
        assert(rt =~= pt);
    } else {
        assert(r == p);
    }
    if kept.len() > 0 && kept.last() == '/' {
        assert(r.subrange(r.len() - kept.len(), r.len() as int)[kept.len() - 1] == kept.last());
    }
}

/// Where the start script of a game goes: `start.sh` in `output_path`.
pub open spec fn start_script_path(output_path: Seq<char>) -> Seq<char> {
    output_path + "/start.sh"@
}

/// The file that the start script is written to.
pub fn start_script_file(output_path: &String) -> (r: String)
    ensures
        r@ == start_script_path(output_path@),
{
    cat(output_path.as_str(), "/start.sh")
}

/// The lines of the start script of a plain (unmodded) game.
pub open spec fn vanilla_script_lines(
    output_path: Seq<char>,
    version: Seq<char>,
    lib: Seq<char>,
    home: Seq<char>,
) -> Seq<Seq<char>> {
    seq![
        "#!/bin/sh"@,
        "/usr/bin/java \\"@,
        "-Xmx8024m \\"@,
        "-Xmn128m \\"@,
        "-XX:+UseG1GC \\"@,
        "-XX:-UseAdaptiveSizePolicy \\"@,
        "-Djava.library.path="@ + output_path + "/natives \\"@,
        "-cp \""@ + lib + ":"@ + version + ".jar\" \\"@,
        "net.minecraft.client.main.Main"@ + " \\"@,
        "--version "@ + version + " \\"@,
        "--gameDir "@ + output_path + " \\"@,
        "--assetsDir "@ + home + "/.minecraft/assets \\"@,
        "--assetIndex "@ + version + " \\"@,
        "--username whiterely \\"@,
        "--accessToken 0 \\"@,
        "--userType legacy"@,
    ]
}

/// The start script of a freshly installed game.
///
/// Only a plain game (`mod_client` is `vanilla`) gets one: its lines, those
/// of [`vanilla_script_lines`], joined by newlines. For any other client
/// the result is `None` and nothing is to be written.
pub fn generate_launch_sh_after_install(
    output_path: &String,
    version: &String,
    lib: &String,
    mod_client: &String,
    home: &String,
) -> (r: Option<String>)
    ensures
        mod_client@ == "vanilla"@ ==> r is Some && r->0@ == join(
            vanilla_script_lines(output_path@, version@, lib@, home@),
            "\n"@,
        ),
        mod_client@ != "vanilla"@ ==> r is None,
{
    let vanilla = owned("vanilla");
    if *mod_client != vanilla {
        return None;
    }
    let mut lines: Vec<String> = Vec::new();
    lines.push(owned("#!/bin/sh"));
    lines.push(owned("/usr/bin/java \\"));
    lines.push(owned("-Xmx8024m \\"));
    lines.push(owned("-Xmn128m \\"));
    lines.push(owned("-XX:+UseG1GC \\"));
    lines.push(owned("-XX:-UseAdaptiveSizePolicy \\"));
    let mut l = owned("-Djava.library.path=");
    l.append(output_path.as_str());
    l.append("/natives \\");
    lines.push(l);
    let mut l = owned("-cp \"");
    l.append(lib.as_str());
    l.append(":");
    l.append(version.as_str());
    l.append(".jar\" \\");
    lines.push(l);
    lines.push(cat("net.minecraft.client.main.Main", " \\"));
    let mut l = owned("--version ");
    l.append(version.as_str());
    l.append(" \\");
    lines.push(l);
    let mut l = owned("--gameDir ");
    l.append(output_path.as_str());
    l.append(" \\");
    lines.push(l);
    let mut l = owned("--assetsDir ");
    l.append(home.as_str());
    l.append("/.minecraft/assets \\");
    lines.push(l);
    let mut l = owned("--assetIndex ");
    l.append(version.as_str());
    l.append(" \\");
    lines.push(l);
    lines.push(owned("--username whiterely \\"));
    lines.push(owned("--accessToken 0 \\"));
    lines.push(owned("--userType legacy"));
    assert(lines.deep_view() =~= vanilla_script_lines(output_path@, version@, lib@, home@));
    Some(join_strings(&lines, "\n"))
}


/// The lines that `list` prints for the profiles `s`: for each, its key,
/// its name, its version and an empty line.
pub open spec fn profile_listing(s: Seq<(Seq<char>, GameProfilesView)>) -> Seq<Seq<char>>
    decreases s.len(),
{
    if s.len() == 0 {
        Seq::empty()
    } else {
        profile_listing(s.drop_last()) + seq![
            "Profile key: "@ + s.last().0,
            "Name: "@ + s.last().1.name,
            "Last Version: "@ + s.last().1.last_version_id,
            ""@,
        ]
    }
}

/// The lines that list the installed games' profiles, in order.
pub fn list_profiles(profiles: &LauncherProfile) -> (r: Vec<String>)
    ensures
        r.deep_view() == profile_listing(profiles@),
{
    let mut r: Vec<String> = Vec::new();
    let n = profiles.len();
    for i in 0..n
        invariant
            n == profiles@.len(),
            r.deep_view() == profile_listing(profiles@.take(i as int)),
    {
        let (key, p) = profiles.entry(i);
        let ghost before = r.deep_view();
        r.push(cat("Profile key: ", key.as_str()));
        r.push(cat("Name: ", p.name.as_str()));
        r.push(cat("Last Version: ", p.lastVersionId.as_str()));
        r.push(owned(""));
        assert(profiles@.take(i + 1).drop_last() =~= profiles@.take(i as int));
        assert(r.deep_view() =~= profile_listing(profiles@.take(i + 1)));
    }
    assert(profiles@.take(n as int) =~= profiles@);
    r
}


/// The lines announcing the profiles named `client`, in order: each gives
/// the profile's name and version.
pub open spec fn announcements(s: Seq<(Seq<char>, GameProfilesView)>, client: Seq<char>) -> Seq<Seq<char>>
    decreases s.len(),
{
    if s.len() == 0 {
        Seq::empty()
    } else if s.last().1.name == client {
        announcements(s.drop_last(), client).push(
            "Name: "@ + s.last().1.name + ", lastVersionId: "@ + s.last().1.last_version_id,
        )
    } else {
        announcements(s.drop_last(), client)
    }
}

/// The lines that announce the profiles that the script is made from.
pub fn profile_announcements(profiles: &LauncherProfile, client: &String) -> (r: Vec<String>)
    ensures
        r.deep_view() == announcements(profiles@, client@),
{
    let mut r: Vec<String> = Vec::new();
    let n = profiles.len();
    for i in 0..n
        invariant
            n == profiles@.len(),
            r.deep_view() == announcements(profiles@.take(i as int), client@),
    {
        let (_, p) = profiles.entry(i);
        assert(profiles@.take(i + 1).drop_last() =~= profiles@.take(i as int));
        assert(profiles@.take(i + 1).last() == profiles@[i as int]);
        if p.name == *client {
            let ghost before = r.deep_view();
            let mut l = cat("Name: ", p.name.as_str());
            l.append(", lastVersionId: ");
            l.append(p.lastVersionId.as_str());
            r.push(l);
            assert(r.deep_view() =~= before.push(l@));
        }
    }
    assert(profiles@.take(n as int) =~= profiles@);
    r
}

/// The arguments that a mod loader's json adds to the command line.
pub struct Game {
    pub game: Vec<String>,
    pub jvm: Vec<String>,
}

/// What a mod loader's json says about starting the game.
#[allow(non_snake_case)]
pub struct MainClass {
    pub inheritsFrom: String,
    pub mainClass: String,
    pub arguments: Game,
}

/// A version of a Fabric game: its id names Fabric.
pub open spec fn is_fabric(version_id: Seq<char>) -> bool {
    contains_sub(version_id, "fabric"@)
}

/// Some profile of `s` is named `client` and is (or is not, by `fabric`) a
/// Fabric game.
pub open spec fn needs_loader(
    s: Seq<(Seq<char>, GameProfilesView)>,
    client: Seq<char>,
    fabric: bool,
) -> bool {
    exists|i: int|
        0 <= i < s.len() && #[trigger] s[i].1.name == client && is_fabric(s[i].1.last_version_id)
            == fabric
}

/// Each argument followed by a space, all run together.
pub open spec fn args_text(args: Seq<Seq<char>>) -> Seq<char> {
    concat_all(args.map_values(|a: Seq<char>| a + " "@))
}

/// `t` written `n` times.
pub open spec fn repeat(t: Seq<char>, n: nat) -> Seq<char>
    decreases n,
{
    if n == 0 {
        Seq::empty()
    } else {
        repeat(t, (n - 1) as nat) + t
    }
}


/// `n` copies of `t` are `n * |t|` characters, character `k` being
/// character `k mod |t|` of `t`.
proof fn lemma_repeat_chars(t: Seq<char>, n: nat)
    ensures
        repeat(t, n).len() == n * t.len(),
        forall|k: int| 0 <= k < repeat(t, n).len() ==> #[trigger] repeat(t, n)[k] == t[k % (t.len() as int)],
    decreases n,
{
    if n > 0 {
        let m = (n - 1) as nat;
        lemma_repeat_chars(t, m);
        let l = t.len() as int;
        assert(n * l == m * l + l) by (nonlinear_arith)
            requires
                n == m + 1,
        ;
        assert forall|k: int| 0 <= k < repeat(t, n).len() implies #[trigger] repeat(t, n)[k] == t[k % l] by {
            if k < m * l {
                assert(repeat(t, n)[k] == repeat(t, m)[k]);
            } else {
                assert(repeat(t, n)[k] == t[k - m * l]);
                vstd::arithmetic::div_mod::lemma_fundamental_div_mod_converse(k, l, m as int, k - m * l);
            }
        }
    } else {
        assert(n * t.len() == 0) by (nonlinear_arith)
            requires
                n == 0,
        ;
    }
}

/// The arguments text is each argument followed by a space, first
/// argument first.
pub proof fn law_args_text(args: Seq<Seq<char>>)
    ensures
        args.len() == 0 ==> args_text(args) == Seq::<char>::empty(),
        args.len() > 0 ==> args_text(args) == args[0] + " "@ + args_text(args.drop_first()),
    decreases args.len(),
{
    let f = |a: Seq<char>| a + " "@;
    if args.len() == 1 {
        assert(args.map_values(f).drop_last() =~= Seq::<Seq<char>>::empty());
        assert(args.drop_first() =~= Seq::<Seq<char>>::empty());
        assert(args.drop_first().map_values(f) =~= Seq::<Seq<char>>::empty());
        assert(Seq::<char>::empty() + (args[0] + " "@) =~= args[0] + " "@ + Seq::<char>::empty());
    } else if args.len() > 1 {
        let init = args.drop_last();
        law_args_text(init);
        assert(args.map_values(f).drop_last() =~= init.map_values(f));
        assert(init.drop_first() =~= args.drop_first().drop_last());
        assert(args.drop_first().map_values(f).drop_last() =~= init.drop_first().map_values(f));
        assert(args.drop_first().map_values(f).last() == args.last() + " "@);
        assert(args_text(args.drop_first()) == args_text(init.drop_first()) + (args.last() + " "@));
        assert(init[0] == args[0]);
    }
}

/// When the only profile named `client` is not a Fabric one, the script
/// gets the other loaders' classpath, the game arguments once, and the
/// JVM arguments as one block (all of them, in their order, each followed
/// by a space) written once for every game argument: the JVM text is
/// `|game|` blocks long and its `k`-th character is that of the block at
/// `k mod |block|`.
pub proof fn law_single_forge_profile(
    s: Seq<(Seq<char>, GameProfilesView)>,
    client: Seq<char>,
    fabric_lib: Seq<char>,
    forge_lib: Seq<char>,
    game: Seq<Seq<char>>,
    jvm: Seq<Seq<char>>,
    i: int,
)
    requires
        at_most_one_named(s, client),
        0 <= i < s.len(),
        s[i].1.name == client,
        !is_fabric(s[i].1.last_version_id),
    ensures
        ({
            let (lib, jvm_args, game_args) = launch_parts(s, client, fabric_lib, forge_lib, game, jvm);
            let block = args_text(jvm);
            &&& lib == forge_lib
            &&& game_args == args_text(game)
            &&& jvm_args.len() == game.len() * block.len()
            &&& forall|k: int| 0 <= k < jvm_args.len() ==> #[trigger] jvm_args[k] == block[k % (block.len() as int)]
            &&& game.len() >= 1 ==> jvm_args.subrange(0, block.len() as int) == block
        }),
{
    lemma_single_match(s, client, fabric_lib, forge_lib, game, jvm);
    let block = args_text(jvm);
    lemma_repeat_chars(block, game.len());
    let j = repeat(block, game.len());
    if game.len() >= 1 {
        let l = block.len() as int;
        assert(game.len() * l >= l) by (nonlinear_arith)
            requires
                game.len() >= 1,
                l >= 0,
        ;
        assert forall|k: int| 0 <= k < l implies #[trigger] j.subrange(0, l)[k] == block[k] by {
            assert(j[k] == block[k % l]);
            vstd::arithmetic::div_mod::lemma_fundamental_div_mod_converse(k, l, 0, k);
        }
        assert(j.subrange(0, l) =~= block);
    }
}

/// What the profiles named `client` contribute to the start script, going
/// through `s` in order: the classpath (each Fabric profile adds
/// `fabric_lib`, each other profile adds `forge_lib`), the JVM arguments and
/// the game arguments. Each non-Fabric profile adds the game arguments once
/// and the JVM arguments once for every game argument.
pub open spec fn launch_parts(
    s: Seq<(Seq<char>, GameProfilesView)>,
    client: Seq<char>,
    fabric_lib: Seq<char>,
    forge_lib: Seq<char>,
    game: Seq<Seq<char>>,
    jvm: Seq<Seq<char>>,
) -> (Seq<char>, Seq<char>, Seq<char>)
    decreases s.len(),
{
    if s.len() == 0 {
        (Seq::empty(), Seq::empty(), Seq::empty())
    } else {
        let (lib, jvm_args, game_args) = launch_parts(s.drop_last(), client, fabric_lib, forge_lib, game, jvm);
        let p = s.last().1;
        if p.name != client {
            (lib, jvm_args, game_args)
        } else if is_fabric(p.last_version_id) {
            (lib + fabric_lib, jvm_args, game_args)
        } else {
            (lib + forge_lib, jvm_args + repeat(args_text(jvm), game.len()), game_args + args_text(game))
        }
    }
}

/// The lines of the start script of a game started through a mod loader.
pub open spec fn modded_script_lines(
    home: Seq<char>,
    game_path: Seq<char>,
    output_path: Seq<char>,
    inherits_from: Seq<char>,
    main_class: Seq<char>,
    lib: Seq<char>,
    jvm_args: Seq<char>,
    game_args: Seq<char>,
) -> Seq<Seq<char>> {
    seq![
        "#!/bin/sh"@,
        "export library_directory=\""@ + home + "/.minecraft/libraries\""@,
        "export classpath_separator=\":\""@,
        "export version_name=\""@ + inherits_from + "\""@,
        "/usr/bin/java \\"@,
        "--add-opens java.base/java.lang.invoke=ALL-UNNAMED \\"@,
        "--add-opens java.base/java.nio=ALL-UNNAMED \\"@,
        "--add-opens java.base/sun.nio.fs=ALL-UNNAMED \\"@,
        "-Xmx8024m \\"@,
        "-Xmn128m \\"@,
        "-XX:+UseG1GC \\"@,
        "-XX:-UseAdaptiveSizePolicy \\"@,
        "-Djava.library.path="@ + game_path + "natives \\"@,
        jvm_args + " \\"@,
        "-cp \""@ + lib + ":"@ + game_path + inherits_from + ".jar\" \\"@,
        main_class + " \\"@,
        game_args + " \\"@,
        "--version "@ + inherits_from + " \\"@,
        "--gameDir "@ + output_path + " \\"@,
        "--assetsDir "@ + home + "/.minecraft/assets \\"@,
        "--assetIndex "@ + inherits_from + " \\"@,
        "--username whiterely \\"@,
        "--accessToken 0 \\"@,
        "--userType legacy"@,
    ]
}

/// The text of an optional classpath that is known to be there when used.
pub open spec fn lib_text(lib: Option<&String>) -> Seq<char> {
    match lib {
        Some(l) => l@,
        None => Seq::empty(),
    }
}

/// The compiled pattern that tells Fabric versions apart.
fn fabric_pattern() -> (r: WordPattern)
    ensures
        r.source() == "fabric"@,
        is_plain_word(r.source()),
{
    proof {
        reveal_strlit("fabric");
        assert(is_plain_word("fabric"@));
    }
    WordPattern::new("fabric")
}

/// Whether a profile needs a loader, one profile more at a time.
proof fn lemma_needs_loader_step(
    s: Seq<(Seq<char>, GameProfilesView)>,
    client: Seq<char>,
    fabric: bool,
)
    requires
        s.len() > 0,
    ensures
        needs_loader(s, client, fabric) == (needs_loader(s.drop_last(), client, fabric) || (
        s.last().1.name == client && is_fabric(s.last().1.last_version_id) == fabric)),
{
    let t = s.drop_last();
    if needs_loader(s, client, fabric) {
        let j = choose|j: int|
            0 <= j < s.len() && #[trigger] s[j].1.name == client && is_fabric(s[j].1.last_version_id)
                == fabric;
        if j < t.len() {
            assert(t[j] == s[j]);
        }
    }
    if needs_loader(t, client, fabric) {
        let j = choose|j: int|
            0 <= j < t.len() && #[trigger] t[j].1.name == client && is_fabric(t[j].1.last_version_id)
                == fabric;
        assert(s[j] == t[j]);
    }
    if s.last().1.name == client && is_fabric(s.last().1.last_version_id) == fabric {
        assert(s[s.len() - 1].1.name == client);
    }
}

/// Which loaders' classpaths the profiles named `client` need: the first
/// is whether a Fabric one does, the second whether another one does.
pub fn loaders_needed(profiles: &LauncherProfile, client: &String) -> (r: (bool, bool))
    ensures
        r.0 == needs_loader(profiles@, client@, true),
        r.1 == needs_loader(profiles@, client@, false),
{
    let fabric = fabric_pattern();
    let mut need_fabric = false;
    let mut need_forge = false;
    let n = profiles.len();
    for i in 0..n
        invariant
            n == profiles@.len(),
            fabric.source() == "fabric"@,
            is_plain_word(fabric.source()),
            need_fabric == needs_loader(profiles@.take(i as int), client@, true),
            need_forge == needs_loader(profiles@.take(i as int), client@, false),
    {
        let (_, p) = profiles.entry(i);
        let ghost s = profiles@.take(i + 1);
        proof {
            assert(s.drop_last() =~= profiles@.take(i as int));
            assert(s.last() == profiles@[i as int]);
            lemma_needs_loader_step(s, client@, true);
            lemma_needs_loader_step(s, client@, false);
        }
        if p.name == *client {
            if fabric.is_match(p.lastVersionId.as_str()) {
                need_fabric = true;
            } else {
                need_forge = true;
            }
        }
        assert(need_fabric == needs_loader(s, client@, true));
        assert(need_forge == needs_loader(s, client@, false));
    }
    assert(profiles@.take(n as int) =~= profiles@);
    (need_fabric, need_forge)
}

/// Each argument followed by a space, all run together.
pub fn args_line(args: &Vec<String>) -> (r: String)
    ensures
        r@ == args_text(args.deep_view()),
{
    let ghost dv = args.deep_view();
    let mut r = String::new();
    for i in 0..args.len()
        invariant
            dv == args.deep_view(),
            r@ == concat_all(dv.take(i as int).map_values(|a: Seq<char>| a + " "@)),
    {
        r.append(args[i].as_str());
        r.append(" ");
        assert(dv.take(i + 1).map_values(|a: Seq<char>| a + " "@).drop_last() =~= dv.take(
            i as int,
        ).map_values(|a: Seq<char>| a + " "@));
    }
    assert(dv.take(args.len() as int) =~= dv);
    r
}


/// At most one profile of `s` is named `client`.
pub open spec fn at_most_one_named(s: Seq<(Seq<char>, GameProfilesView)>, client: Seq<char>) -> bool {
    forall|i: int, j: int|
        0 <= i < s.len() && 0 <= j < s.len() && #[trigger] s[i].1.name == client && #[trigger] s[j].1.name
            == client ==> i == j
}

/// What one profile named `client` contributes when it is the only one.
pub open spec fn contribution(
    p: GameProfilesView,
    fabric_lib: Seq<char>,
    forge_lib: Seq<char>,
    game: Seq<Seq<char>>,
    jvm: Seq<Seq<char>>,
) -> (Seq<char>, Seq<char>, Seq<char>) {
    if is_fabric(p.last_version_id) {
        (fabric_lib, Seq::empty(), Seq::empty())
    } else {
        (forge_lib, repeat(args_text(jvm), game.len()), args_text(game))
    }
}

/// With at most one profile named `client`, the parts are those of that
/// profile alone, or empty when there is none.
proof fn lemma_single_match(
    s: Seq<(Seq<char>, GameProfilesView)>,
    client: Seq<char>,
    fabric_lib: Seq<char>,
    forge_lib: Seq<char>,
    game: Seq<Seq<char>>,
    jvm: Seq<Seq<char>>,
)
    requires
        at_most_one_named(s, client),
    ensures
        (forall|i: int| 0 <= i < s.len() ==> #[trigger] s[i].1.name != client) ==> launch_parts(
            s,
            client,
            fabric_lib,
            forge_lib,
            game,
            jvm,
        ) == (Seq::<char>::empty(), Seq::<char>::empty(), Seq::<char>::empty()),
        forall|i: int|
            0 <= i < s.len() && #[trigger] s[i].1.name == client ==> launch_parts(
                s,
                client,
                fabric_lib,
                forge_lib,
                game,
                jvm,
            ) == contribution(s[i].1, fabric_lib, forge_lib, game, jvm),
    decreases s.len(),
{
    if s.len() > 0 {
        let init = s.drop_last();
        let n = s.len() - 1;
        assert(at_most_one_named(init, client)) by {
            assert forall|i: int, j: int|
                0 <= i < init.len() && 0 <= j < init.len() && #[trigger] init[i].1.name == client
                    && #[trigger] init[j].1.name == client implies i == j by {
                assert(s[i] == init[i] && s[j] == init[j]);
            }
        }
        lemma_single_match(init, client, fabric_lib, forge_lib, game, jvm);
        let e = Seq::<char>::empty();
        if s.last().1.name == client {
            assert(s[n].1.name == client);
            assert forall|i: int| 0 <= i < init.len() implies #[trigger] init[i].1.name != client by {
                assert(s[i] == init[i]);
                if s[i].1.name == client {
                    assert(i == n);
                }
            }
            assert(e + fabric_lib =~= fabric_lib);
            assert(e + forge_lib =~= forge_lib);
            assert(e + repeat(args_text(jvm), game.len()) =~= repeat(args_text(jvm), game.len()));
            assert(e + args_text(game) =~= args_text(game));
            assert forall|i: int| 0 <= i < s.len() && #[trigger] s[i].1.name == client implies i == n by {}
        } else {
            assert forall|i: int| 0 <= i < s.len() && #[trigger] s[i].1.name == client implies launch_parts(
                s,
                client,
                fabric_lib,
                forge_lib,
                game,
                jvm,
            ) == contribution(s[i].1, fabric_lib, forge_lib, game, jvm) by {
                assert(i != n);
                assert(init[i] == s[i]);
            }
            if forall|i: int| 0 <= i < s.len() ==> #[trigger] s[i].1.name != client {
                assert forall|i: int| 0 <= i < init.len() implies #[trigger] init[i].1.name != client by {
                    assert(s[i] == init[i]);
                }
            }
        }
    }
}

/// When at most one profile is named `client`, the start script does not
/// depend on the order in which the profiles are kept: the same profiles
/// (keys unique, as in any `LauncherProfile`) in another order give the
/// same script, and a script is written for both or for neither.
pub proof fn law_script_order_independent(
    home: Seq<char>,
    game_path: Seq<char>,
    output_path: Seq<char>,
    client: Seq<char>,
    s: Seq<(Seq<char>, GameProfilesView)>,
    t: Seq<(Seq<char>, GameProfilesView)>,
    fabric_lib: Seq<char>,
    forge_lib: Seq<char>,
    inherits_from: Seq<char>,
    main_class: Seq<char>,
    game: Seq<Seq<char>>,
    jvm: Seq<Seq<char>>,
)
    requires
        keys_unique(s),
        keys_unique(t),
        s.to_set() == t.to_set(),
        at_most_one_named(s, client),
    ensures
        s.len() > 0 <==> t.len() > 0,
        modded_script(
            home,
            game_path,
            output_path,
            client,
            s,
            fabric_lib,
            forge_lib,
            inherits_from,
            main_class,
            game,
            jvm,
        ) == modded_script(
            home,
            game_path,
            output_path,
            client,
            t,
            fabric_lib,
            forge_lib,
            inherits_from,
            main_class,
            game,
            jvm,
        ),
{
    assert forall|x: (Seq<char>, GameProfilesView)| s.contains(x) <==> t.contains(x) by {
        vstd::set::axiom_set_new(|a: (Seq<char>, GameProfilesView)| s.contains(a), x);
        vstd::set::axiom_set_new(|a: (Seq<char>, GameProfilesView)| t.contains(a), x);
        assert(s.to_set().contains(x) == s.contains(x));
        assert(t.to_set().contains(x) == t.contains(x));
        assert(s.to_set().contains(x) == t.to_set().contains(x));
    }
    if s.len() > 0 {
        assert(s.contains(s[0]));
    }
    if t.len() > 0 {
        assert(t.contains(t[0]));
    }
    assert(at_most_one_named(t, client)) by {
        assert forall|i: int, j: int|
            0 <= i < t.len() && 0 <= j < t.len() && #[trigger] t[i].1.name == client && #[trigger] t[j].1.name
                == client implies i == j by {
            if i != j {
                assert(t[i].0 != t[j].0);
                assert(t.contains(t[i]));
                assert(t.contains(t[j]));
                let a = choose|a: int| 0 <= a < s.len() && s[a] == t[i];
                let b = choose|b: int| 0 <= b < s.len() && s[b] == t[j];
                assert(s[a].1.name == client);
                assert(s[b].1.name == client);
            }
        }
    }
    lemma_single_match(s, client, fabric_lib, forge_lib, game, jvm);
    lemma_single_match(t, client, fabric_lib, forge_lib, game, jvm);
    if exists|i: int| 0 <= i < s.len() && #[trigger] s[i].1.name == client {
        let i = choose|i: int| 0 <= i < s.len() && #[trigger] s[i].1.name == client;
        assert(s.contains(s[i]));
        let m = choose|m: int| 0 <= m < t.len() && t[m] == s[i];
        assert(t[m].1.name == client);
    } else {
        assert forall|m: int| 0 <= m < t.len() implies #[trigger] t[m].1.name != client by {
            assert(t.contains(t[m]));
            let a = choose|a: int| 0 <= a < s.len() && s[a] == t[m];
            assert(s[a] == t[m]);
        }
    }
}

/// The start script built from the profiles `s`: the lines of
/// [`modded_script_lines`] with the parts of [`launch_parts`], joined by
/// newlines.
pub open spec fn modded_script(
    home: Seq<char>,
    game_path: Seq<char>,
    output_path: Seq<char>,
    client: Seq<char>,
    s: Seq<(Seq<char>, GameProfilesView)>,
    fabric_lib: Seq<char>,
    forge_lib: Seq<char>,
    inherits_from: Seq<char>,
    main_class: Seq<char>,
    game: Seq<Seq<char>>,
    jvm: Seq<Seq<char>>,
) -> Seq<char> {
    let (lib, jvm_args, game_args) = launch_parts(s, client, fabric_lib, forge_lib, game, jvm);
    join(
        modded_script_lines(home, game_path, output_path, inherits_from, main_class, lib, jvm_args, game_args),
        "\n"@,
    )
}

/// The start script of a game started through a mod loader.
///
/// `home` is the user's home directory, `game_path` the (absolute) game
/// directory of the loader's base game, ending with `/`, `output_path` the
/// (absolute) directory the game runs in; `client` names the launcher
/// profiles to use and `mod_loader` is what the loader's json says.
/// `fabric_lib` and `forge_lib` are the classpaths that Fabric and other
/// loaders use; each must be given when a profile named `client` needs it
/// (see [`loaders_needed`]).
///
/// The script is written once for every profile, whether it is named
/// `client` or not, each time with what the profiles so far contribute;
/// what stays is the script of [`modded_script`] over all profiles. With no
/// profile at all nothing is written (`None`).
pub fn generate_launch_sh(
    home: &String,
    game_path: &String,
    output_path: &String,
    client: &String,
    profiles: &LauncherProfile,
    mod_loader: &MainClass,
    fabric_lib: Option<&String>,
    forge_lib: Option<&String>,
) -> (r: Option<String>)
    requires
        needs_loader(profiles@, client@, true) ==> fabric_lib is Some,
        needs_loader(profiles@, client@, false) ==> forge_lib is Some,
    ensures
        profiles@.len() == 0 ==> r is None,
        profiles@.len() > 0 ==> r is Some && r->0@ == modded_script(
            home@,
            game_path@,
            output_path@,
            client@,
            profiles@,
            lib_text(fabric_lib),
            lib_text(forge_lib),
            mod_loader.inheritsFrom@,
            mod_loader.mainClass@,
            mod_loader.arguments.game.deep_view(),
            mod_loader.arguments.jvm.deep_view(),
        ),
{
    if profiles.len() == 0 {
        return None;
    }
    let fabric = fabric_pattern();
    let game_text = args_line(&mod_loader.arguments.game);
    let jvm_text = args_line(&mod_loader.arguments.jvm);
    let ghost game = mod_loader.arguments.game.deep_view();
    let ghost jvm = mod_loader.arguments.jvm.deep_view();
    let ghost fl = lib_text(fabric_lib);
    let ghost gl = lib_text(forge_lib);
    let mut lib = String::new();
    let mut jvm_args = String::new();
    let mut game_args = String::new();
    let n = profiles.len();
    for i in 0..n
        invariant
            n == profiles@.len(),
            fabric.source() == "fabric"@,
            is_plain_word(fabric.source()),
            game_text@ == args_text(game),
            jvm_text@ == args_text(jvm),
            game == mod_loader.arguments.game.deep_view(),
            jvm == mod_loader.arguments.jvm.deep_view(),
            fl == lib_text(fabric_lib),
            gl == lib_text(forge_lib),
            needs_loader(profiles@, client@, true) ==> fabric_lib is Some,
            needs_loader(profiles@, client@, false) ==> forge_lib is Some,
            (lib@, jvm_args@, game_args@) == launch_parts(profiles@.take(i as int), client@, fl, gl, game, jvm),
    {
        let (_, p) = profiles.entry(i);
        let ghost s = profiles@.take(i + 1);
        assert(s.drop_last() =~= profiles@.take(i as int));
        assert(s.last() == profiles@[i as int]);
        if p.name == *client {
            if fabric.is_match(p.lastVersionId.as_str()) {
                assert(profiles@[i as int].1.name == client@);
                assert(needs_loader(profiles@, client@, true));
                match fabric_lib {
                    Some(l) => lib.append(l.as_str()),
                    None => {},
                }
            } else {
                assert(profiles@[i as int].1.name == client@);
                assert(needs_loader(profiles@, client@, false));
                match forge_lib {
                    Some(l) => lib.append(l.as_str()),
                    None => {},
                }
                let ghost before = jvm_args@;
                let k = mod_loader.arguments.game.len();
                for j in 0..k
                    invariant
                        k == game.len(),
                        jvm_text@ == args_text(jvm),
                        jvm_args@ == before + repeat(args_text(jvm), j as nat),
                {
                    jvm_args.append(jvm_text.as_str());
                    assert(before + repeat(args_text(jvm), (j + 1) as nat) =~= before + repeat(
                        args_text(jvm),
                        j as nat,
                    ) + args_text(jvm));
                }
                game_args.append(game_text.as_str());
            }
        }
    }
    assert(profiles@.take(n as int) =~= profiles@);
    let mut lines: Vec<String> = Vec::new();
    lines.push(owned("#!/bin/sh"));
    let mut l = owned("export library_directory=\"");
    l.append(home.as_str());
    l.append("/.minecraft/libraries\"");
    lines.push(l);
    lines.push(owned("export classpath_separator=\":\""));
    let mut l = owned("export version_name=\"");
    l.append(mod_loader.inheritsFrom.as_str());
    l.append("\"");
    lines.push(l);
    lines.push(owned("/usr/bin/java \\"));
    lines.push(owned("--add-opens java.base/java.lang.invoke=ALL-UNNAMED \\"));
    lines.push(owned("--add-opens java.base/java.nio=ALL-UNNAMED \\"));
    lines.push(owned("--add-opens java.base/sun.nio.fs=ALL-UNNAMED \\"));
    lines.push(owned("-Xmx8024m \\"));
    lines.push(owned("-Xmn128m \\"));
    lines.push(owned("-XX:+UseG1GC \\"));
    lines.push(owned("-XX:-UseAdaptiveSizePolicy \\"));
    let mut l = owned("-Djava.library.path=");
    l.append(game_path.as_str());
    l.append("natives \\");
    lines.push(l);
    lines.push(cat(jvm_args.as_str(), " \\"));
    let mut l = owned("-cp \"");
    l.append(lib.as_str());
    l.append(":");
    l.append(game_path.as_str());
    l.append(mod_loader.inheritsFrom.as_str());
    l.append(".jar\" \\");
    lines.push(l);
    lines.push(cat(mod_loader.mainClass.as_str(), " \\"));
    lines.push(cat(game_args.as_str(), " \\"));
    let mut l = owned("--version ");
    l.append(mod_loader.inheritsFrom.as_str());
    l.append(" \\");
    lines.push(l);
    let mut l = owned("--gameDir ");
    l.append(output_path.as_str());
    l.append(" \\");
    lines.push(l);
    let mut l = owned("--assetsDir ");
    l.append(home.as_str());
    l.append("/.minecraft/assets \\");
    lines.push(l);
    let mut l = owned("--assetIndex ");
    l.append(mod_loader.inheritsFrom.as_str());
    l.append(" \\");
    lines.push(l);
    lines.push(owned("--username whiterely \\"));
    lines.push(owned("--accessToken 0 \\"));
    lines.push(owned("--userType legacy"));
    assert(lines.deep_view() =~= modded_script_lines(
        home@,
        game_path@,
        output_path@,
        mod_loader.inheritsFrom@,
        mod_loader.mainClass@,
        lib@,
        jvm_args@,
        game_args@,
    ));
    Some(join_strings(&lines, "\n"))
}

} // verus!
