//! The launcher profiles (`launcher_profiles.json`): one profile per
//! installed game, each under its own key.
use vstd::prelude::*;
use vstd::string::*;
use vstd::utf8::encode_utf8;
use crate::digest::{hex_lower, sha1_digest, text_sha1_hex};
use crate::text::{cat, owned};

verus! {

/// One launcher profile: which game it starts and where.
#[allow(non_snake_case)]
pub struct GameProfiles {
    pub gameDir: Option<String>,
    pub javaDir: Option<String>,
    pub lastVersionId: String,
    pub name: String,
    pub profile_type: String,
}

/// The plain values of a profile.
pub struct GameProfilesView {
    pub game_dir: Option<Seq<char>>,
    pub java_dir: Option<Seq<char>>,
    pub last_version_id: Seq<char>,
    pub name: Seq<char>,
    pub profile_type: Seq<char>,
}

/// The view of an optional text.
pub open spec fn opt_view(s: Option<String>) -> Option<Seq<char>> {
    match s {
        Some(t) => Some(t@),
        None => None,
    }
}

impl View for GameProfiles {
    type V = GameProfilesView;

    open spec fn view(&self) -> GameProfilesView {
        GameProfilesView {
            game_dir: opt_view(self.gameDir),
            java_dir: opt_view(self.javaDir),
            last_version_id: self.lastVersionId@,
            name: self.name@,
            profile_type: self.profile_type@,
        }
    }
}

/// Keyed entries in which no key stands twice.
pub open spec fn keys_unique(s: Seq<(Seq<char>, GameProfilesView)>) -> bool {
    forall|i: int, j: int|
        0 <= i < s.len() && 0 <= j < s.len() && i != j ==> #[trigger] s[i].0 != #[trigger] s[j].0
}

/// Some entry of `s` has key `k`.
pub open spec fn has_key(s: Seq<(Seq<char>, GameProfilesView)>, k: Seq<char>) -> bool {
    exists|i: int| 0 <= i < s.len() && #[trigger] s[i].0 == k
}

/// The position of the entry with key `k` (meaningful when there is one).
pub open spec fn key_index(s: Seq<(Seq<char>, GameProfilesView)>, k: Seq<char>) -> int {
    choose|i: int| 0 <= i < s.len() && #[trigger] s[i].0 == k
}

/// The entries as a map from key to profile.
pub open spec fn entries_map(s: Seq<(Seq<char>, GameProfilesView)>) -> Map<Seq<char>, GameProfilesView> {
    Map::new(|k: Seq<char>| has_key(s, k), |k: Seq<char>| s[key_index(s, k)].1)
}

/// `s` with profile `v` stored under key `k`: the entry with that key gets
/// the new profile in place, or the new entry goes last.
pub open spec fn insert_entry(
    s: Seq<(Seq<char>, GameProfilesView)>,
    k: Seq<char>,
    v: GameProfilesView,
) -> Seq<(Seq<char>, GameProfilesView)> {
    if has_key(s, k) {
        s.update(key_index(s, k), (k, v))
    } else {
        s.push((k, v))
    }
}


/// `s` with each entry of `more` stored in turn.
pub open spec fn insert_all(
    s: Seq<(Seq<char>, GameProfilesView)>,
    more: Seq<(Seq<char>, GameProfilesView)>,
) -> Seq<(Seq<char>, GameProfilesView)>
    decreases more.len(),
{
    if more.len() == 0 {
        s
    } else {
        insert_entry(insert_all(s, more.drop_last()), more.last().0, more.last().1)
    }
}


/// Storing, one by one, entries whose keys are unique rebuilds exactly
/// those entries: taking the profiles apart with
/// [`LauncherProfile::into_entries`] and building them again with
/// [`LauncherProfile::from_entries`] gives the same profiles in the same
/// order.
pub proof fn law_entries_roundtrip(s: Seq<(Seq<char>, GameProfilesView)>)
    requires
        keys_unique(s),
    ensures
        insert_all(Seq::empty(), s) == s,
    decreases s.len(),
{
    if s.len() > 0 {
        let init = s.drop_last();
        assert(keys_unique(init)) by {
            assert forall|i: int, j: int| 0 <= i < init.len() && 0 <= j < init.len() && i != j
                implies #[trigger] init[i].0 != #[trigger] init[j].0 by {
                assert(init[i] == s[i] && init[j] == s[j]);
            }
        }
        law_entries_roundtrip(init);
        let k = s.last().0;
        assert(!has_key(init, k)) by {
            if has_key(init, k) {
                let i = choose|i: int| 0 <= i < init.len() && #[trigger] init[i].0 == k;
                assert(s[i].0 == s[s.len() - 1].0);
            }
        }
        assert(init.push(s.last()) =~= s);
    }
}

/// Storing keeps keys unique; in the map view it is `Map::insert`: the key
/// now reads the stored profile, and every other key reads what it read.
pub proof fn lemma_insert_entry(
    s: Seq<(Seq<char>, GameProfilesView)>,
    k: Seq<char>,
    v: GameProfilesView,
)
    requires
        keys_unique(s),
    ensures
        keys_unique(insert_entry(s, k, v)),
        entries_map(insert_entry(s, k, v)) == entries_map(s).insert(k, v),
{
    let t = insert_entry(s, k, v);
    if has_key(s, k) {
        let i = key_index(s, k);
        assert(s[i].0 == k);
        assert forall|a: int, b: int| 0 <= a < t.len() && 0 <= b < t.len() && a != b
            implies #[trigger] t[a].0 != #[trigger] t[b].0 by {
            if a != i && b != i {
                assert(t[a] == s[a] && t[b] == s[b]);
            } else if a == i {
                assert(t[b] == s[b]);
            } else {
                assert(t[a] == s[a]);
            }
        }
        assert forall|x: Seq<char>| #[trigger] has_key(t, x) <==> has_key(s, x) || x == k by {
            if has_key(s, x) {
                let j = choose|j: int| 0 <= j < s.len() && #[trigger] s[j].0 == x;
                if j == i {
                    assert(t[i].0 == x);
                } else {
                    assert(t[j].0 == x);
                }
            }
            if has_key(t, x) {
                let j = choose|j: int| 0 <= j < t.len() && #[trigger] t[j].0 == x;
                if j != i {
                    assert(s[j].0 == x);
                }
            }
            if x == k {
                assert(t[i].0 == k);
            }
        }
    } else {
        assert forall|a: int, b: int| 0 <= a < t.len() && 0 <= b < t.len() && a != b
            implies #[trigger] t[a].0 != #[trigger] t[b].0 by {
            if a < s.len() && b < s.len() {
                assert(t[a] == s[a] && t[b] == s[b]);
            } else if a == s.len() {
                assert(t[b] == s[b]);
                assert(t[a].0 == k);
            } else {
                assert(t[a] == s[a]);
                assert(t[b].0 == k);
            }
        }
        assert forall|x: Seq<char>| #[trigger] has_key(t, x) <==> has_key(s, x) || x == k by {
            if has_key(s, x) {
                let j = choose|j: int| 0 <= j < s.len() && #[trigger] s[j].0 == x;
                assert(t[j].0 == x);
            }
            if has_key(t, x) {
                let j = choose|j: int| 0 <= j < t.len() && #[trigger] t[j].0 == x;
                if j < s.len() {
                    assert(s[j].0 == x);
                }
            }
            if x == k {
                assert(t[s.len() as int].0 == k);
            }
        }
    }
    assert forall|x: Seq<char>| #[trigger] has_key(t, x) implies entries_map(t)[x] == entries_map(s).insert(
        k,
        v,
    )[x] by {
        let j = key_index(t, x);
        assert(t[j].0 == x);
        if x == k {
            if has_key(s, k) {
                let i = key_index(s, k);
                assert(t[i].0 == k);
            } else {
                assert(t[s.len() as int].0 == k);
            }
        } else {
            assert(has_key(s, x));
            let js = key_index(s, x);
            assert(s[js].0 == x);
            if has_key(s, k) {
                let i = key_index(s, k);
                assert(s[i].0 == k);
                assert(t[js] == s[js]);
            } else {
                assert(t[js] == s[js]);
            }
        }
    }
    assert(entries_map(t) =~= entries_map(s).insert(k, v));
}


/// Recording the same profile twice is recording it once: the second time
/// finds the key and leaves the entries as they were.
pub proof fn law_insert_entry_twice(
    s: Seq<(Seq<char>, GameProfilesView)>,
    k: Seq<char>,
    v: GameProfilesView,
)
    requires
        keys_unique(s),
    ensures
        insert_entry(insert_entry(s, k, v), k, v) == insert_entry(s, k, v),
{
    lemma_insert_entry(s, k, v);
    let t = insert_entry(s, k, v);
    let i = if has_key(s, k) {
        key_index(s, k)
    } else {
        s.len() as int
    };
    assert(t[i].0 == k);
    assert(has_key(t, k));
    let j = key_index(t, k);
    assert(t[j].0 == k);
    assert(i == j);
    assert(t.update(j, (k, v)) =~= t);
}

/// The file that holds the launcher profiles of the user whose home is
/// `home`.
pub fn launcher_profiles_file(home: &String) -> (r: String)
    ensures
        r@ == home@ + "/.minecraft/launcher_profiles.json"@,
{
    cat(home.as_str(), "/.minecraft/launcher_profiles.json")
}

/// All profiles, in the order they are kept, each under a key that no other
/// profile has.
pub struct LauncherProfile {
    profiles: Vec<(String, GameProfiles)>,
}

impl View for LauncherProfile {
    type V = Seq<(Seq<char>, GameProfilesView)>;

    closed spec fn view(&self) -> Seq<(Seq<char>, GameProfilesView)> {
        self.profiles@.map_values(|e: (String, GameProfiles)| (e.0@, e.1@))
    }
}

impl LauncherProfile {
    #[verifier::type_invariant]
    spec fn unique_keys(&self) -> bool {
        keys_unique(self@)
    }

    /// The profiles as a map from key to profile.
    pub open spec fn as_map(&self) -> Map<Seq<char>, GameProfilesView> {
        entries_map(self@)
    }

    /// No profile at all.
    pub fn new() -> (r: LauncherProfile)
        ensures
            r@ == Seq::<(Seq<char>, GameProfilesView)>::empty(),
    {
        let r = LauncherProfile { profiles: Vec::new() };
        assert(r@ =~= Seq::<(Seq<char>, GameProfilesView)>::empty());
        r
    }


    /// The profiles of `entries`, each stored in turn as [`Self::insert`]
    /// does: a later entry with a key seen before replaces that profile.
    pub fn from_entries(entries: Vec<(String, GameProfiles)>) -> (r: LauncherProfile)
        ensures
            r@ == insert_all(
                Seq::empty(),
                entries@.map_values(|e: (String, GameProfiles)| (e.0@, e.1@)),
            ),
            keys_unique(r@),
    {
        let ghost all = entries@.map_values(|e: (String, GameProfiles)| (e.0@, e.1@));
        let mut rest = entries;
        let mut r = LauncherProfile::new();
        let ghost mut done: int = 0;
        while rest.len() > 0
            invariant
                0 <= done <= all.len(),
                rest@.map_values(|e: (String, GameProfiles)| (e.0@, e.1@)) == all.subrange(done, all.len() as int),
                r@ == insert_all(Seq::empty(), all.take(done)),
            decreases rest.len(),
        {
            let ghost before = rest@;
            let e = rest.remove(0);
            proof {
                let f = |e: (String, GameProfiles)| (e.0@, e.1@);
                assert(before.map_values(f).len() == all.len() - done);
                assert(before[0] == e);
                assert(before.map_values(f)[0] == (e.0@, e.1@));
                assert(all.subrange(done, all.len() as int)[0] == all[done]);
                assert(all[done] == (e.0@, e.1@));
                assert(all.take(done + 1).drop_last() =~= all.take(done));
                assert(all.take(done + 1).last() == all[done]);
                assert forall|k: int| 0 <= k < rest@.len() implies #[trigger] rest@.map_values(f)[k]
                    == all[done + 1 + k] by {
                    assert(rest@[k] == before[k + 1]);
                    assert(before.map_values(f)[k + 1] == all.subrange(done, all.len() as int)[k + 1]);
                }
                assert(rest@.map_values(|e: (String, GameProfiles)| (e.0@, e.1@)) =~= all.subrange(
                    done + 1,
                    all.len() as int,
                ));
            }
            r.insert(e.0, e.1);
            proof {
                done = done + 1;
            }
        }
        assert(all.take(done) =~= all);
        proof {
            use_type_invariant(&r);
        }
        r
    }

    /// The keyed profiles, in order.
    pub fn into_entries(self) -> (r: Vec<(String, GameProfiles)>)
        ensures
            r@.map_values(|e: (String, GameProfiles)| (e.0@, e.1@)) == self@,
            keys_unique(self@),
    {
        proof {
            use_type_invariant(&self);
        }
        self.profiles
    }

    /// The number of profiles.
    pub fn len(&self) -> (r: usize)
        ensures
            r == self@.len(),
    {
        self.profiles.len()
    }

    /// The key and profile at position `i`.
    pub fn entry(&self, i: usize) -> (r: (&String, &GameProfiles))
        requires
            i < self@.len(),
        ensures
            r.0@ == self@[i as int].0,
            r.1@ == self@[i as int].1,
    {
        let e = &self.profiles[i];
        (&e.0, &e.1)
    }

    /// The position of the profile with key `key`, if there is one.
    pub fn find(&self, key: &String) -> (r: Option<usize>)
        ensures
            match r {
                Some(i) => i < self@.len() && self@[i as int].0 == key@,
                None => !has_key(self@, key@),
            },
    {
        let n = self.profiles.len();
        for i in 0..n
            invariant
                n == self.profiles@.len(),
                n == self@.len(),
                forall|j: int| 0 <= j < i ==> self@[j].0 != key@,
        {
            if self.profiles[i].0 == *key {
                return Some(i);
            }
        }
        None
    }

    /// Stores `profile` under `key`, replacing the profile that had that key
    /// (which keeps its place) or adding it last.
    pub fn insert(&mut self, key: String, profile: GameProfiles)
        ensures
            final(self)@ == insert_entry(old(self)@, key@, profile@),
            final(self).as_map() == old(self).as_map().insert(key@, profile@),
    {
        proof {
            use_type_invariant(&*self);
            lemma_insert_entry(self@, key@, profile@);
        }
        let ghost old_view = self@;
        let ghost k = key@;
        let ghost v = profile@;
        match self.find(&key) {
            Some(i) => {
                proof {
                    assert(old_view[i as int].0 == k);
                    let j = key_index(old_view, k);
                    assert(old_view[j].0 == k);
                    assert(i == j);
                    assert(old_view.update(i as int, (k, v)) =~= self.profiles@.update(
                        i as int,
                        (key, profile),
                    ).map_values(|e: (String, GameProfiles)| (e.0@, e.1@)));
                }
                let mut entries: Vec<(String, GameProfiles)> = Vec::new();
                std::mem::swap(&mut entries, &mut self.profiles);
                entries.set(i, (key, profile));
                self.profiles = entries;
            },
            None => {
                proof {
                    assert(old_view.push((k, v)) =~= self.profiles@.push((key, profile)).map_values(
                        |e: (String, GameProfiles)| (e.0@, e.1@),
                    ));
                }
                let mut entries: Vec<(String, GameProfiles)> = Vec::new();
                std::mem::swap(&mut entries, &mut self.profiles);
                entries.push((key, profile));
                self.profiles = entries;
            },
        }
    }
}

/// The profile that a freshly installed game gets.
pub open spec fn new_game_profile(
    version: Seq<char>,
    game_name: Seq<char>,
    home: Seq<char>,
) -> GameProfilesView {
    GameProfilesView {
        game_dir: Some(home + "/.minecraft/versions/"@ + game_name + "/"@),
        java_dir: Some("/usr/bin/java"@),
        last_version_id: version,
        name: game_name,
        profile_type: "custom"@,
    }
}

/// The key of a game's profile: the SHA-1 digest of its name, in hexadecimal.
pub open spec fn profile_key(game_name: Seq<char>) -> Seq<char> {
    hex_lower(sha1_digest(encode_utf8(game_name)))
}

/// Records a freshly installed game in the launcher profiles.
///
/// The profile is keyed by the hexadecimal SHA-1 digest of the game's name
/// and says: the game directory `<home>/.minecraft/versions/<game_name>/`,
/// the Java at `/usr/bin/java`, the version `version`, the name
/// `game_name`, the type `custom`. A profile with the same key is replaced
/// in place; otherwise the new one goes last.
pub fn generate_launch_profile(
    launcher_profiles: &mut LauncherProfile,
    version: String,
    game_name: String,
    home: &String,
)
    ensures
        final(launcher_profiles)@ == insert_entry(
            old(launcher_profiles)@,
            profile_key(game_name@),
            new_game_profile(version@, game_name@, home@),
        ),
        final(launcher_profiles).as_map() == old(launcher_profiles).as_map().insert(
            profile_key(game_name@),
            new_game_profile(version@, game_name@, home@),
        ),
{
    let key = text_sha1_hex(game_name.as_str());
    let mut game_dir = cat(home.as_str(), "/.minecraft/versions/");
    game_dir.append(game_name.as_str());
    game_dir.append("/");
    let profile = GameProfiles {
        gameDir: Some(game_dir),
        javaDir: Some(owned("/usr/bin/java")),
        lastVersionId: version,
        name: game_name,
        profile_type: owned("custom"),
    };
    launcher_profiles.insert(key, profile);
}

} // verus!
