//! The classpath of a game started through the Fabric loader: the game's
//! libraries, then the loader's (named by Maven coordinates), each file once.
use vstd::prelude::*;
use vstd::string::*;
use crate::classpath::{dedup, dedup_strings, library_files, push_library_files};
use crate::text::{chars_of, join, join_strings, owned, string_of};

verus! {

/// The pieces of `s` between occurrences of `c` (what `str::split` yields):
/// one more piece than `s` has occurrences of `c`.
pub open spec fn split_on(s: Seq<char>, c: char) -> Seq<Seq<char>>
    decreases s.len(),
{
    if s.len() == 0 {
        seq![Seq::empty()]
    } else {
        let r = split_on(s.drop_last(), c);
        if s.last() == c {
            r.push(Seq::empty())
        } else {
            r.update(r.len() - 1, r.last().push(s.last()))
        }
    }
}


/// There is always at least one piece.
pub proof fn lemma_split_on_nonempty(s: Seq<char>, c: char)
    ensures
        split_on(s, c).len() >= 1,
    decreases s.len(),
{
    if s.len() > 0 {
        lemma_split_on_nonempty(s.drop_last(), c);
    }
}

/// A separator at the end starts a new, empty piece.
proof fn lemma_split_sep(a: Seq<char>, c: char)
    ensures
        split_on(a + seq![c], c) == split_on(a, c).push(Seq::empty()),
{
    assert((a + seq![c]).drop_last() =~= a);
    assert((a + seq![c]).last() == c);
}

/// The pieces of every item of `l`, split at `c`, one item after another.
pub open spec fn split_all(l: Seq<Seq<char>>, c: char) -> Seq<Seq<char>>
    decreases l.len(),
{
    if l.len() == 0 {
        Seq::empty()
    } else {
        split_all(l.drop_last(), c) + split_on(l.last(), c)
    }
}

/// Splitting text that holds a separator between `a` and `b` gives the
/// pieces of `a` followed by the pieces of `b`.
proof fn lemma_split_concat(a: Seq<char>, b: Seq<char>, c: char)
    ensures
        split_on(a + seq![c] + b, c) == split_on(a, c) + split_on(b, c),
    decreases b.len(),
{
    lemma_split_on_nonempty(a, c);
    if b.len() == 0 {
        assert(a + seq![c] + b =~= a + seq![c]);
        lemma_split_sep(a, c);
        assert(split_on(b, c) =~= seq![Seq::<char>::empty()]);
        assert(split_on(a, c).push(Seq::empty()) =~= split_on(a, c) + seq![Seq::<char>::empty()]);
    } else {
        let b2 = b.drop_last();
        let x = b.last();
        lemma_split_concat(a, b2, c);
        lemma_split_on_nonempty(b2, c);
        assert((a + seq![c] + b).drop_last() =~= a + seq![c] + b2);
        assert((a + seq![c] + b).last() == x);
        assert(b.drop_last() =~= b2);
        let ra = split_on(a, c);
        let rb2 = split_on(b2, c);
        let r = ra + rb2;
        if x == c {
            assert(r.push(Seq::empty()) =~= ra + rb2.push(Seq::empty()));
        } else {
            assert(r.update(r.len() - 1, r.last().push(x)) =~= ra + rb2.update(
                rb2.len() - 1,
                rb2.last().push(x),
            ));
        }
    }
}

/// Splitting a non-empty list joined with `c` at `c` gives the pieces of
/// its items, item by item.
pub proof fn lemma_split_join(l: Seq<Seq<char>>, c: char)
    requires
        l.len() >= 1,
    ensures
        split_on(join(l, seq![c]), c) == split_all(l, c),
    decreases l.len(),
{
    if l.len() == 1 {
        assert(join(l, seq![c]) == l[0]);
        assert(l.drop_last() =~= Seq::<Seq<char>>::empty());
        assert(split_all(l.drop_last(), c) == Seq::<Seq<char>>::empty());
        assert(l.last() == l[0]);
        assert(split_all(l, c) =~= split_on(l[0], c));
    } else {
        let init = l.drop_last();
        lemma_split_join(init, c);
        lemma_split_concat(join(init, seq![c]), l.last(), c);
    }
}

/// A piece of the list is a piece of one of its items, and every piece of
/// every item is a piece of the list.
pub proof fn lemma_split_all_contains(l: Seq<Seq<char>>, c: char, x: Seq<char>)
    ensures
        split_all(l, c).contains(x) <==> exists|i: int|
            0 <= i < l.len() && #[trigger] split_on(l[i], c).contains(x),
    decreases l.len(),
{
    if l.len() > 0 {
        let init = l.drop_last();
        lemma_split_all_contains(init, c, x);
        let a = split_all(init, c);
        let b = split_on(l.last(), c);
        if (a + b).contains(x) {
            let k = choose|k: int| 0 <= k < (a + b).len() && (a + b)[k] == x;
            if k < a.len() {
                assert(a[k] == x);
                let i = choose|i: int| 0 <= i < init.len() && #[trigger] split_on(init[i], c).contains(x);
                assert(l[i] == init[i]);
                assert(split_on(l[i], c).contains(x));
            } else {
                assert(b[k - a.len()] == x);
                assert(b.contains(x));
                assert(l[l.len() - 1] == l.last());
                assert(split_on(l[l.len() - 1], c).contains(x));
            }
        }
        if exists|i: int| 0 <= i < l.len() && #[trigger] split_on(l[i], c).contains(x) {
            let i = choose|i: int| 0 <= i < l.len() && #[trigger] split_on(l[i], c).contains(x);
            let k = choose|k: int| 0 <= k < split_on(l[i], c).len() && split_on(l[i], c)[k] == x;
            if i < init.len() {
                assert(init[i] == l[i]);
                assert(a.contains(x));
                let m = choose|m: int| 0 <= m < a.len() && a[m] == x;
                assert((a + b)[m] == x);
            } else {
                assert(l[i] == l.last());
                assert((a + b)[a.len() + k] == x);
            }
            assert((a + b).contains(x));
        }
        assert(split_all(l, c) == a + b);
    }
}


/// Text without `c` is one piece.
proof fn lemma_split_whole(s: Seq<char>, c: char)
    requires
        forall|k: int| 0 <= k < s.len() ==> s[k] != c,
    ensures
        split_on(s, c) == seq![s],
    decreases s.len(),
{
    if s.len() > 0 {
        let init = s.drop_last();
        lemma_split_whole(init, c);
        assert(s.last() == s[s.len() - 1]);
        assert(s.last() != c);
        assert(init.push(s.last()) =~= s);
        assert(seq![init].update(0, init.push(s.last())) =~= seq![s]);
    } else {
        assert(s =~= Seq::<char>::empty());
    }
}

/// The library file of a coordinate `group:artifact:version` (fields
/// without `:`) is the library directory, then the group with each `.` as
/// `/`, the artifact, the version, and the jar named `artifact-version`;
/// every field is used exactly as written.
pub proof fn law_maven_path(home: Seq<char>, group: Seq<char>, artifact: Seq<char>, version: Seq<char>)
    requires
        forall|k: int| 0 <= k < group.len() ==> group[k] != ':',
        forall|k: int| 0 <= k < artifact.len() ==> artifact[k] != ':',
        forall|k: int| 0 <= k < version.len() ==> version[k] != ':',
    ensures
        ({
            let name = group + seq![':'] + artifact + seq![':'] + version;
            &&& is_maven_name(name)
            &&& maven_path(home, name) == home + "/.minecraft/libraries"@ + "/"@ + group.map_values(
                |x: char| if x == '.' { '/' } else { x },
            ) + "/"@ + artifact + "/"@ + version + "/"@ + artifact + "-"@ + version + ".jar"@
        }),
{
    let c = ':';
    lemma_split_whole(group, c);
    lemma_split_whole(artifact, c);
    lemma_split_whole(version, c);
    lemma_split_concat(group, artifact, c);
    lemma_split_concat(group + seq![c] + artifact, version, c);
    let name = group + seq![':'] + artifact + seq![':'] + version;
    assert(split_on(name, c) =~= seq![group, artifact, version]);
}

/// `s` with every `a` replaced by `b`.
pub open spec fn replace_char(s: Seq<char>, a: char, b: char) -> Seq<char> {
    s.map_values(|x: char| if x == a { b } else { x })
}

/// A Maven coordinate `group:artifact:version` (exactly three parts).
pub open spec fn is_maven_name(name: Seq<char>) -> bool {
    split_on(name, ':').len() == 3
}

/// The file of the library with Maven coordinate `name` under the library
/// directory of `home`: `<group with . as />/<artifact>/<version>/<artifact>-<version>.jar`.
pub open spec fn maven_path(home: Seq<char>, name: Seq<char>) -> Seq<char> {
    let p = split_on(name, ':');
    home + "/.minecraft/libraries"@ + "/"@ + replace_char(p[0], '.', '/') + "/"@ + p[1] + "/"@
        + p[2] + "/"@ + p[1] + "-"@ + p[2] + ".jar"@
}

/// The library files of all Maven coordinates in `names`, in order.
pub open spec fn maven_paths(home: Seq<char>, names: Seq<Seq<char>>) -> Seq<Seq<char>> {
    names.map_values(|n: Seq<char>| maven_path(home, n))
}

/// The library files that a Fabric classpath is made of, before
/// repetitions are removed: those of the game, then those of the loader.
pub open spec fn fabric_entries(
    home: Seq<char>,
    version_libraries: Seq<Seq<char>>,
    mod_libraries: Option<Seq<Seq<char>>>,
) -> Seq<Seq<char>> {
    library_files(home, version_libraries) + match mod_libraries {
        Some(m) => maven_paths(home, m),
        None => Seq::empty(),
    }
}

/// The classpath, its entries separated by `:`.
pub open spec fn fabric_classpath(
    home: Seq<char>,
    version_libraries: Seq<Seq<char>>,
    mod_libraries: Option<Seq<Seq<char>>>,
) -> Seq<char> {
    join(dedup(fabric_entries(home, version_libraries, mod_libraries)), ":"@)
}


/// The Fabric classpath is the join, by `:`, of a list in which no file
/// stands twice and which holds exactly the files that the game or the
/// loader names.
pub proof fn law_fabric_classpath(
    home: Seq<char>,
    version_libraries: Seq<Seq<char>>,
    mod_libraries: Option<Seq<Seq<char>>>,
)
    ensures
        ({
            let entries = fabric_entries(home, version_libraries, mod_libraries);
            let list = dedup(entries);
            &&& fabric_classpath(home, version_libraries, mod_libraries) == join(list, ":"@)
            &&& list.no_duplicates()
            &&& forall|x: Seq<char>| #[trigger] list.contains(x) <==> entries.contains(x)
        }),
{
    crate::classpath::lemma_dedup(fabric_entries(home, version_libraries, mod_libraries));
}

/// The pieces of `s` between the occurrences of `c`.
pub fn split_char(s: &str, c: char) -> (r: Vec<String>)
    ensures
        r.deep_view() == split_on(s@, c),
{
    let chars = chars_of(s);
    let mut parts: Vec<String> = Vec::new();
    let mut cur: Vec<char> = Vec::new();
    for i in 0..chars.len()
        invariant
            chars@ == s@,
            split_on(s@.take(i as int), c) == parts.deep_view().push(cur@),
    {
        let ch = chars[i];
        assert(s@.take(i + 1).drop_last() =~= s@.take(i as int));
        assert(s@.take(i + 1).last() == ch);
        let ghost r = parts.deep_view().push(cur@);
        if ch == c {
            let piece = string_of(&cur);
            parts.push(piece);
            cur = Vec::new();
            assert(parts.deep_view().push(cur@) =~= r.push(Seq::empty()));
        } else {
            cur.push(ch);
            assert(parts.deep_view().push(cur@) =~= r.update(r.len() - 1, r.last().push(ch)));
        }
    }
    assert(s@.take(chars.len() as int) =~= s@);
    let ghost before = parts.deep_view();
    let last = string_of(&cur);
    parts.push(last);
    assert(parts.deep_view() =~= before.push(cur@));
    parts
}

/// `s` with every `a` replaced by `b`.
pub fn replace_chars(s: &str, a: char, b: char) -> (r: String)
    ensures
        r@ == replace_char(s@, a, b),
{
    let chars = chars_of(s);
    let mut out: Vec<char> = Vec::new();
    for i in 0..chars.len()
        invariant
            chars@ == s@,
            out@ == replace_char(s@.take(i as int), a, b),
    {
        let ch = chars[i];
        if ch == a {
            out.push(b);
        } else {
            out.push(ch);
        }
        assert(out@ =~= replace_char(s@.take(i + 1), a, b));
    }
    assert(s@.take(chars.len() as int) =~= s@);
    string_of(&out)
}

/// Whether `name` is a Maven coordinate of exactly three parts.
pub fn is_maven_coordinate(name: &str) -> (r: bool)
    ensures
        r == is_maven_name(name@),
{
    let parts = split_char(name, ':');
    parts.len() == 3
}

/// The library file of the Maven coordinate `name` (`group:artifact:version`)
/// under the library directory of `home`.
pub fn maven_name_to_path(name: &str, home: &String) -> (r: String)
    requires
        is_maven_name(name@),
    ensures
        r@ == maven_path(home@, name@),
{
    let parts = split_char(name, ':');
    assert(parts.deep_view()[0] == parts[0]@);
    assert(parts.deep_view()[1] == parts[1]@);
    assert(parts.deep_view()[2] == parts[2]@);
    let group_path = replace_chars(parts[0].as_str(), '.', '/');
    let artifact = parts[1].as_str();
    let version = parts[2].as_str();
    let mut r = owned(home.as_str());
    r.append("/.minecraft/libraries");
    r.append("/");
    r.append(group_path.as_str());
    r.append("/");
    r.append(artifact);
    r.append("/");
    r.append(version);
    r.append("/");
    r.append(artifact);
    r.append("-");
    r.append(version);
    r.append(".jar");
    r
}

/// `front` followed by the library files of all Maven coordinates `names`.
fn push_maven_files(front: &mut Vec<String>, home: &String, names: &Vec<String>)
    requires
        forall|i: int| 0 <= i < names.len() ==> is_maven_name(#[trigger] names.deep_view()[i]),
    ensures
        final(front).deep_view() == old(front).deep_view() + maven_paths(home@, names.deep_view()),
{
    let ghost start = front.deep_view();
    let ghost nv = names.deep_view();
    for i in 0..names.len()
        invariant
            nv == names.deep_view(),
            forall|k: int| 0 <= k < names.len() ==> is_maven_name(#[trigger] nv[k]),
            front.deep_view() == start + maven_paths(home@, nv.take(i as int)),
    {
        assert(nv[i as int] == names[i as int]@);
        let f = maven_name_to_path(names[i].as_str(), home);
        let ghost before = front.deep_view();
        front.push(f);
        assert(front.deep_view() =~= before.push(maven_path(home@, nv[i as int])));
        assert(maven_paths(home@, nv.take(i + 1)) =~= maven_paths(home@, nv.take(i as int)).push(
            maven_path(home@, nv[i as int]),
        ));
    }
    assert(nv.take(names.len() as int) =~= nv);
}

/// The classpath of a game started through Fabric.
///
/// `version_libraries` are the library paths that the game's `version.json`
/// lists, each becoming the file under `home`'s library directory;
/// `mod_libraries` are the Maven coordinates that the loader's json lists,
/// each becoming its file by [`maven_name_to_path`]. Every file appears once
/// (where it first occurs), the entries separated by `:`. A coordinate that
/// is not made of exactly three parts is refused by `requires`.
pub fn lib_get(
    home: &String,
    version_libraries: &Vec<String>,
    mod_libraries: Option<&Vec<String>>,
) -> (r: String)
    requires
        match mod_libraries {
            Some(m) => forall|i: int| 0 <= i < m.len() ==> is_maven_name(#[trigger] m.deep_view()[i]),
            None => true,
        },
    ensures
        r@ == fabric_classpath(
            home@,
            version_libraries.deep_view(),
            match mod_libraries {
                Some(m) => Some(m.deep_view()),
                None => None,
            },
        ),
{
    let mut entries: Vec<String> = Vec::new();
    push_library_files(&mut entries, home, version_libraries);
    match mod_libraries {
        Some(m) => {
            push_maven_files(&mut entries, home, m);
        },
        None => {
            assert(entries.deep_view() =~= entries.deep_view() + Seq::<Seq<char>>::empty());
        },
    }
    let lib = dedup_strings(&entries);
    join_strings(&lib, ":")
}

} // verus!
