//! The classpath of a game started through a Forge-like mod loader (Forge,
//! NeoForge): the game's libraries, then the loader's, each file once, with
//! the bootstrap launcher moved to the front.
use vstd::prelude::*;
use crate::classpath::{dedup, dedup_strings, library_files, push_library_files};
use crate::lib_get_fabric::{lemma_split_all_contains, lemma_split_join, split_on};
use crate::text::{contains_sub, join, join_strings, str_contains};

verus! {

/// The marker that names the loader's bootstrap launcher library.
pub open spec fn is_bootstrap(entry: Seq<char>) -> bool {
    contains_sub(entry, "bootstraplauncher"@)
}

/// The entries of `list` that are not the bootstrap launcher, in order.
pub open spec fn without_bootstrap(list: Seq<Seq<char>>) -> Seq<Seq<char>>
    decreases list.len(),
{
    if list.len() == 0 {
        Seq::empty()
    } else {
        let rest = without_bootstrap(list.drop_last());
        if is_bootstrap(list.last()) {
            rest
        } else {
            rest.push(list.last())
        }
    }
}

/// The last entry of `list` that is the bootstrap launcher, if any.
pub open spec fn last_bootstrap(list: Seq<Seq<char>>) -> Option<Seq<char>>
    decreases list.len(),
{
    if list.len() == 0 {
        None
    } else if is_bootstrap(list.last()) {
        Some(list.last())
    } else {
        last_bootstrap(list.drop_last())
    }
}

/// `list` with its bootstrap launcher entries taken out and the last of
/// them, if there was one, put first.
pub open spec fn bootstrap_first(list: Seq<Seq<char>>) -> Seq<Seq<char>> {
    match last_bootstrap(list) {
        Some(b) => seq![b] + without_bootstrap(list),
        None => without_bootstrap(list),
    }
}

/// The library files that a Forge-like classpath is made of, before
/// repetitions are removed: those of the game, then those of the loader.
pub open spec fn forgelike_entries(
    home: Seq<char>,
    version_libraries: Seq<Seq<char>>,
    mod_libraries: Option<Seq<Seq<char>>>,
) -> Seq<Seq<char>> {
    library_files(home, version_libraries) + match mod_libraries {
        Some(m) => library_files(home, m),
        None => Seq::empty(),
    }
}

/// The classpath, its entries separated by `:`.
pub open spec fn forgelike_classpath(
    home: Seq<char>,
    version_libraries: Seq<Seq<char>>,
    mod_libraries: Option<Seq<Seq<char>>>,
) -> Seq<char> {
    join(bootstrap_first(dedup(forgelike_entries(home, version_libraries, mod_libraries))), ":"@)
}


/// What taking the bootstrap launcher entries out keeps: exactly the other
/// entries, still without repetitions when there were none.
pub proof fn lemma_without_bootstrap(list: Seq<Seq<char>>)
    ensures
        forall|x: Seq<char>| #[trigger] without_bootstrap(list).contains(x)
            <==> (list.contains(x) && !is_bootstrap(x)),
        forall|i: int| 0 <= i < without_bootstrap(list).len()
            ==> !is_bootstrap(#[trigger] without_bootstrap(list)[i]),
        list.no_duplicates() ==> without_bootstrap(list).no_duplicates(),
    decreases list.len(),
{
    if list.len() > 0 {
        let init = list.drop_last();
        lemma_without_bootstrap(init);
        let rest = without_bootstrap(init);
        assert forall|x: Seq<char>| #[trigger] without_bootstrap(list).contains(x)
            <==> (list.contains(x) && !is_bootstrap(x)) by {
            if list.contains(x) && !is_bootstrap(x) {
                let k = choose|k: int| 0 <= k < list.len() && list[k] == x;
                if k < list.len() - 1 {
                    assert(init[k] == x);
                    assert(rest.contains(x));
                    let j = choose|j: int| 0 <= j < rest.len() && rest[j] == x;
                    if !is_bootstrap(list.last()) {
                        assert(rest.push(list.last())[j] == x);
                    }
                } else {
                    assert(rest.push(list.last())[rest.len() as int] == x);
                }
            }
            if without_bootstrap(list).contains(x) {
                let j = choose|j: int| 0 <= j < without_bootstrap(list).len() && without_bootstrap(list)[j] == x;
                if j < rest.len() {
                    assert(rest[j] == x);
                    assert(rest.contains(x));
                    let k = choose|k: int| 0 <= k < init.len() && init[k] == x;
                    assert(list[k] == x);
                } else {
                    assert(list[list.len() - 1] == x);
                }
            }
        }
        if list.no_duplicates() {
            assert(init.no_duplicates());
            if !is_bootstrap(list.last()) {
                assert(!init.contains(list.last()));
                assert(!rest.contains(list.last()));
            }
        }
    }
}

/// The bootstrap launcher entry that goes first is one of the list's
/// bootstrap launcher entries, and there is one whenever the list has any.
pub proof fn lemma_last_bootstrap(list: Seq<Seq<char>>)
    ensures
        last_bootstrap(list) is Some <==> exists|i: int| 0 <= i < list.len() && is_bootstrap(#[trigger] list[i]),
        last_bootstrap(list) matches Some(b) ==> list.contains(b) && is_bootstrap(b),
    decreases list.len(),
{
    if list.len() > 0 {
        let init = list.drop_last();
        lemma_last_bootstrap(init);
        if !is_bootstrap(list.last()) {
            if exists|i: int| 0 <= i < list.len() && is_bootstrap(#[trigger] list[i]) {
                let i = choose|i: int| 0 <= i < list.len() && is_bootstrap(#[trigger] list[i]);
                assert(init[i] == list[i]);
            }
            if last_bootstrap(init) is Some {
                let b = last_bootstrap(init)->0;
                let k = choose|k: int| 0 <= k < init.len() && init[k] == b;
                assert(list[k] == b);
            }
            if exists|i: int| 0 <= i < init.len() && is_bootstrap(#[trigger] init[i]) {
                let i = choose|i: int| 0 <= i < init.len() && is_bootstrap(#[trigger] init[i]);
                assert(list[i] == init[i]);
            }
        } else {
            assert(list[list.len() - 1] == list.last());
        }
    }
}

/// The Forge-like classpath is the join, by `:`, of a list in which no file
/// stands twice; every library file that is not the bootstrap launcher is
/// in it exactly when the game or the loader names it; when either names a
/// bootstrap launcher, the list starts with one of those and holds no other.
pub proof fn law_forgelike_classpath(
    home: Seq<char>,
    version_libraries: Seq<Seq<char>>,
    mod_libraries: Option<Seq<Seq<char>>>,
)
    ensures
        ({
            let entries = forgelike_entries(home, version_libraries, mod_libraries);
            let list = bootstrap_first(dedup(entries));
            &&& forgelike_classpath(home, version_libraries, mod_libraries) == join(list, ":"@)
            &&& list.no_duplicates()
            &&& forall|x: Seq<char>| !is_bootstrap(x) ==> (#[trigger] list.contains(x) <==> entries.contains(x))
            &&& (exists|i: int| 0 <= i < entries.len() && is_bootstrap(#[trigger] entries[i])) ==> {
                &&& list.len() > 0
                &&& is_bootstrap(list[0])
                &&& entries.contains(list[0])
                &&& forall|i: int| 1 <= i < list.len() ==> !is_bootstrap(#[trigger] list[i])
            }
            &&& (forall|i: int| 0 <= i < entries.len() ==> !is_bootstrap(#[trigger] entries[i]))
                ==> forall|i: int| 0 <= i < list.len() ==> !is_bootstrap(#[trigger] list[i])
        }),
{
    let entries = forgelike_entries(home, version_libraries, mod_libraries);
    let d = dedup(entries);
    crate::classpath::lemma_dedup(entries);
    lemma_without_bootstrap(d);
    lemma_last_bootstrap(d);
    let w = without_bootstrap(d);
    let list = bootstrap_first(d);
    if exists|i: int| 0 <= i < entries.len() && is_bootstrap(#[trigger] entries[i]) {
        let i = choose|i: int| 0 <= i < entries.len() && is_bootstrap(#[trigger] entries[i]);
        assert(entries.contains(entries[i]));
        assert(d.contains(entries[i]));
        let j = choose|j: int| 0 <= j < d.len() && d[j] == entries[i];
        assert(is_bootstrap(d[j]));
    }
    match last_bootstrap(d) {
        Some(b) => {
            assert(!w.contains(b));
            assert(list == seq![b] + w);
            assert forall|x: Seq<char>| !is_bootstrap(x) implies (#[trigger] list.contains(x) <==> entries.contains(x)) by {
                if w.contains(x) {
                    let j = choose|j: int| 0 <= j < w.len() && w[j] == x;
                    assert(list[j + 1] == x);
                }
                if list.contains(x) {
                    let j = choose|j: int| 0 <= j < list.len() && list[j] == x;
                    assert(j != 0);
                    assert(w[j - 1] == x);
                }
            }
            assert forall|i: int| 1 <= i < list.len() implies !is_bootstrap(#[trigger] list[i]) by {
                assert(list[i] == w[i - 1]);
            }
            assert forall|i: int, j: int| 0 <= i < list.len() && 0 <= j < list.len() && i != j
                implies list[i] != list[j] by {
                if i == 0 {
                    assert(list[j] == w[j - 1]);
                    assert(w.contains(w[j - 1]));
                } else if j == 0 {
                    assert(list[i] == w[i - 1]);
                    assert(w.contains(w[i - 1]));
                } else {
                    assert(list[i] == w[i - 1]);
                    assert(list[j] == w[j - 1]);
                }
            }
        },
        None => {
            assert(list == w);
            assert forall|x: Seq<char>| !is_bootstrap(x) implies (#[trigger] list.contains(x) <==> entries.contains(x)) by {}
        },
    }
}


/// Every entry of a Forge-like classpath is one of the library files it was
/// made from, and there is at least one entry when there is a file.
proof fn lemma_classpath_items(
    home: Seq<char>,
    version_libraries: Seq<Seq<char>>,
    mod_libraries: Option<Seq<Seq<char>>>,
)
    ensures
        ({
            let entries = forgelike_entries(home, version_libraries, mod_libraries);
            let list = bootstrap_first(dedup(entries));
            &&& forall|i: int| 0 <= i < list.len() ==> entries.contains(#[trigger] list[i])
            &&& entries.len() > 0 ==> list.len() > 0
        }),
{
    law_forgelike_classpath(home, version_libraries, mod_libraries);
    let entries = forgelike_entries(home, version_libraries, mod_libraries);
    let list = bootstrap_first(dedup(entries));
    assert forall|i: int| 0 <= i < list.len() implies entries.contains(#[trigger] list[i]) by {
        if !is_bootstrap(list[i]) {
            assert(list.contains(list[i]));
        } else {
            assert(exists|j: int| 0 <= j < entries.len() && is_bootstrap(#[trigger] entries[j]));
            if i != 0 {
                assert(!is_bootstrap(list[i]));
            }
        }
    }
    if entries.len() > 0 {
        if is_bootstrap(entries[0]) {
            assert(exists|j: int| 0 <= j < entries.len() && is_bootstrap(#[trigger] entries[j]));
        } else {
            assert(entries.contains(entries[0]));
            assert(list.contains(entries[0]));
        }
    }
}

/// Adding the loader's libraries only adds to the classpath: read back by
/// splitting at `:`, every piece of the classpath of the game's libraries
/// alone is a piece of the classpath with the loader's libraries too.
/// This holds when the game names at least one library and when the game
/// and the loader together name at most one bootstrap launcher file (with
/// two, only the last one stays).
pub proof fn law_loader_only_adds(
    home: Seq<char>,
    version_libraries: Seq<Seq<char>>,
    mod_libraries: Seq<Seq<char>>,
)
    requires
        version_libraries.len() > 0,
        forall|x: Seq<char>, y: Seq<char>|
            #![trigger forgelike_entries(home, version_libraries, Some(mod_libraries)).contains(x), forgelike_entries(home, version_libraries, Some(mod_libraries)).contains(y)]
            forgelike_entries(home, version_libraries, Some(mod_libraries)).contains(x)
                && forgelike_entries(home, version_libraries, Some(mod_libraries)).contains(y)
                && is_bootstrap(x) && is_bootstrap(y) ==> x == y,
    ensures
        forall|x: Seq<char>|
            #[trigger] split_on(forgelike_classpath(home, version_libraries, None), ':').contains(x)
                ==> split_on(forgelike_classpath(home, version_libraries, Some(mod_libraries)), ':').contains(
                x,
            ),
{
    reveal_strlit(":");
    assert(":"@ =~= seq![':']);
    let ev = forgelike_entries(home, version_libraries, None);
    let evm = forgelike_entries(home, version_libraries, Some(mod_libraries));
    let l1 = bootstrap_first(dedup(ev));
    let l2 = bootstrap_first(dedup(evm));
    law_forgelike_classpath(home, version_libraries, None);
    law_forgelike_classpath(home, version_libraries, Some(mod_libraries));
    lemma_classpath_items(home, version_libraries, None);
    lemma_classpath_items(home, version_libraries, Some(mod_libraries));
    assert(ev =~= library_files(home, version_libraries));
    // The game's files are among all files.
    assert forall|x: Seq<char>| ev.contains(x) implies evm.contains(x) by {
        let j = choose|j: int| 0 <= j < ev.len() && ev[j] == x;
        assert(evm[j] == ev[j]);
    }
    assert(l1.len() > 0);
    assert(l2.len() > 0);
    assert forall|x: Seq<char>| #[trigger] l1.contains(x) implies l2.contains(x) by {
        let i = choose|i: int| 0 <= i < l1.len() && l1[i] == x;
        assert(ev.contains(l1[i]));
        assert(evm.contains(x));
        if !is_bootstrap(x) {
            assert(l2.contains(x));
        } else {
            let j = choose|j: int| 0 <= j < evm.len() && evm[j] == x;
            assert(is_bootstrap(evm[j]));
            assert(evm.contains(l2[0]));
            assert(l2[0] == x);
        }
    }
    lemma_split_join(l1, ':');
    lemma_split_join(l2, ':');
    assert forall|x: Seq<char>|
        #[trigger] split_on(forgelike_classpath(home, version_libraries, None), ':').contains(x)
            implies split_on(forgelike_classpath(home, version_libraries, Some(mod_libraries)), ':').contains(x) by {
        lemma_split_all_contains(l1, ':', x);
        lemma_split_all_contains(l2, ':', x);
        let i = choose|i: int| 0 <= i < l1.len() && #[trigger] split_on(l1[i], ':').contains(x);
        assert(l1.contains(l1[i]));
        assert(l2.contains(l1[i]));
        let j = choose|j: int| 0 <= j < l2.len() && l2[j] == l1[i];
        assert(split_on(l2[j], ':').contains(x));
    }
}

/// Moves the last bootstrap launcher entry of `list` to the front and drops
/// the other ones.
pub fn put_bootstrap_first(list: Vec<String>) -> (r: Vec<String>)
    ensures
        r.deep_view() == bootstrap_first(list.deep_view()),
{
    let ghost dv = list.deep_view();
    let mut rest: Vec<String> = Vec::new();
    let mut bootstrap: Option<String> = None;
    let n = list.len();
    for i in 0..n
        invariant
            n == list.len(),
            dv == list.deep_view(),
            rest.deep_view() == without_bootstrap(dv.take(i as int)),
            match bootstrap {
                Some(b) => last_bootstrap(dv.take(i as int)) == Some(b@),
                None => last_bootstrap(dv.take(i as int)) is None,
            },
    {
        let e = &list[i];
        assert(dv.take(i + 1).drop_last() =~= dv.take(i as int));
        assert(dv.take(i + 1).last() == e@);
        if str_contains(e.as_str(), "bootstraplauncher") {
            bootstrap = Some(e.clone());
        } else {
            let ghost before = rest.deep_view();
            rest.push(e.clone());
            assert(rest.deep_view() =~= before.push(e@));
        }
    }
    assert(dv.take(n as int) =~= dv);
    match bootstrap {
        Some(b) => {
            let mut r: Vec<String> = Vec::new();
            r.push(b);
            let ghost first = r.deep_view();
            let ghost tail = rest.deep_view();
            r.append(&mut rest);
            assert(r.deep_view() =~= first + tail);
            r
        },
        None => rest,
    }
}

/// The classpath of a game started through a Forge-like loader.
///
/// `version_libraries` are the library paths that the game's `version.json`
/// lists, `mod_libraries` those of the loader's own json; each becomes the
/// file under `home`'s library directory. Every file appears once (where it
/// first occurs); the last entry naming the bootstrap launcher comes first
/// and the others naming it are left out; the entries are separated by `:`.
pub fn lib_get(
    home: &String,
    version_libraries: &Vec<String>,
    mod_libraries: Option<&Vec<String>>,
) -> (r: String)
    ensures
        r@ == forgelike_classpath(
            home@,
            version_libraries.deep_view(),
            match mod_libraries {
                Some(m) => Some(m.deep_view()),
                None => None,
            },
        ),
{
    let mut entries: Vec<String> = Vec::new();
    push_library_files(&mut entries, home, version_libraries);
    match mod_libraries {
        Some(m) => {
            push_library_files(&mut entries, home, m);
        },
        None => {
            assert(entries.deep_view() =~= entries.deep_view() + Seq::<Seq<char>>::empty());
        },
    }
    let lib = dedup_strings(&entries);
    let ordered = put_bootstrap_first(lib);
    join_strings(&ordered, ":")
}

} // verus!
