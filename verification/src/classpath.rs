//! What both classpath builders share: the file of a library under the
//! game's library directory, and the removal of repeated entries that keeps
//! the first occurrence of each.
use vstd::prelude::*;
use crate::text::{cat3};

verus! {

/// The file of the library at `path` (relative to the library directory)
/// for the user whose home directory is `home`.
pub open spec fn library_file(home: Seq<char>, path: Seq<char>) -> Seq<char> {
    home + "/.minecraft/libraries/"@ + path
}

/// The library files of all `paths`, in order.
pub open spec fn library_files(home: Seq<char>, paths: Seq<Seq<char>>) -> Seq<Seq<char>> {
    paths.map_values(|p: Seq<char>| library_file(home, p))
}

/// `s` without repetitions: each item where it first occurs, in order.
pub open spec fn dedup(s: Seq<Seq<char>>) -> Seq<Seq<char>>
    decreases s.len(),
{
    if s.len() == 0 {
        Seq::empty()
    } else {
        let d = dedup(s.drop_last());
        if d.contains(s.last()) {
            d
        } else {
            d.push(s.last())
        }
    }
}

/// Repetitions are removed, and nothing else: the result holds no item
/// twice, and holds exactly the items of the input.
pub proof fn lemma_dedup(s: Seq<Seq<char>>)
    ensures
        dedup(s).no_duplicates(),
        forall|x: Seq<char>| #[trigger] dedup(s).contains(x) <==> s.contains(x),
    decreases s.len(),
{
    if s.len() > 0 {
        lemma_dedup(s.drop_last());
        let d = dedup(s.drop_last());
        assert forall|x: Seq<char>| #[trigger] dedup(s).contains(x) <==> s.contains(x) by {
            if s.contains(x) && !s.drop_last().contains(x) {
                let k = choose|k: int| 0 <= k < s.len() && s[k] == x;
                if k < s.len() - 1 {
                    assert(s.drop_last()[k] == x);
                }
                assert(x == s.last());
                if !d.contains(x) {
                    assert(d.push(x)[d.len() as int] == x);
                }
            }
            if s.drop_last().contains(x) {
                let k = choose|k: int| 0 <= k < s.drop_last().len() && s.drop_last()[k] == x;
                assert(s[k] == x);
                assert(d.contains(x));
                let j = choose|j: int| 0 <= j < d.len() && d[j] == x;
                if !d.contains(s.last()) {
                    assert(d.push(s.last())[j] == x);
                }
            }
            if dedup(s).contains(x) {
                let j = choose|j: int| 0 <= j < dedup(s).len() && dedup(s)[j] == x;
                if j < d.len() {
                    assert(d[j] == x);
                    assert(d.contains(x));
                    let k = choose|k: int| 0 <= k < s.drop_last().len() && s.drop_last()[k] == x;
                    assert(s[k] == x);
                } else {
                    assert(x == s.last());
                    assert(s[s.len() - 1] == x);
                }
            }
        }
    }
}

/// Whether `v` holds an item equal to `s`.
pub fn holds(v: &Vec<String>, s: &String) -> (r: bool)
    ensures
        r == v.deep_view().contains(s@),
{
    let ghost dv = v.deep_view();
    for i in 0..v.len()
        invariant
            dv == v.deep_view(),
            forall|k: int| 0 <= k < i ==> dv[k] != s@,
    {
        if v[i] == *s {
            assert(dv[i as int] == s@);
            return true;
        }
    }
    false
}

/// `entries` without repetitions (the first occurrence of each stays).
pub fn dedup_strings(entries: &Vec<String>) -> (r: Vec<String>)
    ensures
        r.deep_view() == dedup(entries.deep_view()),
{
    let ghost dv = entries.deep_view();
    let mut r: Vec<String> = Vec::new();
    for i in 0..entries.len()
        invariant
            dv == entries.deep_view(),
            r.deep_view() == dedup(dv.take(i as int)),
    {
        let e = &entries[i];
        assert(dv.take(i + 1).drop_last() =~= dv.take(i as int));
        assert(dv.take(i + 1).last() == e@);
        if !holds(&r, e) {
            let ghost before = r.deep_view();
            r.push(e.clone());
            assert(r.deep_view() =~= before.push(e@));
        }
    }
    assert(dv.take(entries.len() as int) =~= dv);
    r
}

/// The file of the library at `path` for the user whose home is `home`.
pub fn library_file_of(home: &String, path: &String) -> (r: String)
    ensures
        r@ == library_file(home@, path@),
{
    cat3(home.as_str(), "/.minecraft/libraries/", path.as_str())
}

/// `front` followed by the library files of all `paths`.
pub fn push_library_files(front: &mut Vec<String>, home: &String, paths: &Vec<String>)
    ensures
        final(front).deep_view() == old(front).deep_view() + library_files(home@, paths.deep_view()),
{
    let ghost start = front.deep_view();
    let ghost pv = paths.deep_view();
    for i in 0..paths.len()
        invariant
            pv == paths.deep_view(),
            front.deep_view() == start + library_files(home@, pv.take(i as int)),
    {
        let f = library_file_of(home, &paths[i]);
        let ghost before = front.deep_view();
        front.push(f);
        assert(front.deep_view() =~= before.push(library_file(home@, pv[i as int])));
        assert(library_files(home@, pv.take(i + 1)) =~= library_files(home@, pv.take(i as int)).push(
            library_file(home@, pv[i as int]),
        ));
    }
    assert(pv.take(paths.len() as int) =~= pv);
}

} // verus!
