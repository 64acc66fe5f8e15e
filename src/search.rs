use vstd::prelude::*;
use crate::node::{DirNode, FileNode, files_of, files_of_dirs};
use crate::text::{lower_of, contains_seq, lowercase, str_contains};

verus! {

/// A file named `name` is shown under `query`: the query is empty, or its
/// lower-case form occurs in the lower-case name.
pub open spec fn name_visible(name: Seq<char>, query: Seq<char>) -> bool {
    query.len() == 0 || contains_seq(lower_of(name), lower_of(query))
}

/// Some file among `fs` has a lower-case name that contains `folded`.
pub open spec fn any_name_contains(fs: Seq<FileNode>, folded: Seq<char>) -> bool {
    exists|i: int| 0 <= i < fs.len() && contains_seq(lower_of(#[trigger] fs[i].name@), folded)
}

/// The subtree is shown under `query`: the query is empty, or some file of it
/// (names of directories do not count) is visible.
pub open spec fn subtree_matches(d: DirNode, query: Seq<char>) -> bool {
    query.len() == 0 || any_name_contains(files_of(d), lower_of(query))
}

/// Whether a file named `name` is visible under `query`.
pub fn is_visible(name: &str, query: &str) -> (r: bool)
    ensures
        r == name_visible(name@, query@),
{
    if query.is_empty() {
        return true;
    }
    let q = lowercase(query);
    let n = lowercase(name);
    str_contains(n.as_str(), q.as_str())
}

proof fn lemma_any_concat(a: Seq<FileNode>, b: Seq<FileNode>, q: Seq<char>)
    ensures
        any_name_contains(a + b, q) == (any_name_contains(a, q) || any_name_contains(b, q)),
{
    if any_name_contains(a + b, q) {
        let i = choose|i: int| 0 <= i < (a + b).len() && contains_seq(lower_of(#[trigger] (a + b)[i].name@), q);
        if i < a.len() {
            assert(a[i] == (a + b)[i]);
        } else {
            assert(b[i - a.len()] == (a + b)[i]);
        }
    }
    if any_name_contains(a, q) {
        let i = choose|i: int| 0 <= i < a.len() && contains_seq(lower_of(#[trigger] a[i].name@), q);
        assert((a + b)[i] == a[i]);
    }
    if any_name_contains(b, q) {
        let i = choose|i: int| 0 <= i < b.len() && contains_seq(lower_of(#[trigger] b[i].name@), q);
        assert((a + b)[a.len() + i] == b[i]);
    }
}

/// Whether some file of the subtree has a lower-case name containing
/// `folded`, which is taken to be a query already in lower case.
pub fn matches_folded(dir: &DirNode, folded: &str) -> (r: bool)
    ensures
        r == any_name_contains(files_of(*dir), folded@),
    decreases *dir,
{
    let ghost own = dir.children_files@;
    let ghost subs = dir.children_dirs@;
    proof {
        assert(files_of(*dir) == own + files_of_dirs(subs));
        lemma_any_concat(own, files_of_dirs(subs), folded@);
    }
    let mut i: usize = 0;
    while i < dir.children_files.len()
        invariant
            own == dir.children_files@,
            i <= own.len(),
            !any_name_contains(own.take(i as int), folded@),
        decreases own.len() - i,
    {
        let n = lowercase(dir.children_files[i].name.as_str());
        if str_contains(n.as_str(), folded) {
            assert(files_of(*dir)[i as int] == own[i as int]);
            assert(contains_seq(lower_of(files_of(*dir)[i as int].name@), folded@));
            return true;
        }
        proof {
            assert(own.take(i + 1) =~= own.take(i as int) + seq![own[i as int]]);
            lemma_any_concat(own.take(i as int), seq![own[i as int]], folded@);
            if any_name_contains(seq![own[i as int]], folded@) {
                let k = choose|k: int| 0 <= k < 1 && contains_seq(lower_of(#[trigger] seq![own[i as int]][k].name@), folded@);
                assert(seq![own[i as int]][k] == own[i as int]);
            }
        }
        i = i + 1;
    }
    assert(own.take(own.len() as int) =~= own);
    let mut j: usize = 0;
    while j < dir.children_dirs.len()
        invariant
            subs == dir.children_dirs@,
            j <= subs.len(),
            !any_name_contains(files_of_dirs(subs.take(j as int)), folded@),
        decreases subs.len() - j,
    {
        proof {
            assert(subs.take(j + 1).drop_last() =~= subs.take(j as int));
            lemma_any_concat(files_of_dirs(subs.take(j as int)), files_of(subs[j as int]), folded@);
        }
        if matches_folded(&dir.children_dirs[j], folded) {
            proof {
                crate::node::lemma_files_of_dirs_split(subs, j + 1);
                assert(subs.take(j + 1).last() == subs[j as int]);
                assert(files_of_dirs(subs.take(j + 1))
                    == files_of_dirs(subs.take(j as int)) + files_of(subs[j as int]));
                lemma_any_concat(files_of_dirs(subs.take(j + 1)), files_of_dirs(subs.skip(j + 1)), folded@);
                assert(files_of(*dir) == dir.children_files@ + files_of_dirs(subs));
                lemma_any_concat(dir.children_files@, files_of_dirs(subs), folded@);
            }
            return true;
        }
        j = j + 1;
    }
    assert(subs.take(subs.len() as int) =~= subs);
    false
}

/// Whether the directory should be shown under `query`.
pub fn matches_search(dir: &DirNode, query: &str) -> (r: bool)
    ensures
        r == subtree_matches(*dir, query@),
{
    if query.is_empty() {
        return true;
    }
    let q = lowercase(query);
    matches_folded(dir, q.as_str())
}

} // verus!
