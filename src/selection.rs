use vstd::prelude::*;
use crate::node::{DirNode, FileNode, files_of, files_of_dirs, retagged, with_selected};
use crate::search::{is_visible, name_visible};

verus! {

/// What bulk selection under `query` does to one file: a visible file gets
/// the mark `state`, any other file keeps its own.
pub open spec fn selection_update(state: bool, query: Seq<char>) -> spec_fn(FileNode) -> FileNode {
    |f: FileNode| if name_visible(f.name@, query) { with_selected(f, state) } else { f }
}

/// `p` is one of `paths`.
pub open spec fn path_listed(paths: Seq<String>, p: Seq<char>) -> bool {
    exists|i: int| 0 <= i < paths.len() && (#[trigger] paths[i])@ == p
}

/// What restoring `paths` does to one file: a listed file becomes marked,
/// any other file keeps its own mark.
pub open spec fn restore_update(paths: Seq<String>) -> spec_fn(FileNode) -> FileNode {
    |f: FileNode| if path_listed(paths, f.path@) { with_selected(f, true) } else { f }
}

/// Every file of `fs` is marked.
pub open spec fn all_selected(fs: Seq<FileNode>) -> bool {
    forall|i: int| 0 <= i < fs.len() ==> (#[trigger] fs[i]).selected
}

/// The folder's check box is on: its subtree holds a file, and every file of
/// the subtree is marked.
pub open spec fn fully_selected(d: DirNode) -> bool {
    files_of(d).len() > 0 && all_selected(files_of(d))
}

/// The paths of the marked files of `fs`, in order.
pub open spec fn selected_paths(fs: Seq<FileNode>) -> Seq<String>
    decreases fs.len(),
{
    if fs.len() == 0 {
        Seq::empty()
    } else if fs.last().selected {
        selected_paths(fs.drop_last()).push(fs.last().path)
    } else {
        selected_paths(fs.drop_last())
    }
}

/// Under `query`, mark (`state == true`) or unmark every visible file of the
/// subtree; files hidden by the query keep their marks.
pub fn set_dir_selection(dir: &mut DirNode, state: bool, query: &str)
    ensures
        retagged(*old(dir), *final(dir), selection_update(state, query@)),
    decreases *old(dir),
{
    let ghost old_dir = *dir;
    let mut i: usize = 0;
    while i < dir.children_files.len()
        invariant
            dir.name == old_dir.name,
            dir.path == old_dir.path,
            dir.children_dirs == old_dir.children_dirs,
            dir.children_files@.len() == old_dir.children_files@.len(),
            i <= dir.children_files@.len(),
            forall|k: int| 0 <= k < i ==> dir.children_files@[k] == selection_update(state, query@)(old_dir.children_files@[k]),
            forall|k: int| i <= k < dir.children_files@.len() ==> dir.children_files@[k] == old_dir.children_files@[k],
        decreases dir.children_files@.len() - i,
    {
        let ghost before = dir.children_files@[i as int];
        if is_visible(dir.children_files[i].name.as_str(), query) {
            let f = &mut dir.children_files[i];
            f.selected = state;
            assert(dir.children_files@[i as int] == with_selected(before, state));
        }
        assert(dir.children_files@[i as int] == selection_update(state, query@)(old_dir.children_files@[i as int]));
        i = i + 1;
    }
    assert(dir.children_files@ =~= old_dir.children_files@.map_values(selection_update(state, query@)));
    let mut j: usize = 0;
    while j < dir.children_dirs.len()
        invariant
            old_dir == *old(dir),
            dir.name == old_dir.name,
            dir.path == old_dir.path,
            dir.children_files@ == old_dir.children_files@.map_values(selection_update(state, query@)),
            dir.children_dirs@.len() == old_dir.children_dirs@.len(),
            j <= dir.children_dirs@.len(),
            forall|k: int| 0 <= k < j ==> retagged(#[trigger] old_dir.children_dirs@[k], dir.children_dirs@[k], selection_update(state, query@)),
            forall|k: int| j <= k < dir.children_dirs@.len() ==> dir.children_dirs@[k] == old_dir.children_dirs@[k],
        decreases dir.children_dirs@.len() - j,
    {
        let ghost c = old_dir.children_dirs@[j as int];
        proof {
            assert(dir.children_dirs@[j as int] == c);
            assert(decreases_to!(old_dir => old_dir.children_dirs));
            assert(decreases_to!(old_dir.children_dirs => old_dir.children_dirs@));
            assert(decreases_to!(old_dir.children_dirs@ => c));
            assert(decreases_to!(old_dir => c));
        }
        let child = &mut dir.children_dirs[j];
        assert(*child == c);
        assert(decreases_to!(old_dir => *child));
        set_dir_selection(child, state, query);
        assert(retagged(c, dir.children_dirs@[j as int], selection_update(state, query@)));
        j = j + 1;
    }
}

} // verus!

verus! {

proof fn lemma_all_selected_concat(a: Seq<FileNode>, b: Seq<FileNode>)
    ensures
        all_selected(a + b) == (all_selected(a) && all_selected(b)),
{
    if all_selected(a + b) {
        assert forall|i: int| 0 <= i < a.len() implies (#[trigger] a[i]).selected by {
            assert((a + b)[i] == a[i]);
        }
        assert forall|i: int| 0 <= i < b.len() implies (#[trigger] b[i]).selected by {
            assert((a + b)[a.len() + i] == b[i]);
        }
    }
}

proof fn lemma_selected_paths_concat(a: Seq<FileNode>, b: Seq<FileNode>)
    ensures
        selected_paths(a + b) == selected_paths(a) + selected_paths(b),
    decreases b.len(),
{
    if b.len() == 0 {
        assert(a + b =~= a);
        assert(selected_paths(a) + selected_paths(b) =~= selected_paths(a));
    } else {
        lemma_selected_paths_concat(a, b.drop_last());
        assert((a + b).drop_last() =~= a + b.drop_last());
        assert((a + b).last() == b.last());
        if b.last().selected {
            assert(selected_paths(a + b) =~= selected_paths(a) + selected_paths(b));
        } else {
            assert(selected_paths(a + b) =~= selected_paths(a) + selected_paths(b));
        }
    }
}

/// Whether the subtree holds a file, and whether all of its files are marked.
fn selection_summary(dir: &DirNode) -> (r: (bool, bool))
    ensures
        r.0 == (files_of(*dir).len() > 0),
        r.1 == all_selected(files_of(*dir)),
    decreases *dir,
{
    let ghost own = dir.children_files@;
    let ghost subs = dir.children_dirs@;
    let mut any = dir.children_files.len() > 0;
    let mut i: usize = 0;
    while i < dir.children_files.len()
        invariant
            own == dir.children_files@,
            subs == dir.children_dirs@,
            i <= own.len(),
            all_selected(own.take(i as int)),
        decreases own.len() - i,
    {
        if !dir.children_files[i].selected {
            proof {
                assert(files_of(*dir) == own + files_of_dirs(subs));
                assert(files_of(*dir)[i as int] == own[i as int]);
            }
            return (true, false);
        }
        assert(forall|k: int| 0 <= k < i + 1 ==> own.take(i + 1)[k] == own[k]);
        i = i + 1;
    }
    assert(own.take(own.len() as int) =~= own);
    assert(files_of(*dir) == own + files_of_dirs(subs));
    let mut all = true;
    let mut j: usize = 0;
    while j < dir.children_dirs.len()
        invariant
            subs == dir.children_dirs@,
            own == dir.children_files@,
            j <= subs.len(),
            all_selected(own),
            files_of(*dir) == own + files_of_dirs(subs),
            any == (own.len() + files_of_dirs(subs.take(j as int)).len() > 0),
            all ==> all_selected(files_of_dirs(subs.take(j as int))),
            !all ==> !all_selected(files_of(*dir)),
        decreases subs.len() - j,
    {
        let (a, s) = selection_summary(&dir.children_dirs[j]);
        proof {
            assert(subs.take(j + 1).drop_last() =~= subs.take(j as int));
            assert(subs.take(j + 1).last() == subs[j as int]);
            lemma_all_selected_concat(files_of_dirs(subs.take(j as int)), files_of(subs[j as int]));
            if !s {
                crate::node::lemma_files_of_dirs_split(subs, j + 1);
                lemma_all_selected_concat(files_of_dirs(subs.take(j + 1)), files_of_dirs(subs.skip(j + 1)));
                assert(files_of(*dir) == own + files_of_dirs(subs));
                lemma_all_selected_concat(own, files_of_dirs(subs));
            }
        }
        any = any || a;
        all = all && s;
        j = j + 1;
    }
    proof {
        assert(subs.take(subs.len() as int) =~= subs);
        assert(files_of(*dir) == own + files_of_dirs(subs));
        lemma_all_selected_concat(own, files_of_dirs(subs));
    }
    (any, all)
}

/// Whether the folder's check box is on: the subtree holds at least one file
/// and every file in it is marked.
pub fn is_dir_fully_selected(dir: &DirNode) -> (r: bool)
    ensures
        r == fully_selected(*dir),
{
    let (any, all) = selection_summary(dir);
    any && all
}

/// Append the paths of the subtree's marked files to `set`, in tree order.
pub fn collect_selected_paths(dir: &DirNode, set: &mut Vec<String>)
    ensures
        final(set)@ == old(set)@ + selected_paths(files_of(*dir)),
    decreases *dir,
{
    let ghost own = dir.children_files@;
    let ghost subs = dir.children_dirs@;
    let ghost start = set@;
    let mut i: usize = 0;
    while i < dir.children_files.len()
        invariant
            own == dir.children_files@,
            i <= own.len(),
            set@ == start + selected_paths(own.take(i as int)),
        decreases own.len() - i,
    {
        assert(own.take(i + 1).drop_last() =~= own.take(i as int));
        if dir.children_files[i].selected {
            set.push(dir.children_files[i].path.clone());
        }
        i = i + 1;
    }
    assert(own.take(own.len() as int) =~= own);
    let mut j: usize = 0;
    while j < dir.children_dirs.len()
        invariant
            subs == dir.children_dirs@,
            j <= subs.len(),
            set@ == start + selected_paths(own) + selected_paths(files_of_dirs(subs.take(j as int))),
        decreases subs.len() - j,
    {
        proof {
            assert(subs.take(j + 1).drop_last() =~= subs.take(j as int));
            assert(subs.take(j + 1).last() == subs[j as int]);
            lemma_selected_paths_concat(files_of_dirs(subs.take(j as int)), files_of(subs[j as int]));
        }
        collect_selected_paths(&dir.children_dirs[j], set);
        j = j + 1;
    }
    proof {
        assert(subs.take(subs.len() as int) =~= subs);
        assert(files_of(*dir) == own + files_of_dirs(subs));
        lemma_selected_paths_concat(own, files_of_dirs(subs));
    }
}

/// Whether `p` is one of `paths`.
fn path_in(paths: &Vec<String>, p: &String) -> (r: bool)
    ensures
        r == path_listed(paths@, p@),
{
    let mut i: usize = 0;
    while i < paths.len()
        invariant
            i <= paths@.len(),
            forall|k: int| 0 <= k < i ==> (#[trigger] paths@[k])@ != p@,
        decreases paths@.len() - i,
    {
        if paths[i] == *p {
            return true;
        }
        i = i + 1;
    }
    false
}

/// Mark every file of the subtree whose path is listed in `set`; all other
/// marks stay as they are.
pub fn restore_selections(dir: &mut DirNode, set: &Vec<String>)
    ensures
        retagged(*old(dir), *final(dir), restore_update(set@)),
    decreases *old(dir),
{
    let ghost old_dir = *dir;
    let mut i: usize = 0;
    while i < dir.children_files.len()
        invariant
            dir.name == old_dir.name,
            dir.path == old_dir.path,
            dir.children_dirs == old_dir.children_dirs,
            dir.children_files@.len() == old_dir.children_files@.len(),
            i <= dir.children_files@.len(),
            forall|k: int| 0 <= k < i ==> dir.children_files@[k] == restore_update(set@)(old_dir.children_files@[k]),
            forall|k: int| i <= k < dir.children_files@.len() ==> dir.children_files@[k] == old_dir.children_files@[k],
        decreases dir.children_files@.len() - i,
    {
        let ghost before = dir.children_files@[i as int];
        if path_in(set, &dir.children_files[i].path) {
            let f = &mut dir.children_files[i];
            f.selected = true;
            assert(dir.children_files@[i as int] == with_selected(before, true));
        }
        assert(dir.children_files@[i as int] == restore_update(set@)(old_dir.children_files@[i as int]));
        i = i + 1;
    }
    assert(dir.children_files@ =~= old_dir.children_files@.map_values(restore_update(set@)));
    let mut j: usize = 0;
    while j < dir.children_dirs.len()
        invariant
            old_dir == *old(dir),
            dir.name == old_dir.name,
            dir.path == old_dir.path,
            dir.children_files@ == old_dir.children_files@.map_values(restore_update(set@)),
            dir.children_dirs@.len() == old_dir.children_dirs@.len(),
            j <= dir.children_dirs@.len(),
            forall|k: int| 0 <= k < j ==> retagged(#[trigger] old_dir.children_dirs@[k], dir.children_dirs@[k], restore_update(set@)),
            forall|k: int| j <= k < dir.children_dirs@.len() ==> dir.children_dirs@[k] == old_dir.children_dirs@[k],
        decreases dir.children_dirs@.len() - j,
    {
        let ghost c = old_dir.children_dirs@[j as int];
        proof {
            assert(decreases_to!(old_dir => old_dir.children_dirs));
            assert(decreases_to!(old_dir.children_dirs => old_dir.children_dirs@));
            assert(decreases_to!(old_dir.children_dirs@ => c));
        }
        let child = &mut dir.children_dirs[j];
        assert(*child == c);
        restore_selections(child, set);
        assert(retagged(c, dir.children_dirs@[j as int], restore_update(set@)));
        j = j + 1;
    }
}

/// A path of `p` is one of `paths` exactly when a marked file of `fs` has it.
pub proof fn lemma_selected_paths_listed(fs: Seq<FileNode>, p: Seq<char>)
    ensures
        path_listed(selected_paths(fs), p) <==> exists|j: int| 0 <= j < fs.len() && (#[trigger] fs[j]).selected && fs[j].path@ == p,
    decreases fs.len(),
{
    if fs.len() > 0 {
        let init = fs.drop_last();
        lemma_selected_paths_listed(init, p);
        let sp = selected_paths(fs);
        let si = selected_paths(init);
        if path_listed(sp, p) {
            let i = choose|i: int| 0 <= i < sp.len() && (#[trigger] sp[i])@ == p;
            if fs.last().selected && i == si.len() {
                assert(fs[fs.len() - 1].selected && fs[fs.len() - 1].path@ == p);
            } else {
                assert(sp[i] == si[i]);
                assert(path_listed(si, p));
                let j = choose|j: int| 0 <= j < init.len() && (#[trigger] init[j]).selected && init[j].path@ == p;
                assert(fs[j] == init[j]);
            }
        }
        if exists|j: int| 0 <= j < fs.len() && (#[trigger] fs[j]).selected && fs[j].path@ == p {
            let j = choose|j: int| 0 <= j < fs.len() && (#[trigger] fs[j]).selected && fs[j].path@ == p;
            if j == fs.len() - 1 {
                assert(sp[si.len() as int] == fs[j].path);
            } else {
                assert(init[j] == fs[j]);
                let i = choose|i: int| 0 <= i < si.len() && (#[trigger] si[i])@ == p;
                assert(sp[i] == si[i]);
            }
        }
    }
}

/// No marked file of `fs` has a path listed in `missing`.
pub open spec fn none_missing(fs: Seq<FileNode>, missing: Seq<String>) -> bool {
    !exists|i: int| 0 <= i < fs.len() && (#[trigger] fs[i]).selected && path_listed(missing, fs[i].path@)
}

proof fn lemma_none_missing_by_paths(fs: Seq<FileNode>, missing: Seq<String>)
    ensures
        none_missing(fs, missing) == forall|k: int| 0 <= k < selected_paths(fs).len()
            ==> !path_listed(missing, (#[trigger] selected_paths(fs)[k])@),
{
    let sp = selected_paths(fs);
    if !none_missing(fs, missing) {
        let i = choose|i: int| 0 <= i < fs.len() && (#[trigger] fs[i]).selected && path_listed(missing, fs[i].path@);
        lemma_selected_paths_listed(fs, fs[i].path@);
        let k = choose|k: int| 0 <= k < sp.len() && (#[trigger] sp[k])@ == fs[i].path@;
        assert(path_listed(missing, sp[k]@));
    }
    if exists|k: int| 0 <= k < sp.len() && path_listed(missing, (#[trigger] sp[k])@) {
        let k = choose|k: int| 0 <= k < sp.len() && path_listed(missing, (#[trigger] sp[k])@);
        assert(path_listed(sp, sp[k]@));
        lemma_selected_paths_listed(fs, sp[k]@);
        let j = choose|j: int| 0 <= j < fs.len() && (#[trigger] fs[j]).selected && fs[j].path@ == sp[k]@;
        assert(fs[j].selected && path_listed(missing, fs[j].path@));
    }
}

/// True exactly when no marked file of the subtree has its path in
/// `missing`, the paths found to be gone from disk.
pub fn validate_against(dir: &DirNode, missing: &Vec<String>) -> (r: bool)
    ensures
        r == none_missing(files_of(*dir), missing@),
{
    let mut sel: Vec<String> = Vec::new();
    collect_selected_paths(dir, &mut sel);
    let ghost sp = selected_paths(files_of(*dir));
    assert(sel@ =~= sp);
    proof {
        lemma_none_missing_by_paths(files_of(*dir), missing@);
    }
    let mut i: usize = 0;
    while i < sel.len()
        invariant
            sel@ == sp,
            sp == selected_paths(files_of(*dir)),
            i <= sp.len(),
            forall|k: int| 0 <= k < i ==> !path_listed(missing@, (#[trigger] sp[k])@),
        decreases sp.len() - i,
    {
        if path_in(missing, &sel[i]) {
            proof {
                lemma_none_missing_by_paths(files_of(*dir), missing@);
                assert(path_listed(missing@, sp[i as int]@));
                assert(path_listed(missing@, selected_paths(files_of(*dir))[i as int]@));
            }
            return false;
        }
        i = i + 1;
    }
    proof {
        lemma_none_missing_by_paths(files_of(*dir), missing@);
    }
    true
}

/// Relies on `Path::exists`. What is on disk can change at any moment, so
/// nothing is promised of the answer.
#[verifier::external_body]
fn path_exists(p: &str) -> bool {
    std::path::Path::new(p).exists()
}

/// False when some marked file of the subtree is no longer on disk. The
/// paths of the marked files are asked about, those reported gone are
/// collected, and the answer is `validate_against` on them; with no file
/// marked the answer is true.
pub fn validate_selections(dir: &DirNode) -> (r: bool)
    ensures
        exists|missing: Seq<String>| {
            &&& forall|k: int| 0 <= k < missing.len()
                ==> path_listed(selected_paths(files_of(*dir)), (#[trigger] missing[k])@)
            &&& r == none_missing(files_of(*dir), missing)
        },
        selected_paths(files_of(*dir)).len() == 0 ==> r,
{
    let mut sel: Vec<String> = Vec::new();
    collect_selected_paths(dir, &mut sel);
    let ghost sp = selected_paths(files_of(*dir));
    assert(sel@ =~= sp);
    let mut missing: Vec<String> = Vec::new();
    let mut i: usize = 0;
    while i < sel.len()
        invariant
            sel@ == sp,
            i <= sp.len(),
            missing@.len() <= i,
            forall|k: int| 0 <= k < missing@.len() ==> path_listed(sp, (#[trigger] missing@[k])@),
        decreases sp.len() - i,
    {
        if !path_exists(sel[i].as_str()) {
            let p = sel[i].clone();
            assert(path_listed(sp, p@));
            missing.push(p);
        }
        i = i + 1;
    }
    let r = validate_against(dir, &missing);
    proof {
        if sp.len() == 0 {
            assert(missing@.len() == 0);
            assert(!exists|j: int| 0 <= j < missing@.len() && (#[trigger] missing@[j])@ == missing@[j]@);
            assert forall|i: int| 0 <= i < files_of(*dir).len() && (#[trigger] files_of(*dir)[i]).selected
                implies !path_listed(missing@, files_of(*dir)[i].path@) by {}
        }
    }
    r
}

} // verus!
