use vstd::prelude::*;
use crate::export::{export_text, marked, selected_bytes, selected_count, total_bytes};
use crate::node::{DirNode, FileNode, files_of, files_of_dirs, lemma_files_of_retagged, retagged};
use crate::scanner::scanned;
use crate::search::name_visible;
use crate::selection::{all_selected, lemma_selected_paths_listed, path_listed, restore_update, selected_paths, selection_update};

verus! {

proof fn lemma_count_all_selected(fs: Seq<FileNode>)
    requires
        all_selected(fs),
    ensures
        selected_count(fs) == fs.len(),
        selected_bytes(fs) == total_bytes(fs),
    decreases fs.len(),
{
    if fs.len() > 0 {
        assert(all_selected(fs.drop_last()));
        lemma_count_all_selected(fs.drop_last());
    }
}

proof fn lemma_marked_none(fs: Seq<FileNode>)
    requires
        forall|i: int| 0 <= i < fs.len() ==> !(#[trigger] fs[i]).selected,
    ensures
        marked(fs).len() == 0,
    decreases fs.len(),
{
    if fs.len() > 0 {
        assert(!fs[fs.len() - 1].selected);
        lemma_marked_none(fs.drop_last());
    }
}

proof fn lemma_export_empty(fs: Seq<FileNode>, texts: Seq<Option<String>>)
    requires
        fs.len() == 0,
    ensures
        export_text(fs, texts) == Seq::<char>::empty(),
{
}

proof fn lemma_files_of_dirs_index(ds: Seq<DirNode>, i: int) -> (r: (int, int))
    requires
        0 <= i < files_of_dirs(ds).len(),
    ensures
        0 <= r.0 < ds.len(),
        0 <= r.1 < files_of(ds[r.0]).len(),
        files_of_dirs(ds)[i] == files_of(ds[r.0])[r.1],
    decreases ds,
{
    let init = files_of_dirs(ds.drop_last());
    if i < init.len() {
        let (k, m) = lemma_files_of_dirs_index(ds.drop_last(), i);
        assert(ds.drop_last()[k] == ds[k]);
        (k, m)
    } else {
        (ds.len() - 1, i - init.len())
    }
}

proof fn lemma_scanned_unselected(d: DirNode)
    requires
        scanned(d),
    ensures
        forall|i: int| 0 <= i < files_of(d).len() ==> !(#[trigger] files_of(d)[i]).selected,
    decreases d,
{
    assert forall|i: int| 0 <= i < files_of(d).len() implies !(#[trigger] files_of(d)[i]).selected by {
        let own = d.children_files@;
        if i < own.len() {
            assert(files_of(d)[i] == own[i]);
        } else {
            let (k, m) = lemma_files_of_dirs_index(d.children_dirs@, i - own.len());
            assert(files_of(d)[i] == files_of_dirs(d.children_dirs@)[i - own.len()]);
            assert(scanned(d.children_dirs@[k]));
            lemma_scanned_unselected(d.children_dirs@[k]);
        }
    }
}

/// Selecting everything with an empty query marks every file: afterwards the
/// number of marked files is the number of files of the tree, and their size
/// is the size of all files.
pub proof fn law_select_all_marks_every_file(before: DirNode, after: DirNode)
    requires
        retagged(before, after, selection_update(true, Seq::empty())),
    ensures
        selected_count(files_of(after)) == files_of(after).len(),
        selected_bytes(files_of(after)) == total_bytes(files_of(after)),
        files_of(after).len() == files_of(before).len(),
{
    lemma_files_of_retagged(before, after, selection_update(true, Seq::empty()));
    assert forall|i: int| 0 <= i < files_of(after).len() implies (#[trigger] files_of(after)[i]).selected by {
        assert(name_visible(files_of(before)[i].name@, Seq::empty()));
    }
    lemma_count_all_selected(files_of(after));
}

/// Bulk selection under `query` changes no file that the query hides; a file
/// whose mark changed has a name that the query shows.
pub proof fn law_selection_keeps_hidden_files(before: DirNode, after: DirNode, state: bool, query: Seq<char>)
    requires
        retagged(before, after, selection_update(state, query)),
    ensures
        files_of(after).len() == files_of(before).len(),
        forall|i: int| 0 <= i < files_of(before).len() && !name_visible((#[trigger] files_of(before)[i]).name@, query)
            ==> files_of(after)[i] == files_of(before)[i],
        forall|i: int| 0 <= i < files_of(before).len() && (#[trigger] files_of(after)[i]).selected != files_of(before)[i].selected
            ==> name_visible(files_of(before)[i].name@, query),
{
    lemma_files_of_retagged(before, after, selection_update(state, query));
}

/// Snapshot and restore round trip: restoring, into a freshly scanned tree,
/// the paths collected from a tree marks exactly those files of the new tree
/// whose path was marked in the old one; so the marked paths afterwards are
/// the old marked paths that are still present.
pub proof fn law_restore_round_trip(tree: DirNode, fresh: DirNode, restored: DirNode)
    requires
        scanned(fresh),
        retagged(fresh, restored, restore_update(selected_paths(files_of(tree)))),
    ensures
        files_of(restored).len() == files_of(fresh).len(),
        forall|i: int| 0 <= i < files_of(restored).len() ==> files_of(restored)[i].path == files_of(fresh)[i].path,
        forall|i: int| 0 <= i < files_of(restored).len() ==> ((#[trigger] files_of(restored)[i]).selected
            <==> exists|j: int| 0 <= j < files_of(tree).len() && (#[trigger] files_of(tree)[j]).selected
                && files_of(tree)[j].path@ == files_of(restored)[i].path@),
        forall|p: Seq<char>| #[trigger] path_listed(selected_paths(files_of(restored)), p) <==> (path_listed(
            selected_paths(files_of(tree)),
            p,
        ) && exists|i: int| 0 <= i < files_of(fresh).len() && (#[trigger] files_of(fresh)[i]).path@ == p),
{
    let paths = selected_paths(files_of(tree));
    lemma_files_of_retagged(fresh, restored, restore_update(paths));
    lemma_scanned_unselected(fresh);
    assert forall|i: int| 0 <= i < files_of(restored).len() implies ((#[trigger] files_of(restored)[i]).selected
        <==> exists|j: int| 0 <= j < files_of(tree).len() && (#[trigger] files_of(tree)[j]).selected
            && files_of(tree)[j].path@ == files_of(restored)[i].path@) by {
        assert(!files_of(fresh)[i].selected);
        lemma_selected_paths_listed(files_of(tree), files_of(fresh)[i].path@);
    }
    let fr = files_of(restored);
    let ff = files_of(fresh);
    assert forall|p: Seq<char>| #[trigger] path_listed(selected_paths(fr), p) <==> (path_listed(
        selected_paths(files_of(tree)),
        p,
    ) && exists|i: int| 0 <= i < ff.len() && (#[trigger] ff[i]).path@ == p) by {
        lemma_selected_paths_listed(fr, p);
        lemma_selected_paths_listed(files_of(tree), p);
        if path_listed(selected_paths(fr), p) {
            let i = choose|i: int| 0 <= i < fr.len() && (#[trigger] fr[i]).selected && fr[i].path@ == p;
            assert(ff[i].path@ == p);
        }
        if path_listed(selected_paths(files_of(tree)), p) && exists|i: int| 0 <= i < ff.len() && (#[trigger] ff[i]).path@ == p {
            let i = choose|i: int| 0 <= i < ff.len() && (#[trigger] ff[i]).path@ == p;
            assert(fr[i].path@ == p);
            let j = choose|j: int| 0 <= j < files_of(tree).len() && (#[trigger] files_of(tree)[j]).selected
                && files_of(tree)[j].path@ == p;
            assert(fr[i].selected);
        }
    }
}

/// With no file marked, the single-file export is empty.
pub proof fn law_nothing_marked_exports_nothing(d: DirNode, texts: Seq<Option<String>>)
    requires
        forall|i: int| 0 <= i < files_of(d).len() ==> !(#[trigger] files_of(d)[i]).selected,
    ensures
        export_text(marked(files_of(d)), texts) == Seq::<char>::empty(),
{
    lemma_marked_none(files_of(d));
    lemma_export_empty(marked(files_of(d)), texts);
}

} // verus!
