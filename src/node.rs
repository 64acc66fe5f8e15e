use vstd::prelude::*;

verus! {

/// One file found by a scan.
#[derive(Clone, Debug)]
pub struct FileNode {
    /// Base name of the file.
    pub name: String,
    /// Full path of the file; unique within one tree.
    pub path: String,
    /// Path relative to the scanned root, segments joined by `/`.
    pub rel_path: String,
    /// Lower-case extension (`blade.php` for Blade templates).
    pub extension: String,
    /// Whether the user has marked this file.
    pub selected: bool,
    /// Size in bytes at scan time, 0 when it could not be read.
    pub size_bytes: u64,
}

/// One directory found by a scan.
pub struct DirNode {
    pub name: String,
    pub path: String,
    pub children_dirs: Vec<DirNode>,
    pub children_files: Vec<FileNode>,
}

impl FileNode {
    /// A copy of this file record.
    pub fn duplicate(&self) -> (r: FileNode)
        ensures
            r == *self,
    {
        FileNode {
            name: self.name.clone(),
            path: self.path.clone(),
            rel_path: self.rel_path.clone(),
            extension: self.extension.clone(),
            selected: self.selected,
            size_bytes: self.size_bytes,
        }
    }
}

/// `f` with its mark set to `b`.
pub open spec fn with_selected(f: FileNode, b: bool) -> FileNode {
    FileNode { selected: b, ..f }
}

/// `new` has the shape, names and paths of `old`, and each of its files is
/// the matching file of `old` passed through `t`.
pub open spec fn retagged(old: DirNode, new: DirNode, t: spec_fn(FileNode) -> FileNode) -> bool
    decreases old,
{
    &&& new.name == old.name
    &&& new.path == old.path
    &&& new.children_files@ == old.children_files@.map_values(t)
    &&& new.children_dirs@.len() == old.children_dirs@.len()
    &&& forall|k: int| 0 <= k < old.children_dirs@.len() ==> retagged(
        #[trigger] old.children_dirs@[k],
        new.children_dirs@[k],
        t,
    )
}

/// Every file of the subtree, in export order: the directory's own files
/// first, then the files of each subdirectory in turn.
pub open spec fn files_of(d: DirNode) -> Seq<FileNode>
    decreases d,
{
    d.children_files@ + files_of_dirs(d.children_dirs@)
}

/// The files of a sequence of directories, one subtree after another.
pub open spec fn files_of_dirs(ds: Seq<DirNode>) -> Seq<FileNode>
    decreases ds,
{
    if ds.len() == 0 {
        Seq::empty()
    } else {
        files_of_dirs(ds.drop_last()) + files_of(ds.last())
    }
}

} // verus!

verus! {

pub proof fn lemma_files_of_dirs_retagged(old: Seq<DirNode>, new: Seq<DirNode>, t: spec_fn(FileNode) -> FileNode)
    requires
        new.len() == old.len(),
        forall|k: int| 0 <= k < old.len() ==> retagged(#[trigger] old[k], new[k], t),
    ensures
        files_of_dirs(new) == files_of_dirs(old).map_values(t),
    decreases old,
{
    if old.len() > 0 {
        lemma_files_of_dirs_retagged(old.drop_last(), new.drop_last(), t);
        assert(retagged(old[old.len() - 1], new[new.len() - 1], t));
        lemma_files_of_retagged(old.last(), new.last(), t);
        assert(files_of_dirs(new) =~= files_of_dirs(old).map_values(t));
    } else {
        assert(files_of_dirs(new) =~= files_of_dirs(old).map_values(t));
    }
}

/// A retagged tree lists the old tree's files, each passed through `t`.
pub proof fn lemma_files_of_retagged(old: DirNode, new: DirNode, t: spec_fn(FileNode) -> FileNode)
    requires
        retagged(old, new, t),
    ensures
        files_of(new) == files_of(old).map_values(t),
    decreases old,
{
    assert forall|k: int| 0 <= k < old.children_dirs@.len() implies retagged(
        #[trigger] old.children_dirs@[k],
        new.children_dirs@[k],
        t,
    ) by {}
    lemma_files_of_dirs_retagged(old.children_dirs@, new.children_dirs@, t);
    assert(files_of(new) =~= files_of(old).map_values(t));
}

/// The files of a directory sequence split at `k` into two consecutive parts.
pub proof fn lemma_files_of_dirs_split(ds: Seq<DirNode>, k: int)
    requires
        0 <= k <= ds.len(),
    ensures
        files_of_dirs(ds) == files_of_dirs(ds.take(k)) + files_of_dirs(ds.skip(k)),
    decreases ds.len(),
{
    if ds.len() == k {
        assert(ds.take(k) =~= ds);
        assert(ds.skip(k) =~= Seq::<DirNode>::empty());
        assert(files_of_dirs(ds.skip(k)) =~= Seq::<FileNode>::empty());
        assert(files_of_dirs(ds) + Seq::<FileNode>::empty() =~= files_of_dirs(ds));
    } else {
        lemma_files_of_dirs_split(ds.drop_last(), k);
        assert(ds.drop_last().take(k) =~= ds.take(k));
        assert(ds.skip(k).drop_last() =~= ds.drop_last().skip(k));
        assert(ds.skip(k).last() == ds.last());
        assert(files_of_dirs(ds.take(k)) + files_of_dirs(ds.drop_last().skip(k)) + files_of(ds.last())
            =~= files_of_dirs(ds.take(k)) + (files_of_dirs(ds.drop_last().skip(k)) + files_of(ds.last())));
    }
}

pub proof fn lemma_files_of_dirs_concat(a: Seq<DirNode>, b: Seq<DirNode>)
    ensures
        files_of_dirs(a + b) == files_of_dirs(a) + files_of_dirs(b),
{
    lemma_files_of_dirs_split(a + b, a.len() as int);
    assert((a + b).take(a.len() as int) =~= a);
    assert((a + b).skip(a.len() as int) =~= b);
}

/// Reordering directories keeps the number of files below them.
pub proof fn lemma_files_count_permuted(a: Seq<DirNode>, b: Seq<DirNode>)
    requires
        a.to_multiset() == b.to_multiset(),
    ensures
        files_of_dirs(a).len() == files_of_dirs(b).len(),
    decreases a.len(),
{
    broadcast use vstd::seq_lib::group_to_multiset_ensures;
    assert(a.to_multiset().len() == a.len());
    assert(b.to_multiset().len() == b.len());
    if a.len() > 0 {
        let x = a.last();
        let init = a.drop_last();
        assert(a =~= init.push(x));
        assert(a.to_multiset().count(x) > 0);
        assert(b.contains(x));
        let j = choose|j: int| 0 <= j < b.len() && b[j] == x;
        let b2 = b.remove(j);
        assert(init.to_multiset() =~= a.to_multiset().remove(x));
        assert(b2.to_multiset() =~= b.to_multiset().remove(x));
        lemma_files_count_permuted(init, b2);
        assert(b2 =~= b.take(j) + b.skip(j + 1));
        lemma_files_of_dirs_concat(b.take(j), b.skip(j + 1));
        lemma_files_of_dirs_split(b, j);
        assert(b.skip(j) =~= seq![x] + b.skip(j + 1));
        lemma_files_of_dirs_concat(seq![x], b.skip(j + 1));
        assert(seq![x].drop_last() =~= Seq::<DirNode>::empty());
        assert(seq![x].last() == x);
        assert(files_of_dirs(seq![x].drop_last()) =~= Seq::<FileNode>::empty());
        assert(files_of_dirs(seq![x]) == files_of_dirs(seq![x].drop_last()) + files_of(x));
        assert(files_of_dirs(seq![x]) =~= files_of(x));
    }
}

} // verus!
