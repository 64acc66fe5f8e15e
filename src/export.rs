use vstd::prelude::*;
use crate::node::{DirNode, FileNode, files_of, files_of_dirs, lemma_files_of_dirs_split};
use crate::text::concat_text;
use vstd::string::StringExecFns;

verus! {

/// Sum of the sizes of the selected files among `fs`.
pub open spec fn selected_bytes(fs: Seq<FileNode>) -> int
    decreases fs.len(),
{
    if fs.len() == 0 {
        0
    } else {
        selected_bytes(fs.drop_last()) + if fs.last().selected { fs.last().size_bytes as int } else { 0 }
    }
}

/// Sum of the sizes of all files of `fs`.
pub open spec fn total_bytes(fs: Seq<FileNode>) -> int
    decreases fs.len(),
{
    if fs.len() == 0 {
        0
    } else {
        total_bytes(fs.drop_last()) + fs.last().size_bytes as int
    }
}

/// Number of selected files among `fs`.
pub open spec fn selected_count(fs: Seq<FileNode>) -> int
    decreases fs.len(),
{
    if fs.len() == 0 {
        0
    } else {
        selected_count(fs.drop_last()) + if fs.last().selected { 1int } else { 0 }
    }
}

pub proof fn lemma_selected_concat(a: Seq<FileNode>, b: Seq<FileNode>)
    ensures
        selected_bytes(a + b) == selected_bytes(a) + selected_bytes(b),
        selected_count(a + b) == selected_count(a) + selected_count(b),
    decreases b.len(),
{
    if b.len() == 0 {
        assert(a + b =~= a);
    } else {
        lemma_selected_concat(a, b.drop_last());
        assert((a + b).drop_last() =~= a + b.drop_last());
    }
}

/// Total size and number of the selected files of the subtree.
pub fn calculate_stats(dir: &DirNode) -> (r: (u64, usize))
    requires
        selected_bytes(files_of(*dir)) <= u64::MAX,
        selected_count(files_of(*dir)) <= usize::MAX,
    ensures
        r.0 == selected_bytes(files_of(*dir)),
        r.1 == selected_count(files_of(*dir)),
    decreases *dir,
{
    let mut size: u64 = 0;
    let mut files: usize = 0;
    let ghost own = dir.children_files@;
    let ghost subs = dir.children_dirs@;
    proof {
        assert(files_of(*dir) == own + files_of_dirs(subs));
        lemma_selected_concat(own, files_of_dirs(subs));
        lemma_selected_nonneg(files_of_dirs(subs));
        lemma_selected_nonneg(own);
    }
    let mut i: usize = 0;
    while i < dir.children_files.len()
        invariant
            i <= own.len(),
            own == dir.children_files@,
            size == selected_bytes(own.take(i as int)),
            files == selected_count(own.take(i as int)),
            selected_bytes(own) <= selected_bytes(files_of(*dir)) <= u64::MAX,
            selected_count(own) <= selected_count(files_of(*dir)) <= usize::MAX,
        decreases own.len() - i,
    {
        proof {
            assert(own.take(i + 1).drop_last() =~= own.take(i as int));
            lemma_selected_concat(own.take(i + 1), own.skip(i + 1));
            assert(own.take(i + 1) + own.skip(i + 1) =~= own);
            lemma_selected_nonneg(own.skip(i + 1));
        }
        let f = &dir.children_files[i];
        if f.selected {
            size = size + f.size_bytes;
            files = files + 1;
        }
        i = i + 1;
    }
    assert(own.take(own.len() as int) =~= own);
    let mut j: usize = 0;
    while j < dir.children_dirs.len()
        invariant
            j <= subs.len(),
            subs == dir.children_dirs@,
            own == dir.children_files@,
            files_of(*dir) == own + files_of_dirs(subs),
            size == selected_bytes(own) + selected_bytes(files_of_dirs(subs.take(j as int))),
            files == selected_count(own) + selected_count(files_of_dirs(subs.take(j as int))),
            selected_bytes(own) + selected_bytes(files_of_dirs(subs)) <= u64::MAX,
            selected_count(own) + selected_count(files_of_dirs(subs)) <= usize::MAX,
        decreases subs.len() - j,
    {
        proof {
            assert(subs.take(j + 1).drop_last() =~= subs.take(j as int));
            lemma_files_of_dirs_split(subs, j + 1);
            lemma_selected_concat(files_of_dirs(subs.take(j + 1)), files_of_dirs(subs.skip(j + 1)));
            lemma_selected_concat(files_of_dirs(subs.take(j as int)), files_of(subs[j as int]));
            lemma_selected_nonneg(files_of_dirs(subs.skip(j + 1)));
        }
        let (s, f) = calculate_stats(&dir.children_dirs[j]);
        size = size + s;
        files = files + f;
        j = j + 1;
    }
    assert(subs.take(subs.len() as int) =~= subs);
    (size, files)
}

pub proof fn lemma_selected_nonneg(fs: Seq<FileNode>)
    ensures
        selected_bytes(fs) >= 0,
        selected_count(fs) >= 0,
    decreases fs.len(),
{
    if fs.len() > 0 {
        lemma_selected_nonneg(fs.drop_last());
    }
}

/// File name offered for the single-file export; files of this name are
/// left out of scans.
pub const DEFAULT_OUTPUT_FILENAME: &'static str = "full_code.txt";

/// The marked files among `fs`, in order.
pub open spec fn marked(fs: Seq<FileNode>) -> Seq<FileNode>
    decreases fs.len(),
{
    if fs.len() == 0 {
        Seq::empty()
    } else if fs.last().selected {
        marked(fs.drop_last()).push(fs.last())
    } else {
        marked(fs.drop_last())
    }
}

/// The text block that introduces one exported file and holds its content.
pub open spec fn file_block(f: FileNode, code: Seq<char>) -> Seq<char> {
    "\n\n"@ + "=================================================="@ + "\nFILE: "@ + f.rel_path@
        + "\nLANGUAGE: "@ + f.extension@ + "\n"@ + "=================================================="@
        + "\n\n"@ + code
}

/// The single-file export of `fs`, where `texts[i]` is the content read for
/// `fs[i]` (`None`: it could not be read as text, and is left out).
pub open spec fn export_text(fs: Seq<FileNode>, texts: Seq<Option<String>>) -> Seq<char>
    decreases fs.len(),
{
    if fs.len() == 0 || texts.len() == 0 {
        Seq::empty()
    } else {
        export_text(fs.drop_last(), texts.drop_last()) + match texts.last() {
            Some(t) => file_block(fs.last(), t@),
            None => Seq::empty(),
        }
    }
}

pub proof fn lemma_marked_concat(a: Seq<FileNode>, b: Seq<FileNode>)
    ensures
        marked(a + b) == marked(a) + marked(b),
    decreases b.len(),
{
    if b.len() == 0 {
        assert(a + b =~= a);
        assert(marked(a) + marked(b) =~= marked(a));
    } else {
        lemma_marked_concat(a, b.drop_last());
        assert((a + b).drop_last() =~= a + b.drop_last());
        assert((a + b).last() == b.last());
        assert(marked(a + b) =~= marked(a) + marked(b));
    }
}

/// Number of files of the subtree: first the marked ones, then all of them.
pub fn count_selected_recursive(dir: &DirNode) -> (r: (usize, usize))
    requires
        files_of(*dir).len() <= usize::MAX,
    ensures
        r.0 == selected_count(files_of(*dir)),
        r.1 == files_of(*dir).len(),
    decreases *dir,
{
    let ghost own = dir.children_files@;
    let ghost subs = dir.children_dirs@;
    proof {
        assert(files_of(*dir) == own + files_of_dirs(subs));
        lemma_selected_concat(own, files_of_dirs(subs));
        lemma_selected_nonneg(files_of_dirs(subs));
        lemma_selected_count_le(own);
    }
    let mut selected: usize = 0;
    let total0 = dir.children_files.len();
    let mut i: usize = 0;
    while i < dir.children_files.len()
        invariant
            own == dir.children_files@,
            i <= own.len(),
            selected == selected_count(own.take(i as int)),
            selected_count(own.take(i as int)) <= i,
        decreases own.len() - i,
    {
        assert(own.take(i + 1).drop_last() =~= own.take(i as int));
        if dir.children_files[i].selected {
            selected = selected + 1;
        }
        i = i + 1;
    }
    assert(own.take(own.len() as int) =~= own);
    let mut total: usize = total0;
    let mut j: usize = 0;
    while j < dir.children_dirs.len()
        invariant
            subs == dir.children_dirs@,
            own == dir.children_files@,
            j <= subs.len(),
            files_of(*dir) == own + files_of_dirs(subs),
            files_of(*dir).len() <= usize::MAX,
            selected == selected_count(own) + selected_count(files_of_dirs(subs.take(j as int))),
            total == own.len() + files_of_dirs(subs.take(j as int)).len(),
            selected_count(own) + selected_count(files_of_dirs(subs.take(j as int))) <= total,
        decreases subs.len() - j,
    {
        proof {
            assert(subs.take(j + 1).drop_last() =~= subs.take(j as int));
            assert(subs.take(j + 1).last() == subs[j as int]);
            lemma_selected_concat(files_of_dirs(subs.take(j as int)), files_of(subs[j as int]));
            lemma_files_of_dirs_split(subs, j + 1);
            lemma_selected_count_le(files_of(subs[j as int]));
        }
        let (s, t) = count_selected_recursive(&dir.children_dirs[j]);
        selected = selected + s;
        total = total + t;
        j = j + 1;
    }
    assert(subs.take(subs.len() as int) =~= subs);
    (selected, total)
}

pub proof fn lemma_selected_count_le(fs: Seq<FileNode>)
    ensures
        0 <= selected_count(fs) <= fs.len(),
    decreases fs.len(),
{
    if fs.len() > 0 {
        lemma_selected_count_le(fs.drop_last());
    }
}

fn push_selected(dir: &DirNode, out: &mut Vec<FileNode>)
    ensures
        final(out)@ == old(out)@ + marked(files_of(*dir)),
    decreases *dir,
{
    let ghost own = dir.children_files@;
    let ghost subs = dir.children_dirs@;
    let ghost start = out@;
    let mut i: usize = 0;
    while i < dir.children_files.len()
        invariant
            own == dir.children_files@,
            i <= own.len(),
            out@ == start + marked(own.take(i as int)),
        decreases own.len() - i,
    {
        assert(own.take(i + 1).drop_last() =~= own.take(i as int));
        if dir.children_files[i].selected {
            out.push(dir.children_files[i].duplicate());
        }
        i = i + 1;
    }
    assert(own.take(own.len() as int) =~= own);
    let mut j: usize = 0;
    while j < dir.children_dirs.len()
        invariant
            subs == dir.children_dirs@,
            j <= subs.len(),
            out@ == start + marked(own) + marked(files_of_dirs(subs.take(j as int))),
        decreases subs.len() - j,
    {
        proof {
            assert(subs.take(j + 1).drop_last() =~= subs.take(j as int));
            assert(subs.take(j + 1).last() == subs[j as int]);
            lemma_marked_concat(files_of_dirs(subs.take(j as int)), files_of(subs[j as int]));
        }
        push_selected(&dir.children_dirs[j], out);
        j = j + 1;
    }
    proof {
        assert(subs.take(subs.len() as int) =~= subs);
        assert(files_of(*dir) == own + files_of_dirs(subs));
        lemma_marked_concat(own, files_of_dirs(subs));
    }
}

/// The marked files of the subtree in export order: a directory's own files
/// first, then each subdirectory in turn.
pub fn selected_files(dir: &DirNode) -> (r: Vec<FileNode>)
    ensures
        r@ == marked(files_of(*dir)),
{
    let mut out: Vec<FileNode> = Vec::new();
    push_selected(dir, &mut out);
    assert(out@ =~= marked(files_of(*dir)));
    out
}

/// The block that introduces `file` in the single-file export, followed by
/// `code`.
pub fn format_file_block(file: &FileNode, code: &str) -> (r: String)
    ensures
        r@ == file_block(*file, code@),
{
    let rule = "==================================================";
    let mut s = concat_text("\n\n", rule);
    s.append("\nFILE: ");
    s.append(file.rel_path.as_str());
    s.append("\nLANGUAGE: ");
    s.append(file.extension.as_str());
    s.append("\n");
    s.append(rule);
    s.append("\n\n");
    s.append(code);
    s
}

/// Append the single-file export of the subtree to `content`. `texts` holds,
/// for each file of `selected_files(dir)` in turn, its content read as text,
/// or `None` where it could not be read; such files are skipped.
pub fn collect_content_string(dir: &DirNode, texts: &Vec<Option<String>>, content: &mut String)
    requires
        texts@.len() == marked(files_of(*dir)).len(),
    ensures
        final(content)@ == old(content)@ + export_text(marked(files_of(*dir)), texts@),
{
    let files = selected_files(dir);
    let ghost fs = files@;
    let ghost start = content@;
    let mut i: usize = 0;
    while i < files.len()
        invariant
            fs == files@,
            texts@.len() == fs.len(),
            i <= fs.len(),
            content@ == start + export_text(fs.take(i as int), texts@.take(i as int)),
        decreases fs.len() - i,
    {
        proof {
            assert(fs.take(i + 1).drop_last() =~= fs.take(i as int));
            assert(texts@.take(i + 1).drop_last() =~= texts@.take(i as int));
            assert(fs.take(i + 1).last() == fs[i as int]);
            assert(texts@.take(i + 1).last() == texts@[i as int]);
        }
        match &texts[i] {
            Some(code) => {
                let block = format_file_block(&files[i], code.as_str());
                content.append(block.as_str());
            },
            None => {},
        }
        assert(content@ =~= start + export_text(fs.take(i + 1), texts@.take(i + 1)));
        i = i + 1;
    }
    assert(fs.take(fs.len() as int) =~= fs);
    assert(texts@.take(fs.len() as int) =~= texts@);
}

} // verus!
