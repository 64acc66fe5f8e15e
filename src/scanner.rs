use vstd::prelude::*;
use crate::node::{DirNode, FileNode, files_of, files_of_dirs, lemma_files_count_permuted};
use crate::order::{dirs_sorted, files_sorted, sort_dirs, sort_files};
use crate::text::file_name_of;
use crate::rules::{entry_admitted, extension_of, file_admitted, rel_join, is_admitted_entry, is_admitted_file, file_extension, join_rel};
use crate::text::path_file_name;

verus! {

/// What a scan reports to whoever started it.
pub enum ScanMessage {
    /// This many more files were found.
    Progress(usize),
    /// The completed tree.
    Finished(DirNode),
    /// The scan was stopped; nothing of it is kept.
    Cancelled,
}

/// One entry of a directory listing.
pub struct DirEntry {
    pub name: String,
    pub path: String,
    pub is_dir: bool,
}

/// The answer to the last action of a scan.
pub enum ScanReply {
    /// The entries of the directory asked for.
    Listing(Vec<DirEntry>),
    /// The size in bytes of the file asked for.
    Size(u64),
    /// Nothing: the action asked for nothing, or the read failed.
    Unavailable,
}

/// What the scan asks for next.
pub enum ScanAction {
    /// List this directory and reply with `ScanReply::Listing`.
    ListDir(String),
    /// Read the size of this file and reply with `ScanReply::Size`.
    MeasureFile(String),
    /// A file was added to the tree.
    FileAdded,
    /// Nothing to do; step again.
    Continue,
    /// The tree is complete.
    Done,
}

/// A directory being read: its node so far, its path below the root, and
/// the entries of its listing with how many were handled.
struct Frame {
    node: DirNode,
    rel: String,
    entries: Vec<DirEntry>,
    next: usize,
    listed: bool,
}

enum Awaiting {
    Nothing,
    Listing,
    Size(FileNode),
}

/// A tree as a scan leaves it: at every level files and directories are in
/// name order, every kept name passes the scan's filters, and no file is
/// marked.
pub open spec fn scanned(d: DirNode) -> bool
    decreases d,
{
    &&& files_sorted(d.children_files@)
    &&& dirs_sorted(d.children_dirs@)
    &&& forall|i: int| 0 <= i < d.children_files@.len() ==> file_admitted((#[trigger] d.children_files@[i]).name@)
        && !d.children_files@[i].selected
    &&& forall|k: int| 0 <= k < d.children_dirs@.len() ==> entry_admitted((#[trigger] d.children_dirs@[k]).name@)
        && scanned(d.children_dirs@[k])
}

/// A directory whose children are all as a scan leaves them, though not yet
/// in order.
spec fn children_ok(d: DirNode) -> bool {
    &&& forall|i: int| 0 <= i < d.children_files@.len() ==> file_admitted((#[trigger] d.children_files@[i]).name@)
        && !d.children_files@[i].selected
    &&& forall|k: int| 0 <= k < d.children_dirs@.len() ==> entry_admitted((#[trigger] d.children_dirs@[k]).name@)
        && scanned(d.children_dirs@[k])
}

/// One directory on the walk's stack, as a caller sees it: its node so far,
/// its path below the root, the entries of its listing not yet handled, and
/// whether it has been listed.
pub struct Level {
    pub node: DirNode,
    pub rel: Seq<char>,
    pub pending: Seq<DirEntry>,
    pub listed: bool,
}

spec fn level_of(f: Frame) -> Level {
    Level { node: f.node, rel: f.rel@, pending: f.entries@.skip(f.next as int), listed: f.listed }
}

/// `l` with its next entry handled.
pub open spec fn level_skip(l: Level) -> Level {
    Level { pending: l.pending.drop_first(), ..l }
}

/// `after` is `before` with its children put in name order.
pub open spec fn sorted_node(before: DirNode, after: DirNode) -> bool {
    &&& after.name == before.name
    &&& after.path == before.path
    &&& after.children_dirs@.to_multiset() == before.children_dirs@.to_multiset()
    &&& after.children_files@.to_multiset() == before.children_files@.to_multiset()
    &&& dirs_sorted(after.children_dirs@)
    &&& files_sorted(after.children_files@)
}

/// `after` is the level `before` with `f` added to its node's files.
pub open spec fn file_added(before: Level, after: Level, f: FileNode) -> bool {
    &&& after.rel == before.rel
    &&& after.pending == before.pending
    &&& after.listed == before.listed
    &&& after.node.name == before.node.name
    &&& after.node.path == before.node.path
    &&& after.node.children_dirs == before.node.children_dirs
    &&& after.node.children_files@ == before.node.children_files@.push(f)
}

/// `after` is the level `before` with the finished directory `child`, in
/// name order, added to its node's directories.
pub open spec fn dir_added(before: Level, after: Level, child: DirNode) -> bool {
    &&& after.rel == before.rel
    &&& after.pending == before.pending
    &&& after.listed == before.listed
    &&& after.node.name == before.node.name
    &&& after.node.path == before.node.path
    &&& after.node.children_files == before.node.children_files
    &&& after.node.children_dirs@.len() == before.node.children_dirs@.len() + 1
    &&& after.node.children_dirs@.drop_last() == before.node.children_dirs@
    &&& sorted_node(child, after.node.children_dirs@.last())
}

/// `l` is the level of the directory entry `e`, just entered below `parent`.
pub open spec fn entered(e: DirEntry, parent: Level, l: Level) -> bool {
    &&& l.node.name == e.name
    &&& l.node.path == e.path
    &&& l.node.children_dirs@.len() == 0
    &&& l.node.children_files@.len() == 0
    &&& l.rel == rel_join(parent.rel, e.name@)
    &&& l.pending.len() == 0
    &&& !l.listed
}

/// `f` is the record made for the file entry `e` of the directory at
/// `prefix`, before its size is known.
pub open spec fn file_for(e: DirEntry, prefix: Seq<char>, f: FileNode) -> bool {
    &&& f.name == e.name
    &&& f.path == e.path
    &&& f.rel_path@ == rel_join(prefix, e.name@)
    &&& f.extension@ == extension_of(e.name@)
    &&& !f.selected
    &&& f.size_bytes == 0
}

/// How a step ends the current directory once all of its entries are
/// handled: its children are put in name order and it joins its parent's
/// directories, or, at the root, it becomes the finished tree.
pub open spec fn dir_finished(r: ScanAction, before: DirScan, after: DirScan) -> bool {
    let ls = before.levels();
    let n = ls.last().node;
    if ls.len() == 1 {
        &&& r is Done
        &&& after.levels().len() == 0
        &&& after.result() matches Some(t) && sorted_node(n, t)
    } else {
        &&& r is Continue
        &&& after.levels().len() + 1 == ls.len()
        &&& after.levels().drop_last() == ls.drop_last().drop_last()
        &&& dir_added(ls[ls.len() - 2], after.levels().last(), n)
    }
}

/// How a step handles the next entry `e` of a listing: a kept file is
/// measured, a kept directory is entered and listed next, any other entry is
/// passed over; the entries after `e` wait in turn.
pub open spec fn entry_handled(e: DirEntry, r: ScanAction, before: DirScan, after: DirScan) -> bool {
    let ls = before.levels();
    let handled = ls.update(ls.len() - 1, level_skip(ls.last()));
    if !entry_admitted(e.name@) || (!e.is_dir && !file_admitted(e.name@)) {
        &&& r is Continue
        &&& after.remaining() == before.remaining().drop_first()
        &&& after.levels() == handled
    } else if e.is_dir {
        &&& r is Continue
        &&& after.dir_to_list() == Some(e.path@)
        &&& after.levels().len() == ls.len() + 1
        &&& after.levels().drop_last() == handled
        &&& entered(e, ls.last(), after.levels().last())
    } else {
        &&& r matches ScanAction::MeasureFile(p) && p@ == e.path@
        &&& after.levels() == handled
        &&& after.pending_file() matches Some(f) && file_for(e, ls.last().rel, f)
    }
}

/// A depth-first walk of a directory tree that does no I/O itself: each step
/// says what to read next, and the reply to it carries what was read.
pub struct DirScan {
    root_path: String,
    frames: Vec<Frame>,
    awaiting: Awaiting,
    tree: Option<DirNode>,
    found: Ghost<nat>,
}

/// Number of files held by the nodes of `fs`.
spec fn frames_files(fs: Seq<Frame>) -> nat
    decreases fs.len(),
{
    if fs.len() == 0 {
        0
    } else {
        frames_files(fs.drop_last()) + files_of(fs.last().node).len()
    }
}

proof fn lemma_frames_files_update_last(fs: Seq<Frame>, fr: Frame)
    requires
        fs.len() > 0,
    ensures
        frames_files(fs.update(fs.len() - 1, fr)) == frames_files(fs.drop_last()) + files_of(fr.node).len(),
{
    let u = fs.update(fs.len() - 1, fr);
    assert(u.drop_last() =~= fs.drop_last());
    assert(u.last() == fr);
}

proof fn lemma_frames_files_push(fs: Seq<Frame>, fr: Frame)
    ensures
        frames_files(fs.push(fr)) == frames_files(fs) + files_of(fr.node).len(),
{
    assert(fs.push(fr).drop_last() =~= fs);
}

impl DirScan {
    /// The walk's invariant.
    pub closed spec fn wf(&self) -> bool {
        &&& (self.tree is Some) == (self.frames@.len() == 0)
        &&& self.tree is Some ==> scanned(self.tree->0) && self.tree->0.path == self.root_path
        &&& self.found@ == frames_files(self.frames@) + match self.tree {
            Some(t) => files_of(t).len(),
            None => 0,
        }
        &&& self.frames@.len() > 0 ==> self.frames@[0].node.path == self.root_path
        &&& forall|i: int| 0 <= i < self.frames@.len() ==> children_ok(#[trigger] self.frames@[i].node)
            && self.frames@[i].next <= self.frames@[i].entries@.len()
        &&& forall|i: int| 1 <= i < self.frames@.len() ==> entry_admitted(#[trigger] self.frames@[i].node.name@)
        &&& match self.awaiting {
            Awaiting::Nothing => true,
            Awaiting::Listing => self.frames@.len() > 0 && self.frames@.last().listed,
            Awaiting::Size(f) => self.frames@.len() > 0 && file_admitted(f.name@) && !f.selected,
        }
    }

    /// The path the walk started from.
    pub closed spec fn root(&self) -> Seq<char> {
        self.root_path@
    }

    /// Number of `FileAdded` steps so far.
    pub closed spec fn files_found(&self) -> nat {
        self.found@
    }

    /// The walk waits for the listing of the directory it asked for.
    pub closed spec fn wants_listing(&self) -> bool {
        self.awaiting is Listing
    }

    /// The walk waits for the size of the file it asked for.
    pub closed spec fn wants_size(&self) -> bool {
        self.awaiting is Size
    }

    /// The entries of the current directory's listing not yet handled, when
    /// the walk is between replies inside a listed directory.
    pub closed spec fn remaining(&self) -> Seq<DirEntry> {
        if self.awaiting is Nothing && self.frames@.len() > 0 && self.frames@.last().listed {
            self.frames@.last().entries@.skip(self.frames@.last().next as int)
        } else {
            Seq::empty()
        }
    }

    /// The directory that the next step asks to list, if any.
    pub closed spec fn dir_to_list(&self) -> Option<Seq<char>> {
        if self.awaiting is Nothing && self.frames@.len() > 0 && !self.frames@.last().listed {
            Some(self.frames@.last().node.path@)
        } else {
            None
        }
    }

    /// The directories being read, from the root down to the current one.
    pub closed spec fn levels(&self) -> Seq<Level> {
        Seq::new(self.frames@.len(), |i: int| level_of(self.frames@[i]))
    }

    /// The record of the file whose size the walk waits for.
    pub closed spec fn pending_file(&self) -> Option<FileNode> {
        match self.awaiting {
            Awaiting::Size(f) => Some(f),
            _ => None,
        }
    }

    /// The finished tree, once the walk is done.
    pub closed spec fn result(&self) -> Option<DirNode> {
        self.tree
    }

    /// The current directory is listed and all of its entries are handled.
    pub open spec fn at_end(&self) -> bool {
        &&& !self.wants_listing()
        &&& !self.wants_size()
        &&& self.levels().len() > 0
        &&& self.levels().last().listed
        &&& self.levels().last().pending.len() == 0
    }

    /// The walk has built the whole tree.
    pub closed spec fn is_done(&self) -> bool {
        self.tree is Some
    }

    /// A walk of the directory at `root_path`.
    pub fn new(root_path: String) -> (r: DirScan)
        ensures
            r.wf(),
            r.root() == root_path@,
            !r.is_done(),
            r.files_found() == 0,
            !r.wants_listing(),
            !r.wants_size(),
            r.dir_to_list() == Some(root_path@),
            r.result() is None,
            r.pending_file() is None,
            r.levels().len() == 1,
            r.levels()[0].node.name@ == file_name_of(root_path@),
            r.levels()[0].node.path == root_path,
            r.levels()[0].node.children_dirs@.len() == 0,
            r.levels()[0].node.children_files@.len() == 0,
            r.levels()[0].rel.len() == 0,
            r.levels()[0].pending.len() == 0,
            !r.levels()[0].listed,
    {
        let name = path_file_name(root_path.as_str());
        let node = DirNode {
            name,
            path: root_path.clone(),
            children_dirs: Vec::new(),
            children_files: Vec::new(),
        };
        let frame = Frame { node, rel: String::new(), entries: Vec::new(), next: 0, listed: false };
        let mut frames: Vec<Frame> = Vec::new();
        frames.push(frame);
        proof {
            let n = frames@.last().node;
            assert(n.children_dirs@ =~= Seq::<DirNode>::empty());
            assert(files_of_dirs(n.children_dirs@) =~= Seq::<FileNode>::empty());
            assert(files_of(n) =~= Seq::<FileNode>::empty());
            assert(frames@.drop_last() =~= Seq::<Frame>::empty());
            assert(frames_files(frames@.drop_last()) == 0);
            assert(frames_files(frames@) == 0);
        }
        let r = DirScan { root_path, frames, awaiting: Awaiting::Nothing, tree: None, found: Ghost(0) };
        assert(r.frames@[0].entries@.skip(0) =~= Seq::<DirEntry>::empty());
        r
    }

    /// Hand the walk the reply to its last action, and learn the next one.
    /// A failed read is `ScanReply::Unavailable`: a directory that cannot be
    /// listed counts as empty, a file whose size cannot be read has size 0.
    pub fn step(&mut self, reply: ScanReply) -> (r: ScanAction)
        requires
            old(self).wf(),
        ensures
            final(self).wf(),
            final(self).root() == old(self).root(),
            (r is Done) == final(self).is_done(),
            old(self).is_done() ==> final(self).is_done(),
            final(self).files_found() == old(self).files_found() + if r is FileAdded { 1nat } else { 0nat },
            old(self).wants_size() ==> r is FileAdded,
            old(self).wants_listing() ==> r is Continue,
            final(self).wants_listing() == (r is ListDir),
            final(self).wants_size() == (r is MeasureFile),
            final(self).wants_size() == (final(self).pending_file() is Some),
            final(self).is_done() == (final(self).result() is Some),
            old(self).wants_listing() ==> final(self).remaining() == match reply {
                ScanReply::Listing(v) => v@,
                _ => Seq::empty(),
            },
            old(self).dir_to_list() matches Some(p) ==> r matches ScanAction::ListDir(q) && q@ == p,
            old(self).remaining().len() > 0 ==> entry_handled(old(self).remaining()[0], r, *old(self), *final(self)),
            old(self).at_end() ==> dir_finished(r, *old(self), *final(self)),
            old(self).wants_listing() ==> final(self).levels() == old(self).levels().update(
                old(self).levels().len() - 1,
                Level {
                    pending: match reply {
                        ScanReply::Listing(v) => v@,
                        _ => Seq::empty(),
                    },
                    ..old(self).levels().last()
                },
            ),
            old(self).pending_file() matches Some(f) ==> {
                &&& final(self).levels().len() == old(self).levels().len()
                &&& final(self).levels().drop_last() == old(self).levels().drop_last()
                &&& file_added(
                    old(self).levels().last(),
                    final(self).levels().last(),
                    FileNode {
                        size_bytes: match reply {
                            ScanReply::Size(n) => n,
                            _ => 0,
                        },
                        ..f
                    },
                )
            },
            old(self).dir_to_list() is Some ==> final(self).levels() == old(self).levels().update(
                old(self).levels().len() - 1,
                Level { listed: true, ..old(self).levels().last() },
            ),
    {
        let mut aw = Awaiting::Nothing;
        std::mem::swap(&mut self.awaiting, &mut aw);
        match aw {
            Awaiting::Listing => {
                let entries = match reply {
                    ScanReply::Listing(v) => v,
                    _ => Vec::new(),
                };
                let k = self.frames.len() - 1;
                let ghost before = self.frames@;
                let ghost given = entries@;
                let ghost ls = self.levels();
                let top = &mut self.frames[k];
                top.entries = entries;
                top.next = 0;
                proof {
                    lemma_frames_files_update_last(before, self.frames@[k as int]);
                    assert(self.frames@.last() == self.frames@[k as int]);
                    assert(given.skip(0) =~= given);
                    assert(ls.last() == level_of(before[k as int]));
                    assert(self.levels() =~= ls.update(k as int, Level { pending: given, ..ls.last() }));
                }
                ScanAction::Continue
            },
            Awaiting::Size(f) => {
                let mut f = f;
                f.size_bytes = match reply {
                    ScanReply::Size(n) => n,
                    _ => 0,
                };
                let k = self.frames.len() - 1;
                let ghost before = self.frames@;
                let ghost ls = self.levels();
                let ghost added = f;
                let top = &mut self.frames[k];
                top.node.children_files.push(f);
                proof {
                    let old_node = before[k as int].node;
                    let new_node = self.frames@[k as int].node;
                    assert(files_of(old_node) == old_node.children_files@ + files_of_dirs(old_node.children_dirs@));
                    assert(files_of(new_node) == new_node.children_files@ + files_of_dirs(new_node.children_dirs@));
                    lemma_frames_files_update_last(before, self.frames@[k as int]);
                    assert(ls.last() == level_of(before[k as int]));
                    assert(self.levels().last() == level_of(self.frames@[k as int]));
                    assert(self.levels().drop_last() =~= ls.drop_last());
                    assert(file_added(ls.last(), self.levels().last(), added));
                }
                self.found = Ghost(self.found@ + 1);
                ScanAction::FileAdded
            },
            Awaiting::Nothing => self.advance(),
        }
    }

    #[verifier::rlimit(50)]
    #[verifier::spinoff_prover]
    fn advance(&mut self) -> (r: ScanAction)
        requires
            old(self).wf(),
            old(self).awaiting is Nothing,
        ensures
            final(self).wf(),
            final(self).root() == old(self).root(),
            (r is Done) == final(self).is_done(),
            old(self).is_done() ==> final(self).is_done(),
            !(r is FileAdded),
            final(self).files_found() == old(self).files_found(),
            final(self).wants_listing() == (r is ListDir),
            final(self).wants_size() == (r is MeasureFile),
            old(self).dir_to_list() matches Some(p) ==> r matches ScanAction::ListDir(q) && q@ == p,
            old(self).remaining().len() > 0 ==> entry_handled(old(self).remaining()[0], r, *old(self), *final(self)),
            old(self).at_end() ==> dir_finished(r, *old(self), *final(self)),
            old(self).dir_to_list() is Some ==> final(self).levels() == old(self).levels().update(
                old(self).levels().len() - 1,
                Level { listed: true, ..old(self).levels().last() },
            ),
    {
        if self.frames.len() == 0 {
            return ScanAction::Done;
        }
        let k = self.frames.len() - 1;
        if !self.frames[k].listed {
            let path = self.frames[k].node.path.clone();
            let ghost before = self.frames@;
            let ghost ls_l = self.levels();
            let top = &mut self.frames[k];
            top.listed = true;
            proof {
                lemma_frames_files_update_last(before, self.frames@[k as int]);
                assert(self.frames@.last() == self.frames@[k as int]);
                assert(self.frames@[k as int].listed);
                assert(ls_l.last() == level_of(before[k as int]));
                assert(self.levels() =~= ls_l.update(k as int, Level { listed: true, ..ls_l.last() }));
            }
            self.awaiting = Awaiting::Listing;
            return ScanAction::ListDir(path);
        }
        if self.frames[k].next < self.frames[k].entries.len() {
            let idx = self.frames[k].next;
            let name = self.frames[k].entries[idx].name.clone();
            let path = self.frames[k].entries[idx].path.clone();
            let is_dir = self.frames[k].entries[idx].is_dir;
            let rel = join_rel(&self.frames[k].rel, &name);
            let ghost before = self.frames@;
            let ghost ls = self.levels();
            let top = &mut self.frames[k];
            top.next = idx + 1;
            proof {
                lemma_frames_files_update_last(before, self.frames@[k as int]);
                let es = before[k as int].entries@;
                assert(self.frames@.last() == self.frames@[k as int]);
                assert(self.frames@[k as int].entries@ == es);
                assert(es.skip(idx + 1) =~= es.skip(idx as int).drop_first());
                assert(ls.last() == level_of(before[k as int]));
                assert(level_of(self.frames@[k as int]) == level_skip(ls.last()));
                assert(self.levels() =~= ls.update(k as int, level_skip(ls.last())));
            }
            let ghost handled = self.levels();
            if !is_admitted_entry(&name) {
                return ScanAction::Continue;
            }
            if is_dir {
                let node = DirNode { name, path, children_dirs: Vec::new(), children_files: Vec::new() };
                let fr = Frame { node, rel, entries: Vec::new(), next: 0, listed: false };
                proof {
                    lemma_frames_files_push(self.frames@, fr);
                    assert(files_of(fr.node) =~= Seq::<FileNode>::empty());
                }
                self.frames.push(fr);
                proof {
                    assert(self.levels().drop_last() =~= handled);
                    assert(self.levels().last() == level_of(fr));
                    assert(fr.node.children_dirs@.len() == 0);
                    assert(fr.entries@.skip(0) =~= Seq::<DirEntry>::empty());
                }
                return ScanAction::Continue;
            }
            if !is_admitted_file(&name) {
                return ScanAction::Continue;
            }
            let extension = file_extension(name.as_str());
            let f = FileNode {
                name,
                path: path.clone(),
                rel_path: rel,
                extension,
                selected: false,
                size_bytes: 0,
            };
            self.awaiting = Awaiting::Size(f);
            return ScanAction::MeasureFile(path);
        }
        let ghost before = self.frames@;
        let ghost ls0 = self.levels();
        let frame = self.frames.pop().unwrap();
        let ghost old_node = frame.node;
        let DirNode { name, path, children_dirs, children_files } = frame.node;
        let node = DirNode {
            name,
            path,
            children_dirs: sort_dirs(children_dirs),
            children_files: sort_files(children_files),
        };
        proof {
            assert(self.frames@ =~= before.drop_last());
            assert(before.last() == frame);
            assert(frames_files(before) == frames_files(before.drop_last()) + files_of(old_node).len());
            lemma_files_count_permuted(node.children_dirs@, old_node.children_dirs@);
            assert(files_of(node) == node.children_files@ + files_of_dirs(node.children_dirs@));
            assert(files_of(old_node) == old_node.children_files@ + files_of_dirs(old_node.children_dirs@));
            assert(files_of(node).len() == files_of(old_node).len());
        }
        if self.frames.len() == 0 {
            self.tree = Some(node);
            return ScanAction::Done;
        }
        let p = self.frames.len() - 1;
        let ghost mid = self.frames@;
        let parent = &mut self.frames[p];
        parent.node.children_dirs.push(node);
        proof {
            let pn = mid[p as int].node;
            let qn = self.frames@[p as int].node;
            assert(qn.children_dirs@ == pn.children_dirs@.push(node));
            assert(qn.children_dirs@.drop_last() =~= pn.children_dirs@);
            assert(files_of_dirs(qn.children_dirs@) == files_of_dirs(pn.children_dirs@) + files_of(node));
            assert(files_of(qn) == qn.children_files@ + files_of_dirs(qn.children_dirs@));
            assert(files_of(pn) == pn.children_files@ + files_of_dirs(pn.children_dirs@));
            lemma_frames_files_update_last(mid, self.frames@[p as int]);
            assert(mid.last() == mid[p as int]);
            assert(frames_files(mid) == frames_files(mid.drop_last()) + files_of(pn).len());
            assert(ls0.last().node == old_node);
            assert(sorted_node(old_node, node));
            assert(ls0[ls0.len() - 2] == level_of(mid[p as int]));
            assert(self.levels().last() == level_of(self.frames@[p as int]));
            assert(qn.children_dirs@.last() == node);
            assert(dir_added(ls0[ls0.len() - 2], self.levels().last(), old_node));
            assert(self.levels().drop_last() =~= ls0.drop_last().drop_last());
        }
        ScanAction::Continue
    }

    /// The message that ends the scan: the tree when the walk is complete and
    /// was not cancelled, else `Cancelled`.
    pub fn conclude(self, cancelled: bool) -> (r: ScanMessage)
        requires
            self.wf(),
        ensures
            (r is Finished) == (!cancelled && self.is_done()),
            !(r is Progress),
            r matches ScanMessage::Finished(t) ==> scanned(t) && t.path@ == self.root()
                && files_of(t).len() == self.files_found() && self.result() == Some(t),
    {
        if cancelled {
            return ScanMessage::Cancelled;
        }
        match self.tree {
            Some(t) => ScanMessage::Finished(t),
            None => ScanMessage::Cancelled,
        }
    }
}

} // verus!
