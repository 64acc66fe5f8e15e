use vstd::prelude::*;
use std::collections::VecDeque;
use crate::node::{DirNode, FileNode, retagged};
use crate::scanner::{DirScan, ScanMessage, scanned};
use crate::selection::{selection_update, set_dir_selection};
use crate::text::{concat_text, file_name_of, path_file_name};

verus! {

/// Colour scheme of the window.
#[derive(Clone, Copy, PartialEq, Eq, Structural, Debug)]
pub enum ThemePreference {
    Dark,
    Light,
    System,
}

impl Default for ThemePreference {
    fn default() -> (r: ThemePreference)
        ensures
            r == ThemePreference::System,
    {
        ThemePreference::System
    }
}

/// How the marked files are saved.
#[derive(Clone, Copy, PartialEq, Eq, Structural, Debug)]
pub enum ExportMode {
    /// All of them in one text file.
    OneFile,
    /// Each copied into a mirrored directory tree.
    SeparateFiles,
}

/// Which export a save asks for.
#[derive(Clone, Copy, PartialEq, Eq, Structural, Debug)]
pub enum SaveRequest {
    SingleFile,
    SeparateFiles,
    Nothing,
}

/// The most recently marked files, newest first.
pub const RECENT_LIMIT: usize = 3;

/// `s` without the files whose path is `p`, order kept.
pub open spec fn without_path(s: Seq<FileNode>, p: Seq<char>) -> Seq<FileNode>
    decreases s.len(),
{
    if s.len() == 0 {
        Seq::empty()
    } else if s[0].path@ == p {
        without_path(s.drop_first(), p)
    } else {
        seq![s[0]] + without_path(s.drop_first(), p)
    }
}

/// The recent list after `f` was marked: `f` in front, any earlier entry of
/// its path dropped, and the oldest entry dropped when that leaves more than
/// the limit.
pub open spec fn recents_after(old: Seq<FileNode>, f: FileNode) -> Seq<FileNode> {
    let s = seq![f] + without_path(old, f.path@);
    if s.len() > RECENT_LIMIT {
        s.drop_last()
    } else {
        s
    }
}

/// The state of the collector window that does not belong to the widgets.
pub struct CodeCollectorApp {
    pub project_path: Option<String>,
    pub root_node: Option<DirNode>,
    pub status_text: String,
    pub export_mode: ExportMode,
    pub theme: ThemePreference,
    pub search_query: String,
    pub recent_files: VecDeque<FileNode>,
    pub is_loading: bool,
    pub loading_count: usize,
}

impl Default for CodeCollectorApp {
    fn default() -> (r: CodeCollectorApp)
        ensures
            r.project_path is None,
            r.root_node is None,
            r.status_text@ == "Ready to scan."@,
            r.export_mode == ExportMode::OneFile,
            r.theme == ThemePreference::System,
            r.search_query@.len() == 0,
            r.recent_files@.len() == 0,
            !r.is_loading,
            r.loading_count == 0,
    {
        CodeCollectorApp {
            project_path: None,
            root_node: None,
            status_text: "Ready to scan.".to_owned(),
            export_mode: ExportMode::OneFile,
            theme: ThemePreference::System,
            search_query: String::new(),
            recent_files: VecDeque::new(),
            is_loading: false,
            loading_count: 0,
        }
    }
}

impl CodeCollectorApp {
    /// Reset for a scan of `path` and hand back the walk to run. The previous
    /// tree, the recent list and the search query are cleared.
    pub fn start_scan(&mut self, path: String) -> (r: DirScan)
        ensures
            r.wf(),
            r.root() == path@,
            !r.is_done(),
            final(self).is_loading,
            final(self).loading_count == 0,
            final(self).root_node is None,
            final(self).recent_files@.len() == 0,
            final(self).search_query@.len() == 0,
            final(self).project_path == old(self).project_path,
            final(self).status_text == old(self).status_text,
            final(self).export_mode == old(self).export_mode,
            final(self).theme == old(self).theme,
    {
        self.is_loading = true;
        self.loading_count = 0;
        self.root_node = None;
        self.recent_files = VecDeque::new();
        self.search_query = String::new();
        DirScan::new(path)
    }

    /// Take in one message of a running scan; true when it completed the
    /// scan. Progress adds to the count of files found (saturating), a
    /// finished tree becomes the current one, a cancellation leaves no tree.
    pub fn apply_scan_message(&mut self, msg: ScanMessage) -> (r: bool)
        ensures
            r == (msg is Finished),
            final(self).project_path == old(self).project_path,
            final(self).export_mode == old(self).export_mode,
            final(self).theme == old(self).theme,
            final(self).search_query == old(self).search_query,
            final(self).recent_files == old(self).recent_files,
            match msg {
                ScanMessage::Progress(n) => {
                    &&& final(self).loading_count as int == if old(self).loading_count + n > usize::MAX {
                        usize::MAX as int
                    } else {
                        old(self).loading_count + n
                    }
                    &&& final(self).root_node == old(self).root_node
                    &&& final(self).is_loading == old(self).is_loading
                    &&& final(self).status_text == old(self).status_text
                },
                ScanMessage::Finished(t) => {
                    &&& final(self).root_node == Some(t)
                    &&& !final(self).is_loading
                    &&& final(self).loading_count == old(self).loading_count
                    &&& status_after_update(old(self).project_path, old(self).status_text, final(self).status_text)
                },
                ScanMessage::Cancelled => {
                    &&& final(self).root_node is None
                    &&& !final(self).is_loading
                    &&& final(self).loading_count == old(self).loading_count
                    &&& final(self).status_text@ == "Scanning cancelled."@
                },
            },
    {
        match msg {
            ScanMessage::Progress(n) => {
                self.loading_count = self.loading_count.saturating_add(n);
                false
            },
            ScanMessage::Finished(t) => {
                self.root_node = Some(t);
                self.is_loading = false;
                self.update_status();
                true
            },
            ScanMessage::Cancelled => {
                self.is_loading = false;
                self.status_text = "Scanning cancelled.".to_owned();
                self.root_node = None;
                false
            },
        }
    }

    /// Mark (`state == true`) or unmark every file of the tree that the
    /// current search shows, then refresh the status line.
    pub fn select_all(&mut self, state: bool)
        ensures
            final(self).project_path == old(self).project_path,
            final(self).search_query == old(self).search_query,
            final(self).recent_files == old(self).recent_files,
            final(self).is_loading == old(self).is_loading,
            final(self).loading_count == old(self).loading_count,
            final(self).export_mode == old(self).export_mode,
            final(self).theme == old(self).theme,
            match old(self).root_node {
                None => final(self).root_node is None && final(self).status_text == old(self).status_text,
                Some(t) => {
                    &&& final(self).root_node is Some
                    &&& retagged(t, final(self).root_node->0, selection_update(state, old(self).search_query@))
                    &&& status_after_update(old(self).project_path, old(self).status_text, final(self).status_text)
                },
            },
    {
        if let Some(root) = &mut self.root_node {
            set_dir_selection(root, state, self.search_query.as_str());
            self.update_status();
        }
    }

    /// Put `file` at the front of the recent list.
    pub fn add_to_recents(&mut self, file: FileNode)
        ensures
            final(self).recent_files@ == recents_after(old(self).recent_files@, file),
            final(self).root_node == old(self).root_node,
            final(self).status_text == old(self).status_text,
            final(self).search_query == old(self).search_query,
            final(self).project_path == old(self).project_path,
            final(self).export_mode == old(self).export_mode,
            final(self).theme == old(self).theme,
            final(self).is_loading == old(self).is_loading,
            final(self).loading_count == old(self).loading_count,
    {
        let ghost orig = self.recent_files@;
        let mut rest: VecDeque<FileNode> = VecDeque::new();
        std::mem::swap(&mut self.recent_files, &mut rest);
        let mut kept: VecDeque<FileNode> = VecDeque::new();
        while rest.len() > 0
            invariant
                kept@ + without_path(rest@, file.path@) == without_path(orig, file.path@),
            decreases rest@.len(),
        {
            let ghost before = rest@;
            let g = rest.pop_front().unwrap();
            assert(rest@ == before.drop_first());
            if g.path != file.path {
                kept.push_back(g);
                assert(kept@ + without_path(rest@, file.path@)
                    =~= (kept@.drop_last() + without_path(before, file.path@)));
            }
        }
        assert(kept@ + Seq::<FileNode>::empty() =~= kept@);
        self.recent_files = kept;
        self.recent_files.push_front(file);
        if self.recent_files.len() > RECENT_LIMIT {
            self.recent_files.pop_back();
        }
    }

    /// Which export a save of the current tree asks for.
    pub fn handle_save(&self) -> (r: SaveRequest)
        ensures
            self.root_node is None ==> r == SaveRequest::Nothing,
            self.root_node is Some ==> r == (if self.export_mode == ExportMode::OneFile {
                SaveRequest::SingleFile
            } else {
                SaveRequest::SeparateFiles
            }),
    {
        if self.root_node.is_none() {
            return SaveRequest::Nothing;
        }
        match self.export_mode {
            ExportMode::OneFile => SaveRequest::SingleFile,
            ExportMode::SeparateFiles => SaveRequest::SeparateFiles,
        }
    }

    /// Show the project's folder name in the status line, when a project is
    /// open.
    pub fn update_status(&mut self)
        ensures
            status_after_update(old(self).project_path, old(self).status_text, final(self).status_text),
            final(self).project_path == old(self).project_path,
            final(self).root_node == old(self).root_node,
            final(self).search_query == old(self).search_query,
            final(self).recent_files == old(self).recent_files,
            final(self).is_loading == old(self).is_loading,
            final(self).loading_count == old(self).loading_count,
            final(self).export_mode == old(self).export_mode,
            final(self).theme == old(self).theme,
    {
        if let Some(project) = &self.project_path {
            let name = path_file_name(project.as_str());
            self.status_text = concat_text("Project: ", name.as_str());
        }
    }
}

/// The status line after a refresh: the project's folder name when a project
/// is open, else the line as it was.
pub open spec fn status_after_update(project: Option<String>, before: String, after: String) -> bool {
    match project {
        Some(p) => after@ == "Project: "@ + file_name_of(p@),
        None => after == before,
    }
}

} // verus!
