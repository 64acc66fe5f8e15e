use code_collector::collector::{CodeCollectorApp, ExportMode, SaveRequest, ThemePreference};
use code_collector::node::{DirNode, FileNode};
use code_collector::scanner::ScanMessage;

fn file(path: &str, selected: bool) -> FileNode {
    let name = path.rsplit('/').next().unwrap().to_string();
    FileNode {
        name: name.clone(),
        path: path.to_string(),
        rel_path: name,
        extension: String::new(),
        selected,
        size_bytes: 1,
    }
}

fn small_tree() -> DirNode {
    DirNode {
        name: "proj".to_string(),
        path: "/home/u/proj".to_string(),
        children_dirs: vec![],
        children_files: vec![file("/home/u/proj/main.rs", false), file("/home/u/proj/notes.md", false)],
    }
}

#[test]
fn default_state() {
    let app = CodeCollectorApp::default();
    assert_eq!(app.status_text, "Ready to scan.");
    assert!(app.root_node.is_none());
    assert_eq!(app.export_mode, ExportMode::OneFile);
    assert_eq!(app.theme, ThemePreference::System);
    assert_eq!(ThemePreference::default(), ThemePreference::System);
    assert!(!app.is_loading);
}

#[test]
fn progress_and_finish_messages() {
    let mut app = CodeCollectorApp::default();
    app.project_path = Some("/home/u/proj".to_string());
    app.search_query = "x".to_string();
    let _walk = app.start_scan("/home/u/proj".to_string());
    assert!(app.is_loading);
    assert!(app.search_query.is_empty());
    assert!(!app.apply_scan_message(ScanMessage::Progress(1)));
    assert!(!app.apply_scan_message(ScanMessage::Progress(1)));
    assert_eq!(app.loading_count, 2);
    assert!(app.apply_scan_message(ScanMessage::Finished(small_tree())));
    assert!(!app.is_loading);
    assert!(app.root_node.is_some());
    assert_eq!(app.status_text, "Project: proj");
}

#[test]
fn progress_count_saturates() {
    let mut app = CodeCollectorApp::default();
    app.loading_count = usize::MAX - 1;
    app.apply_scan_message(ScanMessage::Progress(5));
    assert_eq!(app.loading_count, usize::MAX);
}

#[test]
fn select_all_respects_search() {
    let mut app = CodeCollectorApp::default();
    app.root_node = Some(small_tree());
    app.search_query = "MAIN".to_string();
    app.select_all(true);
    let root = app.root_node.as_ref().unwrap();
    assert!(root.children_files[0].selected);
    assert!(!root.children_files[1].selected);
    assert_eq!(app.status_text, "Ready to scan.");
}

#[test]
fn select_all_without_tree_does_nothing() {
    let mut app = CodeCollectorApp::default();
    app.project_path = Some("/p".to_string());
    app.select_all(true);
    assert!(app.root_node.is_none());
    assert_eq!(app.status_text, "Ready to scan.");
}

#[test]
fn recents_keep_three_newest_without_duplicates() {
    let mut app = CodeCollectorApp::default();
    app.add_to_recents(file("/a", true));
    app.add_to_recents(file("/b", true));
    app.add_to_recents(file("/a", true));
    let paths: Vec<String> = app.recent_files.iter().map(|f| f.path.clone()).collect();
    assert_eq!(paths, vec!["/a", "/b"]);
    app.add_to_recents(file("/c", true));
    app.add_to_recents(file("/d", true));
    let paths: Vec<String> = app.recent_files.iter().map(|f| f.path.clone()).collect();
    assert_eq!(paths, vec!["/d", "/c", "/a"]);
}

#[test]
fn save_request_follows_mode() {
    let mut app = CodeCollectorApp::default();
    assert_eq!(app.handle_save(), SaveRequest::Nothing);
    app.root_node = Some(small_tree());
    assert_eq!(app.handle_save(), SaveRequest::SingleFile);
    app.export_mode = ExportMode::SeparateFiles;
    assert_eq!(app.handle_save(), SaveRequest::SeparateFiles);
}

#[test]
fn status_names_project_folder() {
    let mut app = CodeCollectorApp::default();
    app.update_status();
    assert_eq!(app.status_text, "Ready to scan.");
    app.project_path = Some("/home/u/My Project/".to_string());
    app.update_status();
    assert_eq!(app.status_text, "Project: My Project");
}
