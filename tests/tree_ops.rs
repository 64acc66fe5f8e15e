use code_collector::export::{calculate_stats, collect_content_string, count_selected_recursive, format_file_block, selected_files};
use code_collector::node::{DirNode, FileNode};
use code_collector::search::{is_visible, matches_search};
use code_collector::selection::{collect_selected_paths, is_dir_fully_selected, restore_selections, set_dir_selection, validate_against, validate_selections};

fn file(dir: &str, name: &str, size: u64, selected: bool) -> FileNode {
    let rel = if dir.is_empty() { name.to_string() } else { format!("{}/{}", dir, name) };
    let ext = name.rsplit('.').next().unwrap_or("").to_lowercase();
    FileNode {
        name: name.to_string(),
        path: format!("/root/{}", rel),
        rel_path: rel,
        extension: ext,
        selected,
        size_bytes: size,
    }
}

fn dir(name: &str, dirs: Vec<DirNode>, files: Vec<FileNode>) -> DirNode {
    DirNode { name: name.to_string(), path: format!("/root/{}", name), children_dirs: dirs, children_files: files }
}

/// root: a.py (10), Readme.MD (20); b/: c.js (30), Test.JS (40); b/deep/: x.txt (50); empty/
fn sample(sel: [bool; 5]) -> DirNode {
    let deep = dir("deep", vec![], vec![file("b/deep", "x.txt", 50, sel[4])]);
    let b = dir("b", vec![deep], vec![file("b", "c.js", 30, sel[2]), file("b", "Test.JS", 40, sel[3])]);
    let empty = dir("empty", vec![], vec![]);
    dir("root", vec![b, empty], vec![file("", "a.py", 10, sel[0]), file("", "Readme.MD", 20, sel[1])])
}

fn marks(d: &DirNode, out: &mut Vec<(String, bool)>) {
    for f in &d.children_files {
        out.push((f.name.clone(), f.selected));
    }
    for s in &d.children_dirs {
        marks(s, out);
    }
}

fn all_marks(d: &DirNode) -> Vec<(String, bool)> {
    let mut v = Vec::new();
    marks(d, &mut v);
    v
}

#[test]
fn select_all_with_empty_query_marks_every_file() {
    let mut t = sample([false, true, false, false, false]);
    set_dir_selection(&mut t, true, "");
    let (bytes, count) = calculate_stats(&t);
    assert_eq!(count, 5);
    assert_eq!(bytes, 150);
    assert_eq!(count_selected_recursive(&t), (5, 5));
}

#[test]
fn select_with_query_only_touches_matching_files() {
    let mut t = sample([false, true, false, false, true]);
    set_dir_selection(&mut t, true, "JS");
    assert_eq!(
        all_marks(&t),
        vec![
            ("a.py".to_string(), false),
            ("Readme.MD".to_string(), true),
            ("c.js".to_string(), true),
            ("Test.JS".to_string(), true),
            ("x.txt".to_string(), true),
        ]
    );
    set_dir_selection(&mut t, false, "md");
    assert_eq!(all_marks(&t)[1], ("Readme.MD".to_string(), false));
    assert_eq!(all_marks(&t)[4], ("x.txt".to_string(), true));
}

#[test]
fn fully_selected_needs_a_file_and_all_marked() {
    let t = sample([true, true, true, true, true]);
    assert!(is_dir_fully_selected(&t));
    assert!(!is_dir_fully_selected(&t.children_dirs[1]));
    let t2 = sample([true, true, true, true, false]);
    assert!(!is_dir_fully_selected(&t2));
    assert!(is_dir_fully_selected(&t2.children_dirs[0].children_files.iter().fold(
        dir("only", vec![], vec![]),
        |mut d, f| {
            d.children_files.push(f.clone());
            d
        }
    )));
    let nested_empty = dir("outer", vec![dir("inner", vec![], vec![])], vec![]);
    assert!(!is_dir_fully_selected(&nested_empty));
}

#[test]
fn collect_and_restore_round_trip() {
    let old = sample([true, false, false, true, true]);
    let mut paths = Vec::new();
    collect_selected_paths(&old, &mut paths);
    assert_eq!(paths, vec!["/root/a.py", "/root/b/Test.JS", "/root/b/deep/x.txt"]);
    // A rescan where x.txt was deleted.
    let mut fresh = sample([false; 5]);
    fresh.children_dirs[0].children_dirs[0].children_files.clear();
    restore_selections(&mut fresh, &paths);
    let mut again = Vec::new();
    collect_selected_paths(&fresh, &mut again);
    assert_eq!(again, vec!["/root/a.py", "/root/b/Test.JS"]);
}

#[test]
fn restore_keeps_existing_marks() {
    let mut t = sample([false, true, false, false, false]);
    restore_selections(&mut t, &vec!["/root/b/c.js".to_string(), "/elsewhere".to_string()]);
    assert_eq!(count_selected_recursive(&t), (2, 5));
}

#[test]
fn validate_with_nothing_marked_is_true() {
    assert!(validate_selections(&sample([false; 5])));
}

#[test]
fn validate_reports_missing_marked_file() {
    assert!(!validate_selections(&sample([false, false, false, false, true])));
}

#[test]
fn search_matches_files_only_case_insensitive() {
    let t = sample([false; 5]);
    assert!(matches_search(&t, ""));
    assert!(matches_search(&t, "README"));
    assert!(matches_search(&t.children_dirs[0], "X.TXT"));
    assert!(!matches_search(&t, "deep"));
    assert!(!matches_search(&t.children_dirs[1], "a"));
    assert!(matches_search(&t.children_dirs[1], ""));
}

#[test]
fn visibility_of_names() {
    assert!(is_visible("Main.RS", "main"));
    assert!(is_visible("anything", ""));
    assert!(!is_visible("lib.rs", "main"));
}

#[test]
fn stats_count_only_marked_files() {
    let t = sample([true, false, false, true, true]);
    assert_eq!(calculate_stats(&t), (100, 3));
    assert_eq!(calculate_stats(&sample([false; 5])), (0, 0));
    assert_eq!(count_selected_recursive(&t), (3, 5));
}

#[test]
fn selected_files_in_export_order() {
    let t = sample([true, false, true, false, true]);
    let names: Vec<String> = selected_files(&t).iter().map(|f| f.rel_path.clone()).collect();
    assert_eq!(names, vec!["a.py", "b/c.js", "b/deep/x.txt"]);
}

#[test]
fn file_block_format() {
    let f = file("b", "c.js", 3, true);
    let rule = "=".repeat(50);
    assert_eq!(
        format_file_block(&f, "let x;"),
        format!("\n\n{}\nFILE: b/c.js\nLANGUAGE: js\n{}\n\nlet x;", rule, rule)
    );
}

#[test]
fn export_with_nothing_marked_is_empty() {
    let t = sample([false; 5]);
    let mut out = String::new();
    collect_content_string(&t, &Vec::new(), &mut out);
    assert_eq!(out, "");
}

#[test]
fn export_skips_unreadable_files() {
    let t = sample([true, false, true, false, false]);
    let mut out = String::from("head");
    collect_content_string(&t, &vec![None, Some("code".to_string())], &mut out);
    let rule = "=".repeat(50);
    assert_eq!(out, format!("head\n\n{}\nFILE: b/c.js\nLANGUAGE: js\n{}\n\ncode", rule, rule));
}

#[test]
fn validate_against_missing_paths() {
    let t = sample([true, false, false, true, false]);
    assert!(validate_against(&t, &vec![]));
    assert!(validate_against(&t, &vec!["/root/b/c.js".to_string()]));
    assert!(!validate_against(&t, &vec!["/elsewhere".to_string(), "/root/b/Test.JS".to_string()]));
}
