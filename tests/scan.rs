use code_collector::export::{collect_content_string, selected_files};
use code_collector::node::DirNode;
use code_collector::selection::restore_selections;
use code_collector::rules::{file_extension, is_admitted_entry, is_admitted_file, join_rel};
use code_collector::scanner::{DirEntry, DirScan, ScanAction, ScanMessage, ScanReply};

fn parent_of(p: &str) -> &str {
    match p.rfind('/') {
        Some(i) => &p[..i],
        None => "",
    }
}

fn base_of(p: &str) -> &str {
    match p.rfind('/') {
        Some(i) => &p[i + 1..],
        None => p,
    }
}

/// Lists a directory of an in-memory tree, in reverse name order so that the
/// scan has to sort.
fn listing(dirs: &[&str], files: &[(&str, u64)], dir: &str) -> Vec<DirEntry> {
    let mut out = Vec::new();
    for d in dirs {
        if parent_of(d) == dir {
            out.push(DirEntry { name: base_of(d).to_string(), path: d.to_string(), is_dir: true });
        }
    }
    for (f, _) in files {
        if parent_of(f) == dir {
            out.push(DirEntry { name: base_of(f).to_string(), path: f.to_string(), is_dir: false });
        }
    }
    out.sort_by(|a, b| b.name.cmp(&a.name));
    out
}

fn size_of(files: &[(&str, u64)], path: &str) -> u64 {
    files.iter().find(|(f, _)| *f == path).map(|(_, s)| *s).unwrap()
}

/// Runs a scan over an in-memory tree; returns the final message and the
/// number of files reported.
fn run_scan(root: &str, dirs: &[&str], files: &[(&str, u64)], cancel_after: Option<usize>) -> (ScanMessage, usize) {
    let mut scan = DirScan::new(root.to_string());
    let mut reply = ScanReply::Unavailable;
    let mut found = 0usize;
    let mut steps = 0usize;
    loop {
        if let Some(limit) = cancel_after {
            if steps >= limit {
                return (scan.conclude(true), found);
            }
        }
        steps += 1;
        match scan.step(reply) {
            ScanAction::ListDir(p) => reply = ScanReply::Listing(listing(dirs, files, &p)),
            ScanAction::MeasureFile(p) => reply = ScanReply::Size(size_of(files, &p)),
            ScanAction::FileAdded => {
                found += 1;
                reply = ScanReply::Unavailable;
            }
            ScanAction::Continue => reply = ScanReply::Unavailable,
            ScanAction::Done => break,
        }
    }
    (scan.conclude(false), found)
}

fn scan_tree(root: &str, dirs: &[&str], files: &[(&str, u64)]) -> DirNode {
    match run_scan(root, dirs, files, None).0 {
        ScanMessage::Finished(t) => t,
        _ => panic!("scan did not finish"),
    }
}

fn names_of_files(d: &DirNode) -> Vec<String> {
    d.children_files.iter().map(|f| f.name.clone()).collect()
}

fn names_of_dirs(d: &DirNode) -> Vec<String> {
    d.children_dirs.iter().map(|c| c.name.clone()).collect()
}

fn check_sorted(d: &DirNode) {
    let f = names_of_files(d);
    let mut fs = f.clone();
    fs.sort();
    assert_eq!(f, fs);
    let c = names_of_dirs(d);
    let mut cs = c.clone();
    cs.sort();
    assert_eq!(c, cs);
    for sub in &d.children_dirs {
        check_sorted(sub);
    }
}

fn all_names(d: &DirNode, out: &mut Vec<String>) {
    for f in &d.children_files {
        out.push(f.name.clone());
    }
    for sub in &d.children_dirs {
        out.push(sub.name.clone());
        all_names(sub, out);
    }
}

#[test]
fn scan_sorts_every_level() {
    let dirs = ["/r/zeta", "/r/Alpha", "/r/mid", "/r/mid/b", "/r/mid/a"];
    let files = [
        ("/r/z.txt", 1),
        ("/r/B.md", 2),
        ("/r/a.rs", 3),
        ("/r/mid/y.js", 4),
        ("/r/mid/x.js", 5),
        ("/r/mid/a/q.py", 6),
        ("/r/mid/a/p.py", 7),
    ];
    let t = scan_tree("/r", &dirs, &files);
    check_sorted(&t);
    assert_eq!(names_of_dirs(&t), vec!["Alpha", "mid", "zeta"]);
    assert_eq!(names_of_files(&t), vec!["B.md", "a.rs", "z.txt"]);
    assert_eq!(names_of_dirs(&t.children_dirs[1]), vec!["a", "b"]);
}

#[test]
fn scan_skips_hidden_and_ignored_names() {
    let dirs = ["/r/.git", "/r/node_modules", "/r/src", "/r/.hidden", "/r/target", "/r/src/build"];
    let files = [
        ("/r/.env", 10),
        ("/r/.bashrc", 1),
        ("/r/.git/config", 1),
        ("/r/node_modules/x.js", 1),
        ("/r/src/main.rs", 5),
        ("/r/src/build/out.o", 1),
        ("/r/target/app", 1),
        ("/r/.hidden/h.txt", 1),
    ];
    let t = scan_tree("/r", &dirs, &files);
    let mut names = Vec::new();
    all_names(&t, &mut names);
    names.sort();
    assert_eq!(names, vec![".env", "main.rs", "src"]);
}

#[test]
fn scan_skips_reserved_export_file() {
    let dirs = ["/r/sub"];
    let files = [("/r/full_code.txt", 9), ("/r/sub/full_code.txt", 9), ("/r/keep.txt", 1)];
    let t = scan_tree("/r", &dirs, &files);
    assert_eq!(names_of_files(&t), vec!["keep.txt"]);
    assert!(t.children_dirs[0].children_files.is_empty());
}

#[test]
fn scan_records_file_fields() {
    let dirs = ["/r/b"];
    let files = [("/r/b/c.JS", 42), ("/r/a.py", 7)];
    let (msg, found) = run_scan("/r", &dirs, &files, None);
    assert_eq!(found, 2);
    let t = match msg {
        ScanMessage::Finished(t) => t,
        _ => panic!("scan did not finish"),
    };
    assert_eq!(t.name, "r");
    assert_eq!(t.path, "/r");
    let a = &t.children_files[0];
    assert_eq!(a.rel_path, "a.py");
    assert_eq!(a.extension, "py");
    assert_eq!(a.size_bytes, 7);
    assert!(!a.selected);
    let c = &t.children_dirs[0].children_files[0];
    assert_eq!(c.path, "/r/b/c.JS");
    assert_eq!(c.rel_path, "b/c.JS");
    assert_eq!(c.extension, "js");
    assert_eq!(c.size_bytes, 42);
}

#[test]
fn scan_tolerates_failed_reads() {
    let mut scan = DirScan::new("/r".to_string());
    let mut reply = ScanReply::Unavailable;
    let mut listed = 0;
    loop {
        match scan.step(reply) {
            ScanAction::ListDir(_) => {
                listed += 1;
                reply = if listed == 1 {
                    ScanReply::Listing(vec![
                        DirEntry { name: "locked".to_string(), path: "/r/locked".to_string(), is_dir: true },
                        DirEntry { name: "f.txt".to_string(), path: "/r/f.txt".to_string(), is_dir: false },
                    ])
                } else {
                    ScanReply::Unavailable
                };
            }
            ScanAction::MeasureFile(_) => reply = ScanReply::Unavailable,
            ScanAction::FileAdded | ScanAction::Continue => reply = ScanReply::Unavailable,
            ScanAction::Done => break,
        }
    }
    match scan.conclude(false) {
        ScanMessage::Finished(t) => {
            assert_eq!(t.children_dirs.len(), 1);
            assert!(t.children_dirs[0].children_files.is_empty());
            assert_eq!(t.children_files[0].size_bytes, 0);
        }
        _ => panic!("scan did not finish"),
    }
}

#[test]
fn cancelled_scan_yields_no_tree() {
    let dirs = ["/r/a", "/r/b"];
    let files = [("/r/a/1.txt", 1), ("/r/b/2.txt", 1), ("/r/3.txt", 1)];
    let (msg, found) = run_scan("/r", &dirs, &files, Some(4));
    assert!(matches!(msg, ScanMessage::Cancelled));
    assert!(found < 3);
    let mut app = code_collector::collector::CodeCollectorApp::default();
    let _walk = app.start_scan("/r".to_string());
    assert!(!app.apply_scan_message(msg));
    assert!(app.root_node.is_none());
    assert!(!app.is_loading);
    assert_eq!(app.status_text, "Scanning cancelled.");
}

#[test]
fn cancel_after_completion_still_cancels() {
    let mut scan = DirScan::new("/r".to_string());
    let mut reply = ScanReply::Unavailable;
    loop {
        match scan.step(reply) {
            ScanAction::ListDir(_) => reply = ScanReply::Listing(Vec::new()),
            ScanAction::Done => break,
            _ => reply = ScanReply::Unavailable,
        }
    }
    assert!(matches!(scan.conclude(true), ScanMessage::Cancelled));
}

#[test]
fn blade_templates_get_compound_extension() {
    assert_eq!(file_extension("App.blade.php"), "blade.php");
    assert_eq!(file_extension("app.php"), "php");
    assert_eq!(file_extension("VIEW.BLADE.PHP"), "blade.php");
}

#[test]
fn extension_rules() {
    assert_eq!(file_extension("Makefile"), "");
    assert_eq!(file_extension(".env"), "");
    assert_eq!(file_extension("archive.tar.GZ"), "gz");
    assert_eq!(file_extension("trailing."), "");
    assert_eq!(file_extension("Main.RS"), "rs");
}

#[test]
fn entry_filters() {
    assert!(is_admitted_entry(&".env".to_string()));
    assert!(!is_admitted_entry(&".envrc".to_string()));
    assert!(!is_admitted_entry(&"vendor".to_string()));
    assert!(!is_admitted_entry(&"storage".to_string()));
    assert!(is_admitted_entry(&"Vendor".to_string()));
    assert!(is_admitted_entry(&"src".to_string()));
    assert!(!is_admitted_file(&"full_code.txt".to_string()));
    assert!(is_admitted_file(&"full_code.md".to_string()));
}

#[test]
fn relative_paths_join_with_slash() {
    assert_eq!(join_rel(&String::new(), &"a.py".to_string()), "a.py");
    assert_eq!(join_rel(&"b/c".to_string(), &"d.js".to_string()), "b/c/d.js");
}

#[test]
fn export_after_scan_skips_git_contents() {
    let dirs = ["/r/b", "/r/b/.git"];
    let files = [("/r/a.py", 1), ("/r/b/.git/x.txt", 1), ("/r/b/c.js", 1)];
    let mut t = scan_tree("/r", &dirs, &files);
    restore_selections(&mut t, &vec!["/r/a.py".to_string(), "/r/b/c.js".to_string(), "/r/b/.git/x.txt".to_string()]);
    let chosen = selected_files(&t);
    let texts: Vec<Option<String>> = chosen
        .iter()
        .map(|f| Some(format!("content of {}", f.name)))
        .collect();
    let mut out = String::new();
    collect_content_string(&t, &texts, &mut out);
    let rule = "=".repeat(50);
    let expected = format!(
        "\n\n{r}\nFILE: a.py\nLANGUAGE: py\n{r}\n\ncontent of a.py\n\n{r}\nFILE: b/c.js\nLANGUAGE: js\n{r}\n\ncontent of c.js",
        r = rule
    );
    assert_eq!(out, expected);
    assert_eq!(out.matches("FILE: ").count(), 2);
    assert!(!out.contains("x.txt"));
}
