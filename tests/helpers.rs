use code_collector::node::FileNode;
use code_collector::order::{name_le_chars, sort_files};
use code_collector::search::matches_folded;
use code_collector::text::{chars_of, concat_text, ends_with};

fn chars(s: &str) -> Vec<char> {
    s.chars().collect()
}

fn named(name: &str) -> FileNode {
    FileNode {
        name: name.to_string(),
        path: format!("/x/{}", name),
        rel_path: name.to_string(),
        extension: String::new(),
        selected: false,
        size_bytes: 0,
    }
}

#[test]
fn name_order_is_code_point_order() {
    assert!(name_le_chars(&chars("B"), &chars("a")));
    assert!(!name_le_chars(&chars("a"), &chars("B")));
    assert!(name_le_chars(&chars("ab"), &chars("abc")));
    assert!(!name_le_chars(&chars("abc"), &chars("ab")));
    assert!(name_le_chars(&chars("same"), &chars("same")));
    assert!(name_le_chars(&chars("z"), &chars("é")));
}

#[test]
fn sorting_files_by_name() {
    let v = vec![named("b.rs"), named("A.rs"), named("a.rs"), named("_x"), named("a")];
    let names: Vec<String> = sort_files(v).into_iter().map(|f| f.name).collect();
    assert_eq!(names, vec!["A.rs", "_x", "a", "a.rs", "b.rs"]);
    assert!(sort_files(Vec::new()).is_empty());
}

#[test]
fn folded_match_lowercases_names_only() {
    let d = code_collector::node::DirNode {
        name: "Top".to_string(),
        path: "/x".to_string(),
        children_dirs: vec![],
        children_files: vec![named("ReadMe.MD")],
    };
    assert!(matches_folded(&d, "readme"));
    assert!(!matches_folded(&d, "README"));
    assert!(!matches_folded(&d, "top"));
}

#[test]
fn char_helpers() {
    assert_eq!(chars_of("héllo"), vec!['h', 'é', 'l', 'l', 'o']);
    assert_eq!(concat_text("ab", "cd"), "abcd");
    assert!(ends_with(&chars("x.blade.php"), &chars(".blade.php")));
    assert!(!ends_with(&chars("php"), &chars(".blade.php")));
    assert!(ends_with(&chars("any"), &chars("")));
}
