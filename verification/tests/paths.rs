use todo_framework::matching::{components_match, matches_path};
use todo_framework::paths::{components, extension, push_path_string};

fn strings(v: &[&str]) -> Vec<String> {
    v.iter().map(|s| s.to_string()).collect()
}

#[test]
fn components_of_absolute_path() {
    assert_eq!(components("/todos/1"), strings(&["/", "todos", "1"]));
}

#[test]
fn components_skip_empty_and_dot_pieces() {
    assert_eq!(components("/a//b/./c/"), strings(&["/", "a", "b", "c"]));
}

#[test]
fn components_keep_leading_dot_and_parent() {
    assert_eq!(components("./a/../b"), strings(&[".", "a", "..", "b"]));
    assert_eq!(components("."), strings(&["."]));
    assert_eq!(components(".hidden"), strings(&[".hidden"]));
}

#[test]
fn components_of_empty_and_root() {
    assert_eq!(components(""), Vec::<String>::new());
    assert_eq!(components("/"), strings(&["/"]));
    assert_eq!(components("//"), strings(&["/"]));
}

#[test]
fn trailing_slash_does_not_change_components() {
    assert_eq!(components("/todos/"), components("/todos"));
    assert_eq!(components("a/"), components("a"));
    assert!(matches_path("/todos", "/todos/"));
}

#[test]
fn components_match_needs_equal_lists() {
    assert!(components_match(strings(&["/", "a"]), strings(&["/", "a"])));
    assert!(!components_match(strings(&["/", "a"]), strings(&["/", "a", "b"])));
    assert!(!components_match(strings(&["/", "a", "b"]), strings(&["/", "a"])));
    assert!(!components_match(strings(&["/", "a"]), strings(&["/", "b"])));
    assert!(components_match(vec![], vec![]));
}

#[test]
fn matches_path_compares_components() {
    assert!(matches_path("/todos", "/todos"));
    assert!(!matches_path("/todos", "/todo"));
    assert!(!matches_path("/todos", "/todos/1"));
    assert!(matches_path("/a//b", "/a/b"));
    assert!(!matches_path("/a", "a"));
}

#[test]
fn extension_after_last_dot() {
    assert_eq!(extension("index.html"), Some("html".to_string()));
    assert_eq!(extension("/srv/www/archive.tar.gz"), Some("gz".to_string()));
    assert_eq!(extension("file."), Some("".to_string()));
}

#[test]
fn extension_absent() {
    assert_eq!(extension(".bashrc"), None);
    assert_eq!(extension("README"), None);
    assert_eq!(extension("/srv/dir.d/"), Some("d".to_string()));
    assert_eq!(extension("/"), None);
    assert_eq!(extension("a/.."), None);
    assert_eq!(extension(""), None);
}

#[test]
fn push_relative_adds_separator() {
    assert_eq!(push_path_string("/srv".to_string(), "index.html"), "/srv/index.html");
    assert_eq!(push_path_string("/srv/".to_string(), "a"), "/srv/a");
    assert_eq!(push_path_string("a".to_string(), ""), "a/");
}

#[test]
fn push_onto_empty() {
    assert_eq!(push_path_string(String::new(), "a"), "a");
}

#[test]
fn push_absolute_replaces() {
    assert_eq!(push_path_string("/srv".to_string(), "/etc/passwd"), "/etc/passwd");
}
