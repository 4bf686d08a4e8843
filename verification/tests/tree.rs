use todo_framework::framework::router::tree::{get_prefix, TreeNode};

#[test]
fn get_prefix_keeps_whole_shared_prefix() {
    assert_eq!(get_prefix("/todos", "/todo/1"), "/todo");
    assert_eq!(get_prefix("/todos", "/toys"), "/to");
}

#[test]
fn get_prefix_of_equal_strings() {
    assert_eq!(get_prefix("abc", "abc"), "abc");
    assert_eq!(get_prefix("ab", "ab"), "ab");
}

#[test]
fn get_prefix_first_char_differs() {
    assert_eq!(get_prefix("a", "b"), "");
    assert_eq!(get_prefix("abc", "xbc"), "");
}

#[test]
fn get_prefix_empty() {
    assert_eq!(get_prefix("", "anything"), "");
    assert_eq!(get_prefix("anything", ""), "");
}

#[test]
fn get_prefix_single_shared_char() {
    assert_eq!(get_prefix("/a", "/b"), "/");
    assert_eq!(get_prefix("/", "/todos"), "/");
    assert_eq!(get_prefix("/todos", "/"), "/");
}

#[test]
fn get_prefix_is_symmetric() {
    assert_eq!(get_prefix("/todo/1", "/todos"), get_prefix("/todos", "/todo/1"));
    assert_eq!(get_prefix("abd", "abc"), "ab");
    assert_eq!(get_prefix("abc", "abd"), "ab");
}

#[test]
fn get_prefix_counts_characters_not_bytes() {
    assert_eq!(get_prefix("h\u{e9}llo", "h\u{e9}lp"), "h\u{e9}l");
    assert_eq!(get_prefix("h\u{e9}lp", "h\u{e9}llo"), "h\u{e9}l");
    assert_eq!(get_prefix("\u{e9}a", "\u{e9}b"), "\u{e9}");
}

#[test]
fn tree_root_answers_slash() {
    let root = TreeNode::new("/", 1);
    assert_eq!(root.get("/"), Some(&1));
}

#[test]
fn tree_path_outside_root_piece_is_none() {
    let root = TreeNode::new("/api", 1);
    assert_eq!(root.get("/other"), None);
    assert_eq!(root.get("/api"), None);
}

#[test]
fn tree_insert_adds_child_and_counts_priority() {
    let mut root = TreeNode::new("/", 1);
    root.insert("/todos", 2);
    assert_eq!(
        root.to_debug_string(),
        "TreeNode(path='/', priority=1, handler=YES, children=[TreeNode(path='', priority=0, handler=YES, children=[]), ])"
    );
    // the child's piece is empty, so no child takes "/todos"
    assert_eq!(root.get("/todos"), None);
}

#[test]
fn tree_child_reached_by_first_character() {
    let mut root = TreeNode::new("/x", 1);
    root.insert("/x/", 2);
    assert_eq!(root.get("/x/"), Some(&2));
    assert_eq!(root.get("/"), Some(&1));
}

#[test]
fn tree_two_inserts_count_twice() {
    let mut root = TreeNode::new("/x", 1);
    root.insert("/x/", 2);
    root.insert("/x", 3);
    assert_eq!(
        root.to_debug_string(),
        "TreeNode(path='/x', priority=2, handler=YES, children=[TreeNode(path='/', priority=0, handler=YES, children=[]), TreeNode(path='', priority=0, handler=YES, children=[]), ])"
    );
    // the first child whose piece begins with '/' is asked
    assert_eq!(root.get("/x/"), Some(&2));
}

#[test]
fn tree_debug_string_of_leaf() {
    let leaf = TreeNode::new("abc", ());
    assert_eq!(
        leaf.to_debug_string(),
        "TreeNode(path='abc', priority=0, handler=YES, children=[])"
    );
}

#[test]
fn tree_priority_prints_in_decimal() {
    let mut root = TreeNode::new("/x", 0u8);
    for _ in 0..12 {
        root.insert("/x/", 1);
    }
    assert!(root.to_debug_string().starts_with("TreeNode(path='/x', priority=12, handler=YES"));
}

#[test]
fn try_insert_accepts_what_insert_takes() {
    let mut root = TreeNode::new("/x", 1);
    assert_eq!(root.try_insert("/x/", 2), Ok(()));
    assert_eq!(root.get("/x/"), Some(&2));
    assert!(root.to_debug_string().starts_with("TreeNode(path='/x', priority=1, handler=YES"));
}

#[test]
fn try_insert_cuts_the_rest_down() {
    // "ab" after the piece "/x" is cut by two bytes to ""
    let mut root = TreeNode::new("/x", 1);
    assert_eq!(root.try_insert("/xab", 2), Ok(()));
    assert_eq!(
        root.to_debug_string(),
        "TreeNode(path='/x', priority=1, handler=YES, children=[TreeNode(path='', priority=0, handler=YES, children=[]), ])"
    );
}

#[test]
fn try_insert_refuses_a_rest_that_cannot_be_cut() {
    // "abc" after "/x": cutting two bytes leaves "c", shorter than the cut
    let mut root = TreeNode::new("/x", 1);
    assert_eq!(root.try_insert("/xabc", 2), Err(2));
    assert_eq!(
        root.to_debug_string(),
        "TreeNode(path='/x', priority=0, handler=YES, children=[])"
    );
}

#[test]
fn try_insert_refuses_a_path_shorter_than_the_piece() {
    let mut root = TreeNode::new("\u{e9}", 1);
    assert_eq!(root.try_insert("a", 2), Err(2));
    assert_eq!(root.get("/"), Some(&1));
}

#[test]
fn try_insert_refuses_a_cut_inside_a_character() {
    // the piece "ab" is two bytes long, which ends inside "\u{e9}"
    let mut root = TreeNode::new("ab", 1);
    assert_eq!(root.try_insert("a\u{e9}", 2), Err(2));
}

#[test]
fn try_insert_refuses_an_empty_piece_that_never_cuts() {
    let mut root = TreeNode::new("", 1);
    assert_eq!(root.try_insert("abc", 2), Err(2));
    assert_eq!(root.try_insert("/", 3), Ok(()));
    assert_eq!(root.get("/"), Some(&1));
}
