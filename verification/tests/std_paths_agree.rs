use std::path::{Path, PathBuf};
use todo_framework::paths::{components, extension, push_path_string};

const SAMPLES: &[&str] = &[
    "", "/", "//", "///a", ".", "..", "./", "./a", ".//a", "a/.", "a/./b", "a/../b", "/a/b/",
    "/todos/1", "todos", ".hidden", "a.b.c", "file.", "/srv/dir.d/", "a//b", "/.", "/..",
    "x/.y", "x/y.", "..a", "a..", "./.", "././a", "/a/./", "h\u{e9}.t\u{fc}",
];

fn std_components(s: &str) -> Vec<String> {
    Path::new(s).iter().map(|c| c.to_str().unwrap().to_string()).collect()
}

#[test]
fn components_agree_with_std_path() {
    for s in SAMPLES {
        assert_eq!(components(s), std_components(s), "components of {:?}", s);
    }
}

#[test]
fn extension_agrees_with_std_path() {
    for s in SAMPLES {
        let expected = Path::new(s).extension().map(|e| e.to_str().unwrap().to_string());
        assert_eq!(extension(s), expected, "extension of {:?}", s);
    }
}

#[test]
fn push_agrees_with_std_pathbuf() {
    for base in SAMPLES {
        for rel in SAMPLES {
            let mut p = PathBuf::from(base);
            p.push(rel);
            assert_eq!(
                push_path_string(base.to_string(), rel),
                p.to_str().unwrap(),
                "push {:?} onto {:?}",
                rel,
                base
            );
        }
    }
}
