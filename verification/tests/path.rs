use vexlang::source::impls::virtual_fs::VirtualFileSystemPath;
use vexlang::source::path::{join_names, split_path};

fn names(list: &[&str]) -> Vec<String> {
    list.iter().map(|s| s.to_string()).collect()
}

#[test]
fn split_gives_the_names_between_separators() {
    assert_eq!(split_path("abc/def/ghi"), names(&["abc", "def", "ghi"]));
    assert_eq!(split_path("abc"), names(&["abc"]));
    assert_eq!(split_path("a/b.file"), names(&["a", "b.file"]));
}

#[test]
fn split_keeps_empty_names() {
    assert_eq!(split_path(""), names(&[""]));
    assert_eq!(split_path("/"), names(&["", ""]));
    assert_eq!(split_path("/a"), names(&["", "a"]));
    assert_eq!(split_path("a/"), names(&["a", ""]));
    assert_eq!(split_path("a//b"), names(&["a", "", "b"]));
}

#[test]
fn split_counts_characters_not_bytes() {
    assert_eq!(split_path("é/ü€/x"), names(&["é", "ü€", "x"]));
}

#[test]
fn split_is_what_std_splits() {
    for text in ["", "a", "a/b", "/a/b/", "//", "a/b/c/d/e", "é/b"] {
        let expected: Vec<String> = text.split('/').map(|s| s.to_string()).collect();
        assert_eq!(split_path(text), expected);
    }
}

#[test]
fn join_puts_the_names_together_again() {
    let list = names(&["abc", "def", "ghi"]);
    assert_eq!(join_names(&list, 0), "");
    assert_eq!(join_names(&list, 1), "abc");
    assert_eq!(join_names(&list, 2), "abc/def");
    assert_eq!(join_names(&list, 3), "abc/def/ghi");
    for text in ["", "a", "a/b", "/a/b/", "//"] {
        let parts = split_path(text);
        assert_eq!(join_names(&parts, parts.len()), text);
    }
}

#[test]
fn path_has_a_leaf_and_a_parent_chain() {
    let path = VirtualFileSystemPath::new("abc/def/ghi.file");
    assert_eq!(path.file_name(), "ghi.file");
    assert_eq!(path.parent_dirs(), names(&["abc", "def"]).as_slice());
    assert_eq!(path.to_string(), "abc/def/ghi.file/");
}

#[test]
fn path_of_one_name_has_no_parents() {
    let path = VirtualFileSystemPath::new("leaf");
    assert_eq!(path.file_name(), "leaf");
    assert!(path.parent_dirs().is_empty());
    assert_eq!(path.to_string(), "leaf/");
}

#[test]
fn path_from_text_either_way() {
    let borrowed: VirtualFileSystemPath = "a/b".into();
    let owned: VirtualFileSystemPath = String::from("a/b").into();
    assert_eq!(borrowed.file_name(), "b");
    assert_eq!(owned.file_name(), "b");
    assert_eq!(borrowed.parent_dirs(), owned.parent_dirs());
}
