use vexlang::source::fs::{DirEntry, File, FileSystem, FsError};
use vexlang::source::impls::virtual_fs::{VirtualFileSystem, VirtualFileSystemItem};

fn text(s: &str) -> String {
    s.to_string()
}

#[test]
fn a() -> Result<(), FsError> {
    let mut vfs = VirtualFileSystem::new();
    vfs.create_dir("abc")?;
    vfs.create_dir("abc/def")?;
    vfs.create_dir("abc/def/ghi")?;
    vfs.write_file("abc/def/ghi/jkl.file", vec![0, 1, 2])?;
    vfs.write_file("abc/def/ghi/mno.file", vec![0, 1, 2])?;
    vfs.write_file("abc/def/ghi.file", vec![3, 4, 5])?;

    println!("{:?}", vfs);
    Ok(())
}

#[test]
fn nested_folders_then_files() {
    let mut vfs = VirtualFileSystem::new();
    assert_eq!(vfs.create_dir("abc/def/ghi"), Ok(()));
    assert_eq!(vfs.write_file("abc/def/ghi/jkl.file", vec![0, 1, 2]), Ok(()));
    assert_eq!(vfs.write_file("abc/def/ghi.file", vec![3, 4, 5]), Ok(()));
    assert_eq!(
        vfs.read_dir("abc/def"),
        Ok(vec![DirEntry::Folder { name: text("ghi") }, DirEntry::File { name: text("ghi.file") }])
    );
    assert_eq!(
        vfs.read_file("abc/def/ghi/jkl.file"),
        Ok(File { name: text("jkl.file"), data: vec![0, 1, 2] })
    );
}

#[test]
fn write_then_read_gives_the_bytes_back() {
    let mut vfs = VirtualFileSystem::new();
    vfs.create_dir("src/lib").unwrap();
    let bytes = vec![9, 8, 7, 6, 5, 4, 3, 2, 1, 0, 255];
    assert_eq!(vfs.write_file("src/lib/main.vex", bytes.clone()), Ok(()));
    assert_eq!(vfs.read_file("src/lib/main.vex"), Ok(File::new(text("main.vex"), bytes)));
}

#[test]
fn write_directly_under_the_root() {
    let mut vfs = VirtualFileSystem::new();
    assert_eq!(vfs.write_file("top.txt", vec![1]), Ok(()));
    assert_eq!(vfs.read_file("top.txt"), Ok(File::new(text("top.txt"), vec![1])));
}

#[test]
fn write_replaces_the_whole_content() {
    let mut vfs = VirtualFileSystem::new();
    vfs.create_dir("d").unwrap();
    vfs.write_file("d/f", vec![1, 2, 3, 4]).unwrap();
    vfs.write_file("d/f", vec![5]).unwrap();
    assert_eq!(vfs.read_file("d/f"), Ok(File::new(text("f"), vec![5])));
    assert_eq!(vfs.read_dir("d"), Ok(vec![DirEntry::File { name: text("f") }]));
}

#[test]
fn write_takes_the_place_of_a_folder_of_that_name() {
    let mut vfs = VirtualFileSystem::new();
    vfs.create_dir("d/x/deep").unwrap();
    assert_eq!(vfs.write_file("d/x", vec![7]), Ok(()));
    assert_eq!(vfs.read_file("d/x"), Ok(File::new(text("x"), vec![7])));
    assert_eq!(vfs.read_dir("d"), Ok(vec![DirEntry::File { name: text("x") }]));
    assert_eq!(vfs.read_dir("d/x/deep"), Err(FsError::NotADirectory { path: text("d/x") }));
}

#[test]
fn write_makes_no_folders() {
    let mut vfs = VirtualFileSystem::new();
    vfs.create_dir("a").unwrap();
    assert_eq!(vfs.write_file("a/b/c.txt", vec![1]), Err(FsError::NotFound { path: text("a/b") }));
    assert_eq!(vfs.write_file("x/c.txt", vec![1]), Err(FsError::NotFound { path: text("x") }));
    assert_eq!(vfs.read_dir("a"), Ok(vec![]));
}

#[test]
fn write_below_a_file_is_refused() {
    let mut vfs = VirtualFileSystem::new();
    vfs.create_dir("a").unwrap();
    vfs.write_file("a/f", vec![1]).unwrap();
    assert_eq!(vfs.write_file("a/f/g", vec![2]), Err(FsError::NotADirectory { path: text("a/f") }));
    assert_eq!(
        vfs.write_file("a/f/g/h", vec![2]),
        Err(FsError::NotADirectory { path: text("a/f") })
    );
    assert_eq!(vfs.read_file("a/f"), Ok(File::new(text("f"), vec![1])));
}

#[test]
fn create_dir_twice_is_create_dir_once() {
    let mut once = VirtualFileSystem::new();
    once.create_dir("a/b/c").unwrap();
    once.write_file("a/b/keep", vec![1, 2]).unwrap();
    let mut twice = VirtualFileSystem::new();
    twice.create_dir("a/b/c").unwrap();
    twice.write_file("a/b/keep", vec![1, 2]).unwrap();
    assert_eq!(twice.create_dir("a/b/c"), Ok(()));
    assert_eq!(format!("{:?}", once), format!("{:?}", twice));
    assert_eq!(twice.read_file("a/b/keep"), Ok(File::new(text("keep"), vec![1, 2])));
    assert_eq!(
        twice.read_dir("a/b"),
        Ok(vec![DirEntry::Folder { name: text("c") }, DirEntry::File { name: text("keep") }])
    );
}

#[test]
fn create_dir_keeps_what_exists() {
    let mut vfs = VirtualFileSystem::new();
    vfs.create_dir("a/b").unwrap();
    vfs.write_file("a/b/f", vec![3]).unwrap();
    assert_eq!(vfs.create_dir("a"), Ok(()));
    assert_eq!(vfs.create_dir("a/b/c/d"), Ok(()));
    assert_eq!(vfs.read_file("a/b/f"), Ok(File::new(text("f"), vec![3])));
    assert_eq!(vfs.read_dir("a/b/c"), Ok(vec![DirEntry::Folder { name: text("d") }]));
    assert_eq!(vfs.read_dir("a/b/c/d"), Ok(vec![]));
}

#[test]
fn create_dir_over_a_file_is_refused_and_changes_nothing() {
    let mut vfs = VirtualFileSystem::new();
    vfs.create_dir("a").unwrap();
    vfs.write_file("a/f", vec![1]).unwrap();
    let before = format!("{:?}", vfs);
    assert_eq!(vfs.create_dir("a/f"), Err(FsError::NotADirectory { path: text("a/f") }));
    assert_eq!(vfs.create_dir("a/f/g/h"), Err(FsError::NotADirectory { path: text("a/f") }));
    assert_eq!(format!("{:?}", vfs), before);
}

#[test]
fn listing_has_one_entry_for_each_child() {
    let mut vfs = VirtualFileSystem::new();
    vfs.create_dir("home").unwrap();
    vfs.write_file("home/a", vec![1]).unwrap();
    vfs.create_dir("home/b").unwrap();
    vfs.write_file("home/b/inner", vec![2]).unwrap();
    let listed = vfs.read_dir("home").unwrap();
    assert_eq!(listed.len(), 2);
    assert_eq!(listed, vec![DirEntry::File { name: text("a") }, DirEntry::Folder { name: text("b") }]);
}

#[test]
fn read_file_on_a_folder_is_not_a_file() {
    let mut vfs = VirtualFileSystem::new();
    vfs.create_dir("a/b").unwrap();
    assert_eq!(vfs.read_file("a/b"), Err(FsError::NotAFile { path: text("a/b") }));
    assert_eq!(vfs.read_file("a"), Err(FsError::NotAFile { path: text("a") }));
}

#[test]
fn read_dir_on_a_file_is_not_a_directory() {
    let mut vfs = VirtualFileSystem::new();
    vfs.create_dir("a").unwrap();
    vfs.write_file("a/f", vec![]).unwrap();
    assert_eq!(vfs.read_dir("a/f"), Err(FsError::NotADirectory { path: text("a/f") }));
}

#[test]
fn missing_names_are_not_found_and_named() {
    let mut vfs = VirtualFileSystem::new();
    vfs.create_dir("a/b").unwrap();
    assert_eq!(vfs.read_file("a/b/c"), Err(FsError::NotFound { path: text("a/b/c") }));
    assert_eq!(vfs.read_file("a/x/c/d"), Err(FsError::NotFound { path: text("a/x") }));
    assert_eq!(vfs.read_dir("z"), Err(FsError::NotFound { path: text("z") }));
    assert_eq!(vfs.read_dir(""), Err(FsError::NotFound { path: text("") }));
    assert_eq!(vfs.read_dir("a//b"), Err(FsError::NotFound { path: text("a/") }));
    assert_eq!(vfs.read_dir("/a"), Err(FsError::NotFound { path: text("") }));
}

#[test]
fn a_file_on_the_way_blocks_resolution() {
    let mut vfs = VirtualFileSystem::new();
    vfs.create_dir("a").unwrap();
    vfs.write_file("a/f", vec![1]).unwrap();
    assert_eq!(vfs.read_file("a/f/g"), Err(FsError::NotADirectory { path: text("a/f") }));
    assert_eq!(vfs.read_dir("a/f/g/h"), Err(FsError::NotADirectory { path: text("a/f") }));
}

#[test]
fn remove_dir_takes_the_whole_subtree() {
    let mut vfs = VirtualFileSystem::new();
    vfs.create_dir("a/b/c").unwrap();
    vfs.write_file("a/b/c/f", vec![1]).unwrap();
    vfs.write_file("a/b/g", vec![2]).unwrap();
    vfs.create_dir("a/other").unwrap();
    assert_eq!(vfs.remove_dir("a/b"), Ok(()));
    assert_eq!(vfs.read_dir("a"), Ok(vec![DirEntry::Folder { name: text("other") }]));
    assert_eq!(vfs.read_dir("a/b"), Err(FsError::NotFound { path: text("a/b") }));
    assert_eq!(vfs.read_dir("a/b/c"), Err(FsError::NotFound { path: text("a/b") }));
    assert_eq!(vfs.read_file("a/b/c/f"), Err(FsError::NotFound { path: text("a/b") }));
    assert_eq!(vfs.read_file("a/b/g"), Err(FsError::NotFound { path: text("a/b") }));
}

#[test]
fn remove_dir_leaves_a_namesake_further_up() {
    let mut vfs = VirtualFileSystem::new();
    vfs.create_dir("a/a").unwrap();
    vfs.create_dir("top").unwrap();
    assert_eq!(vfs.remove_dir("top/a"), Err(FsError::NotFound { path: text("top/a") }));
    assert_eq!(vfs.remove_dir("a/a"), Ok(()));
    assert_eq!(vfs.read_dir("a"), Ok(vec![]));
    assert_eq!(vfs.get_item("a").map(|item| item.is_folder()), Ok(true));
}

#[test]
fn remove_file_takes_the_file_only() {
    let mut vfs = VirtualFileSystem::new();
    vfs.create_dir("a").unwrap();
    vfs.write_file("a/f", vec![1]).unwrap();
    vfs.write_file("a/g", vec![2]).unwrap();
    assert_eq!(vfs.remove_file("a/f"), Ok(()));
    assert_eq!(vfs.read_file("a/f"), Err(FsError::NotFound { path: text("a/f") }));
    assert_eq!(vfs.read_dir("a"), Ok(vec![DirEntry::File { name: text("g") }]));
    assert_eq!(vfs.remove_file("a/f"), Err(FsError::NotFound { path: text("a/f") }));
}

#[test]
fn removal_of_the_wrong_kind_is_refused() {
    let mut vfs = VirtualFileSystem::new();
    vfs.create_dir("a/d").unwrap();
    vfs.write_file("a/f", vec![1]).unwrap();
    let before = format!("{:?}", vfs);
    assert_eq!(vfs.remove_dir("a/f"), Err(FsError::NotADirectory { path: text("a/f") }));
    assert_eq!(vfs.remove_file("a/d"), Err(FsError::NotAFile { path: text("a/d") }));
    assert_eq!(format!("{:?}", vfs), before);
}

#[test]
fn removal_where_the_path_leads_nowhere() {
    let mut vfs = VirtualFileSystem::new();
    vfs.create_dir("a").unwrap();
    vfs.write_file("a/f", vec![1]).unwrap();
    assert_eq!(vfs.remove_dir("a/x"), Err(FsError::NotFound { path: text("a/x") }));
    assert_eq!(vfs.remove_dir("x/y"), Err(FsError::NotFound { path: text("x") }));
    assert_eq!(vfs.remove_file("a/f/g"), Err(FsError::NotADirectory { path: text("a/f") }));
    assert_eq!(vfs.remove_file("x"), Err(FsError::NotFound { path: text("x") }));
}

#[test]
fn get_item_resolves_as_the_operations_do() {
    let mut vfs = VirtualFileSystem::new();
    vfs.create_dir("a/b").unwrap();
    vfs.write_file("a/b/f", vec![4, 2]).unwrap();
    assert_eq!(vfs.get_item("a/b").unwrap().name(), "b");
    assert!(vfs.get_item("a/b").unwrap().is_folder());
    assert!(!vfs.get_item("a/b/f").unwrap().is_folder());
    assert_eq!(vfs.get_item("a/c").err(), Some(FsError::NotFound { path: text("a/c") }));
    assert_eq!(vfs.get_item("a/b/f/g").err(), Some(FsError::NotADirectory { path: text("a/b/f") }));
}

#[test]
fn get_item_mut_changes_the_tree_in_place() {
    let mut vfs = VirtualFileSystem::new();
    vfs.create_dir("a").unwrap();
    vfs.write_file("a/f", vec![1]).unwrap();
    *vfs.get_item_mut("a/f").unwrap() = VirtualFileSystemItem::file("f", vec![8, 9]);
    assert_eq!(vfs.read_file("a/f"), Ok(File::new(text("f"), vec![8, 9])));
    assert_eq!(vfs.get_item_mut("a/x").err(), Some(FsError::NotFound { path: text("a/x") }));
    let folder = vfs.get_item_mut("a").unwrap();
    folder.folder_contents_mut("a").unwrap().push(VirtualFileSystemItem::folder("made"));
    assert_eq!(
        vfs.read_dir("a"),
        Ok(vec![DirEntry::File { name: text("f") }, DirEntry::Folder { name: text("made") }])
    );
}

#[test]
fn items_know_their_kind() {
    let file = VirtualFileSystemItem::file("f", vec![1, 2]);
    let folder = VirtualFileSystemItem::folder("d");
    assert_eq!(file.as_dir_entry(), DirEntry::File { name: text("f") });
    assert_eq!(folder.as_dir_entry(), DirEntry::Folder { name: text("d") });
    assert_eq!(folder.folder_contents("d").map(|items| items.len()), Ok(0));
    assert_eq!(
        file.folder_contents("some/where").err(),
        Some(FsError::NotADirectory { path: text("some/where") })
    );
    let mut file = file;
    assert_eq!(
        file.folder_contents_mut("p").err(),
        Some(FsError::NotADirectory { path: text("p") })
    );
}

#[test]
fn a_copy_of_an_item_is_the_whole_subtree() {
    let mut vfs = VirtualFileSystem::new();
    vfs.create_dir("a/b").unwrap();
    vfs.write_file("a/b/f", vec![1]).unwrap();
    let copy = vfs.get_item("a").unwrap().clone();
    vfs.remove_dir("a/b").unwrap();
    assert_eq!(
        format!("{:?}", copy),
        "Folder { name: \"a\", contents: [Folder { name: \"b\", contents: [File { name: \"f\", data: [1] }] }] }"
    );
}

#[test]
fn a_new_store_is_empty() {
    let vfs = VirtualFileSystem::new();
    assert_eq!(vfs.read_file("anything"), Err(FsError::NotFound { path: text("anything") }));
    assert_eq!(format!("{:?}", vfs), "VirtualFileSystem { root: Folder { name: \"\", contents: [] } }");
}

#[test]
fn a_copy_of_a_store_goes_its_own_way() {
    let mut vfs = VirtualFileSystem::new();
    vfs.create_dir("a").unwrap();
    vfs.write_file("a/f", vec![1]).unwrap();
    let copy = vfs.clone();
    vfs.write_file("a/f", vec![2]).unwrap();
    vfs.remove_dir("a").unwrap();
    assert_eq!(copy.read_file("a/f"), Ok(File::new(text("f"), vec![1])));
    assert_eq!(vfs.read_file("a/f"), Err(FsError::NotFound { path: text("a") }));
}
