use nextsyncengine::filesystem::{File, Folder};

#[test]
fn test_add_sub_folder() {
    // build one tree step by step, re-adding a folder to check the no-op
    let mut root_manual = Folder::new("root".to_string());
    root_manual.add_sub_folder(Folder::new("sub_1".to_string()), "root");
    root_manual.add_sub_folder(Folder::new("sub_1".to_string()), "root");
    root_manual.add_sub_folder(Folder::new("sub_sub_1".to_string()), "root/sub_1");
    root_manual.add_sub_folder(Folder::new("sub_sub_2".to_string()), "root/sub_1");
    root_manual.add_sub_folder(Folder::new("sub_sub_sub_1".to_string()), "root/sub_1/sub_sub_2");

    // build an object of the Folder struct with the 'add_sub_folder' method
    let mut root_auto = Folder::new("root".to_string());
    root_auto.add_sub_folder(Folder::new("sub_1".to_string()), "root");
    root_auto.add_sub_folder(Folder::new("sub_sub_1".to_string()), "root/sub_1");
    root_auto.add_sub_folder(Folder::new("sub_sub_2".to_string()), "root/sub_1");
    root_auto.add_sub_folder(Folder::new("sub_sub_sub_1".to_string()), "root/sub_1/sub_sub_2");

    // assert that both objects are equal
    assert_eq!(root_manual, root_auto)
}

#[test]
fn test_has_subfolder_exists_match() {
    let mut root = Folder::new("root".to_string());
    root.add_sub_folder(Folder::new("sub_1".to_string()), "root");
    root.add_sub_folder(Folder::new("sub_2".to_string()), "root");
    root.add_sub_folder(Folder::new("sub_sub_1".to_string()), "root/sub_1");
    root.add_sub_folder(Folder::new("sub_sub_2".to_string()), "root/sub_1");

    assert!(root.has_subfolder("root/sub_1/sub_sub_2"))
}

#[test]
fn test_has_subfolder_non_existent() {
    let mut root = Folder::new("root".to_string());
    root.add_sub_folder(Folder::new("sub_1".to_string()), "root");
    root.add_sub_folder(Folder::new("sub_2".to_string()), "root");
    root.add_sub_folder(Folder::new("sub_sub_1".to_string()), "root/sub_1");
    root.add_sub_folder(Folder::new("sub_sub_2".to_string()), "root/sub_1");

    // assert that root does not have a sub folder 'sub_sub_4'
    assert_eq!(false, root.has_subfolder("root/sub_1/sub_sub_4"))
}

#[test]
fn test_has_subfolder_exists_no_match() {
    let mut root = Folder::new("root".to_string());
    root.add_sub_folder(Folder::new("sub_1".to_string()), "root");
    root.add_sub_folder(Folder::new("sub_2".to_string()), "root");
    root.add_sub_folder(Folder::new("sub_sub_1".to_string()), "root/sub_1");
    root.add_sub_folder(Folder::new("sub_sub_2".to_string()), "root/sub_1");

    // root has a sub folder 'sub_sub_1', but not at 'root/sub_2/sub_sub_1'
    assert_eq!(false, root.has_subfolder("root/sub_2/sub_sub_1"))
}

#[test]
fn test_added_path_is_found() {
    // every level of an added path is afterwards reported present
    let mut root = Folder::new("/Test".to_string());
    root.add_sub_folder(Folder::new("2024".to_string()), "/Test");
    root.add_sub_folder(Folder::new("03".to_string()), "/Test/2024");
    root.add_sub_folder(Folder::new("05".to_string()), "/Test/2024/03");

    assert!(root.has_subfolder("/Test/2024"));
    assert!(root.has_subfolder("/Test/2024/03"));
    assert!(root.has_subfolder("/Test/2024/03/05"));
    assert!(!root.has_subfolder("/Test/2024/03/06"));
    assert!(!root.has_subfolder("/Test/2025"));
}

#[test]
fn test_add_creates_missing_levels() {
    // a path added in one step creates its missing ancestors on the way
    let mut root = Folder::new("root".to_string());
    root.add_sub_folder(Folder::new("c".to_string()), "root/a/b");

    assert!(root.has_subfolder("root/a"));
    assert!(root.has_subfolder("root/a/b"));
    assert!(root.has_subfolder("root/a/b/c"));
    assert!(!root.has_subfolder("root/b"));
}

#[test]
fn test_add_twice_is_idempotent() {
    let mut once = Folder::new("root".to_string());
    once.add_sub_folder(Folder::new("sub_1".to_string()), "root");
    once.add_sub_folder(Folder::new("sub_sub_1".to_string()), "root/sub_1");

    let mut twice = Folder::new("root".to_string());
    twice.add_sub_folder(Folder::new("sub_1".to_string()), "root");
    twice.add_sub_folder(Folder::new("sub_sub_1".to_string()), "root/sub_1");
    twice.add_sub_folder(Folder::new("sub_sub_1".to_string()), "root/sub_1");

    assert_eq!(once, twice);
}

#[test]
fn test_get_name() {
    let root = Folder::new("/photos".to_string());
    assert_eq!(root.get_name(), "/photos".to_string());
}

#[test]
fn test_file_fields() {
    let f = File::new("/tmp/a.jpg".to_string(), 1709632800, 512);
    assert_eq!(f.get_local_path(), "/tmp/a.jpg");
    assert_eq!(f.get_mtime(), 1709632800);
    assert_eq!(f.get_size(), 512);
    assert_eq!(f.get_remote_parent(), "");
}

#[test]
fn test_file_set_remote_parent() {
    let mut f = File::new("/tmp/a.jpg".to_string(), 0, 1);
    f.set_remote_parent("/Test/2024".to_string());
    assert_eq!(f.get_remote_parent(), "/Test/2024");

    // a second assignment extends the path, separated by '/'
    f.set_remote_parent("03".to_string());
    assert_eq!(f.get_remote_parent(), "/Test/2024/03");
}
