use zinoma::engine::watcher::{is_tmp_editor_file, tmp_editor_file_check};

#[test]
fn watcher_src_file_should_not_be_tmp_editor_file() {
    assert!(!is_tmp_editor_file("/my/project/src/main.rs"));
}

#[test]
fn watcher_intellij_tmp_file_should_be_tmp_editor_file() {
    assert!(is_tmp_editor_file("/my/project/src/main.rs~"));
}

#[test]
fn watcher_vim_tmp_file_should_be_tmp_editor_file() {
    let path = "/my/project/src/.main.rs.swp";
    assert!(is_tmp_editor_file(path));

    let path = "/my/project/src/.main.rs.swx";
    assert!(is_tmp_editor_file(path));
}

#[test]
fn tmp_editor_file_check_without_file_name() {
    assert_eq!(tmp_editor_file_check("/"), None);
    assert_eq!(tmp_editor_file_check("/a/.b.swp"), Some(true));
    assert_eq!(tmp_editor_file_check("/a/b.swp"), Some(false));
    assert_eq!(tmp_editor_file_check("/a/.swpx"), Some(false));
}
