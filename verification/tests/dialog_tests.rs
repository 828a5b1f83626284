use notemac::dialog::{clean_file_path, default_save_name, file_basename, OpenedFileData};

// ── Path cleaning ────────────────────────────────────────────

#[test]
fn clean_path_strips_file_protocol() {
    assert_eq!(clean_file_path("file:///Users/test/file.txt"), "/Users/test/file.txt");
}

#[test]
fn clean_path_preserves_normal_path() {
    assert_eq!(clean_file_path("/Users/test/file.txt"), "/Users/test/file.txt");
}

#[test]
fn clean_path_handles_empty_string() {
    assert_eq!(clean_file_path(""), "");
}

#[test]
fn clean_path_handles_file_protocol_only() {
    assert_eq!(clean_file_path("file://"), "");
}

#[test]
fn clean_path_preserves_spaces_in_path() {
    assert_eq!(
        clean_file_path("file:///Users/test/My Documents/file.txt"),
        "/Users/test/My Documents/file.txt"
    );
}

#[test]
fn clean_path_preserves_unicode_path() {
    assert_eq!(
        clean_file_path("file:///Users/日本語/ファイル.txt"),
        "/Users/日本語/ファイル.txt"
    );
}

// ── Base names and save names ────────────────────────────────

#[test]
fn basename_takes_last_component() {
    assert_eq!(file_basename("/Users/test/file.txt"), "file.txt");
    assert_eq!(file_basename("file.txt"), "file.txt");
}

#[test]
fn basename_ignores_trailing_separators() {
    assert_eq!(file_basename("/a/b/"), "b");
    assert_eq!(file_basename("a//"), "a");
}

#[test]
fn basename_falls_back_to_untitled() {
    assert_eq!(file_basename(""), "untitled");
    assert_eq!(file_basename("/"), "untitled");
    assert_eq!(file_basename("///"), "untitled");
}

#[test]
fn save_name_defaults_when_empty() {
    assert_eq!(default_save_name(String::new()), "untitled.txt");
    assert_eq!(default_save_name("notes.md".to_string()), "notes.md");
}

// ── Data types ───────────────────────────────────────────────

#[test]
fn opened_file_data_clone_works() {
    let data = OpenedFileData {
        path: "/tmp/test.txt".into(),
        content: "hello".into(),
        name: "test.txt".into(),
    };

    let cloned = data.clone();
    assert_eq!(cloned.path, data.path);
    assert_eq!(cloned.content, data.content);
    assert_eq!(cloned.name, data.name);
}
