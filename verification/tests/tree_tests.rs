use notemac::tree::{build_file_tree_public, DirSnapshot, EntrySnapshot, FileTreeNode};

fn file(name: &str) -> EntrySnapshot {
    EntrySnapshot::File { name: name.to_string() }
}

fn dir(name: &str, entries: Vec<EntrySnapshot>) -> EntrySnapshot {
    EntrySnapshot::Dir { name: name.to_string(), contents: DirSnapshot::Entries(entries) }
}

fn unreadable_dir(name: &str, message: &str) -> EntrySnapshot {
    EntrySnapshot::Dir {
        name: name.to_string(),
        contents: DirSnapshot::Unreadable(message.to_string()),
    }
}

fn build(path: &str, entries: Vec<EntrySnapshot>) -> Vec<FileTreeNode> {
    build_file_tree_public(path, &DirSnapshot::Entries(entries)).unwrap()
}

// ── Depth cutoff ─────────────────────────────────────────────

#[test]
fn build_file_tree_respects_max_depth() {
    // A nested chain 0/1/2/3/4/5/6 with a file at the bottom.
    let mut inner = dir("6", vec![file("deep.txt")]);
    for i in (0..6).rev() {
        inner = dir(&i.to_string(), vec![inner]);
    }
    let tree = build("/tmp/deep", vec![inner]);

    // Traverse into the tree — at depth 5 the expansion stops.
    let mut node = &tree[0]; // "0"
    for _ in 0..5 {
        let children = node.children.as_ref().unwrap();
        if children.is_empty() {
            break;
        }
        node = &children[0];
    }
    let children = node.children.as_ref().unwrap();
    assert!(children.is_empty());
}

#[test]
fn tree_scenario_deep_chain() {
    // Seven nested single-child directories with a file at the bottom:
    // the node at relative depth 5 is present but reports no children.
    let mut inner = dir("6", vec![file("bottom.txt")]);
    for i in (0..6).rev() {
        inner = dir(&i.to_string(), vec![inner]);
    }
    let tree = build("/w", vec![inner]);

    let mut node = &tree[0];
    for expected in 1..=5 {
        let children = node.children.as_ref().unwrap();
        assert_eq!(children.len(), 1);
        node = &children[0];
        assert_eq!(node.name, expected.to_string());
    }
    // "5" stands at the sixth level; "6" is never expanded into it.
    assert_eq!(node.name, "5");
    assert_eq!(node.children.as_ref().unwrap().len(), 0);
}

// ── Ordering ─────────────────────────────────────────────────

#[test]
fn build_file_tree_sorts_dirs_before_files() {
    let tree = build(
        "/tmp/t",
        vec![file("zebra.txt"), dir("alpha_dir", vec![]), file("apple.txt")],
    );
    assert_eq!(tree[0].name, "alpha_dir");
    assert!(tree[0].is_directory);
    assert_eq!(tree[1].name, "apple.txt");
    assert!(!tree[1].is_directory);
    assert_eq!(tree[2].name, "zebra.txt");
}

#[test]
fn build_file_tree_case_insensitive_sort() {
    let tree = build(
        "/tmp/t",
        vec![file("Banana.txt"), file("apple.txt"), file("Cherry.txt")],
    );
    assert_eq!(tree[0].name, "apple.txt");
    assert_eq!(tree[1].name, "Banana.txt");
    assert_eq!(tree[2].name, "Cherry.txt");
}

#[test]
fn tree_scenario_mixed_entries() {
    // The directory comes first, files follow alphabetically; the empty
    // subdirectory carries an empty children list, the files none.
    let tree = build(
        "/base",
        vec![file("file_b.txt"), file("file_a.txt"), dir("subdir", vec![])],
    );
    assert_eq!(tree.len(), 3);
    assert_eq!(tree[0].name, "subdir");
    assert!(tree[0].is_directory);
    assert_eq!(tree[0].children, Some(vec![]));
    assert_eq!(tree[1].name, "file_a.txt");
    assert!(!tree[1].is_directory);
    assert!(tree[1].children.is_none());
    assert_eq!(tree[2].name, "file_b.txt");
    assert!(!tree[2].is_directory);
    assert!(tree[2].children.is_none());
}

// ── Filtering ────────────────────────────────────────────────

#[test]
fn tree_scenario_excludes_hidden_and_node_modules() {
    let tree = build(
        "/base",
        vec![
            file("visible.txt"),
            file(".hidden"),
            dir(".git", vec![file("config")]),
            dir("node_modules", vec![file("package.json")]),
        ],
    );
    assert_eq!(tree.len(), 1);
    assert_eq!(tree[0].name, "visible.txt");
}

#[test]
fn tree_excludes_nested_hidden_entries() {
    let tree = build(
        "/base",
        vec![dir("src", vec![file(".DS_Store"), file("main.rs"), dir("node_modules", vec![])])],
    );
    assert_eq!(tree.len(), 1);
    let children = tree[0].children.as_ref().unwrap();
    assert_eq!(children.len(), 1);
    assert_eq!(children[0].name, "main.rs");
}

// ── Paths ────────────────────────────────────────────────────

#[test]
fn tree_joins_paths_with_separator() {
    let tree = build("/tmp/project", vec![dir("src", vec![file("main.rs")])]);
    assert_eq!(tree[0].path, "/tmp/project/src");
    let children = tree[0].children.as_ref().unwrap();
    assert_eq!(children[0].path, "/tmp/project/src/main.rs");
}

// ── Errors ───────────────────────────────────────────────────

#[test]
fn tree_unreadable_root_reports_path() {
    let err = build_file_tree_public(
        "/nonexistent/directory",
        &DirSnapshot::Unreadable("No such file or directory".to_string()),
    )
    .unwrap_err();
    assert_eq!(err.path, "/nonexistent/directory");
    assert_eq!(err.message, "No such file or directory");
}

#[test]
fn tree_error_in_subdirectory_aborts_whole_build() {
    let result = build_file_tree_public(
        "/base",
        &DirSnapshot::Entries(vec![
            file("ok.txt"),
            unreadable_dir("locked", "permission denied"),
        ]),
    );
    let err = result.unwrap_err();
    assert_eq!(err.path, "/base/locked");
    assert_eq!(err.message, "permission denied");
}

#[test]
fn tree_first_error_in_sibling_order_wins() {
    let err = build_file_tree_public(
        "/base",
        &DirSnapshot::Entries(vec![
            unreadable_dir("b_dir", "second"),
            unreadable_dir("a_dir", "first"),
        ]),
    )
    .unwrap_err();
    assert_eq!(err.path, "/base/a_dir");
    assert_eq!(err.message, "first");
}

// ── Edge cases and idempotence ───────────────────────────────

#[test]
fn tree_empty_directory_gives_empty_tree() {
    let tree = build("/empty", vec![]);
    assert!(tree.is_empty());
}

#[test]
fn tree_order_is_independent_of_enumeration_order() {
    // The same entries handed over in different enumeration orders give
    // the same tree.
    let one = build(
        "/w",
        vec![file("a.txt"), file("A.txt"), dir("Lib", vec![]), file("b.txt"), dir("lib2", vec![])],
    );
    let other = build(
        "/w",
        vec![dir("lib2", vec![]), file("b.txt"), file("A.txt"), dir("Lib", vec![]), file("a.txt")],
    );
    assert_eq!(one, other);
    assert_eq!(one[0].name, "Lib");
    assert_eq!(one[1].name, "lib2");
    // Fold-equal names tie-break on the raw name, scalar order.
    assert_eq!(one[2].name, "A.txt");
    assert_eq!(one[3].name, "a.txt");
    assert_eq!(one[4].name, "b.txt");
}

#[test]
fn tree_builds_are_idempotent() {
    let entries = || {
        vec![
            file("Banana.txt"),
            dir("src", vec![file("lib.rs"), dir("bin", vec![file("main.rs")])]),
            file("apple.txt"),
        ]
    };
    let first = build("/w", entries());
    let second = build("/w", entries());
    assert_eq!(first, second);
}

#[test]
fn file_tree_node_clone_is_structural() {
    let tree = build("/w", vec![dir("src", vec![file("main.rs")]), file("a.txt")]);
    let copied: Vec<FileTreeNode> = tree.iter().map(|n| n.clone()).collect();
    assert_eq!(copied, tree);
}

#[test]
fn folder_data_clone_works() {
    let data = notemac::dialog::FolderData {
        path: "/w".to_string(),
        tree: build("/w", vec![file("a.txt")]),
    };
    let cloned = data.clone();
    assert_eq!(cloned.path, data.path);
    assert_eq!(cloned.tree, data.tree);
}
