use codefactory::files::{
    attachment_extension, path_pieces, path_within, prepare_attachment, tree_depth,
    visible_entries, DirEntryInfo,
};

fn entry(name: &str, is_dir: Option<bool>) -> DirEntryInfo {
    DirEntryInfo { name: name.to_string(), is_dir }
}

fn listed(entries: &[DirEntryInfo]) -> Vec<String> {
    let v: Vec<DirEntryInfo> = entries.iter().map(|e| entry(&e.name, e.is_dir)).collect();
    visible_entries(&v).into_iter().map(|i| entries[i].name.clone()).collect()
}

#[test]
fn paths_split_into_normal_pieces() {
    assert_eq!(path_pieces("/a//b/./c/"), vec!["a".to_string(), "b".to_string(), "c".to_string()]);
    assert_eq!(path_pieces("."), Vec::<String>::new());
}

#[test]
fn descendants_are_inside_and_siblings_are_not() {
    assert!(path_within("/work/app", "/work/app"));
    assert!(path_within("/work/app", "/work/app/src/main.rs"));
    assert!(!path_within("/work/app", "/work/application"));
    assert!(!path_within("/work/app", "/work"));
    assert!(!path_within("/work/app", "work/app/src"));
}

#[test]
fn canonical_parent_of_root_is_outside() {
    // A canonical parent of the root is outside it.
    assert!(!path_within("/tmp/root", "/tmp"));
}

#[test]
fn tree_depth_is_capped() {
    assert_eq!(tree_depth(1), 1);
    assert_eq!(tree_depth(99), 3);
}

#[test]
fn listing_hides_dotfiles_and_ignored_directories() {
    let entries = vec![
        entry(".env", Some(false)),
        entry(".gitignore", Some(false)),
        entry(".hidden", Some(true)),
        entry("visible.txt", Some(false)),
        entry("node_modules", Some(true)),
        entry("target", Some(false)),
        entry("broken", None),
    ];
    assert_eq!(listed(&entries), vec!["target".to_string(), "visible.txt".to_string()]);
}

#[test]
fn listing_puts_directories_first_then_names_case_insensitively() {
    let entries = vec![
        entry("b.rs", Some(false)),
        entry("Src", Some(true)),
        entry("A.md", Some(false)),
        entry("docs", Some(true)),
        entry("a.md", Some(false)),
    ];
    assert_eq!(
        listed(&entries),
        vec![
            "docs".to_string(),
            "Src".to_string(),
            "A.md".to_string(),
            "a.md".to_string(),
            "b.rs".to_string()
        ]
    );
}

#[test]
fn attachment_extensions_are_lowercase_alphanumeric_or_bin() {
    assert_eq!(attachment_extension("Screenshot.PNG"), "png");
    assert_eq!(attachment_extension("dir/photo.jpeg"), "jpeg");
    assert_eq!(attachment_extension("archive.tar.gz"), "gz");
    assert_eq!(attachment_extension(".bashrc"), "bin");
    assert_eq!(attachment_extension("noext"), "bin");
    assert_eq!(attachment_extension("evil.p-h"), "bin");
    assert_eq!(attachment_extension("../.."), "bin");
}

#[test]
fn attachments_decode_base64_or_report_the_decoder_error() {
    let p = prepare_attachment("a.txt", "aGVsbG8=").unwrap();
    assert_eq!(p.bytes, b"hello".to_vec());
    assert_eq!(p.extension, "txt");
    let e = prepare_attachment("a.txt", "***").unwrap_err();
    assert!(e.starts_with("base64 decode failed: "));
}
