use enclave_tools::fs_watch::{bytes_to_hex, handle_path, normalize_lexically, FileInfo, FileState, FileType, IgnoreList};

#[test]
fn test_bytes_to_hex_conversion() {
    let bytes = vec![0x12, 0x34, 0xAB, 0xCD];
    assert_eq!(bytes_to_hex(&bytes), "1234abcd");
    let empty_bytes: Vec<u8> = Vec::new();
    assert_eq!(bytes_to_hex(&empty_bytes), "");
}

#[test]
fn test_handle_path_variants() {
    assert_eq!(handle_path("./foo/bar.txt", None, None), "foo/bar.txt");
    assert_eq!(handle_path("foo/bar.txt", None, None), "foo/bar.txt");
}

#[test]
fn handle_path_joins_the_watched_directory() {
    assert_eq!(handle_path("a/../b.txt", Some("/data"), None), "/data/b.txt");
    assert_eq!(handle_path("/abs/./x", Some("/data"), None), "/abs/x");
    assert_eq!(handle_path("x", Some("/data/"), None), "/data/x");
}

#[test]
fn handle_path_prefers_the_canonical_form() {
    assert_eq!(handle_path("./x", Some("/data"), Some("/real/x")), "/real/x");
}

#[test]
fn lexical_normalisation() {
    assert_eq!(normalize_lexically("/a/b/../../.."), "/");
    assert_eq!(normalize_lexically("../x//y/"), "x/y");
    assert_eq!(normalize_lexically(""), "");
}

#[test]
fn hex_of_all_byte_edges() {
    assert_eq!(bytes_to_hex(&[0x00, 0x0f, 0xf0, 0xff]), "000ff0ff");
}

#[test]
fn empty_ignore_list() {
    let ignore_list = IgnoreList::new();
    assert!(ignore_list.is_empty())
}

#[test]
fn test_valid_patterns() {
    let patterns = vec!["**/.cache/**", "**/*.swp", "**/tmp_*"];
    let mut ignore_list = IgnoreList::new();
    for p in patterns {
        assert!(ignore_list.add_pattern(p.to_string()));
    }

    assert!(ignore_list.is_ignored(".cache"));

    assert!(ignore_list.is_ignored(".cache"));

    assert!(ignore_list.is_ignored("foo/.cache"));
    assert!(ignore_list.is_ignored("foo/bar/.cache"));

    println!("Testing: .cache/file1");
    assert!(ignore_list.is_ignored(".cache/file1"));
    assert!(ignore_list.is_ignored(".cache/d1/file1"));
}

#[test]
fn invalid_pattern_is_refused() {
    let mut ignore_list = IgnoreList::new();
    assert!(!ignore_list.add_pattern("[invalid-pattern".to_string()));
    assert_eq!(ignore_list.len(), 0);
    assert!(!ignore_list.is_ignored("anything"));
}

#[test]
fn unmatched_path_is_not_ignored() {
    let mut ignore_list = IgnoreList::new();
    assert!(ignore_list.add_pattern("**/*.swp".to_string()));
    assert!(ignore_list.is_ignored("dir/file.swp"));
    assert!(!ignore_list.is_ignored("dir/file.txt"));
}

#[test]
fn file_info_values() {
    let info = FileInfo { file_type: FileType::File, state: FileState::Created, version: 0 };
    assert_eq!(info.state, FileState::Created);
    assert_eq!(info.file_type, FileType::File);
}

#[test]
fn hex_pairs_decode_back() {
    let bytes = [0x00u8, 0xff, 0x1a, 0x90];
    let h = bytes_to_hex(&bytes);
    assert_eq!(h.len(), 2 * bytes.len());
    let back: Vec<u8> = (0..h.len() / 2).map(|i| u8::from_str_radix(&h[2 * i..2 * i + 2], 16).unwrap()).collect();
    assert_eq!(back, bytes.to_vec());
    assert_eq!(bytes_to_hex(&[]), "");
}
