use enclave_tools::fs_tracker::{content_digest, sort_paths, FsAction, FsError, FsEventKind, FsState};
use enclave_tools::fs_watch::{bytes_to_hex, FileState, IgnoreList};

fn ignores() -> IgnoreList {
    let mut l = IgnoreList::new();
    for p in ["**/.cache/**", "**/*.swp", "**/tmp_*"] {
        assert!(l.add_pattern(p.to_string()));
    }
    l
}

fn paths(ps: &[&str]) -> Vec<String> {
    ps.iter().map(|p| p.to_string()).collect()
}

/// Creates `p`, closes it after writing and hands back `content`'s digest.
fn save(st: &mut FsState, ign: &IgnoreList, p: &str, content: &[u8]) -> Vec<u8> {
    st.handle_event(FsEventKind::CreateFile, &paths(&[p]), ign, false);
    let acts = st.handle_event(FsEventKind::CloseWrite, &paths(&[p]), ign, false);
    assert_eq!(acts, vec![FsAction::Hash(p.to_string())]);
    assert!(st.is_pending(p));
    let d = content_digest(content);
    let acts = st.digest_ready(p.to_string(), Some(d.clone()));
    assert_eq!(acts, vec![FsAction::KvPut(p.to_string(), d.clone())]);
    assert!(!st.is_pending(p));
    d
}

#[test]
fn digest_is_sha3_512() {
    let d = content_digest(b"");
    assert_eq!(
        bytes_to_hex(&d),
        "a69f73cca23a9ac5c8b567dc185a756e97c982164fe25859e0d1dcc1475c80a615b2123af1f5f94c11e3e9402c3ac558f500199d95b6d3e301758586281dcd26"
    );
    let d = content_digest(b"abc");
    assert_eq!(d.len(), 64);
    assert_eq!(&bytes_to_hex(&d)[..16], "b751850b1a57168a");
}

#[test]
fn file_modification_serves_the_latest_digest() {
    let ign = ignores();
    let mut st = FsState::new();
    let d1 = save(&mut st, &ign, "/w/test_1.txt", b"SOME DATA");
    assert_eq!(st.file_digest("/w/test_1.txt"), Ok(d1.clone()));
    st.handle_event(FsEventKind::ModifyData, &paths(&["/w/test_1.txt"]), &ign, false);
    assert_eq!(st.info("/w/test_1.txt").unwrap().state, FileState::Modified);
    assert_eq!(
        st.file_digest("/w/test_1.txt"),
        Err(FsError::Other("File /w/test_1.txt is yet to be closed".to_string()))
    );
    let acts = st.handle_event(FsEventKind::CloseWrite, &paths(&["/w/test_1.txt"]), &ign, false);
    assert_eq!(acts, vec![FsAction::Hash("/w/test_1.txt".to_string())]);
    assert_eq!(st.info("/w/test_1.txt").unwrap().version, 2);
    assert_eq!(
        st.file_digest("/w/test_1.txt"),
        Err(FsError::Other("Hashing for /w/test_1.txt is yet to complete".to_string()))
    );
    let d2 = content_digest(b"SOME DATA MORE DATA");
    st.digest_ready("/w/test_1.txt".to_string(), Some(d2.clone()));
    assert_ne!(d1, d2);
    assert_eq!(st.file_digest("/w/test_1.txt"), Ok(d2.clone()));
    assert_eq!(st.file_digest_hex("/w/test_1.txt"), Ok(bytes_to_hex(&d2)));
}

#[test]
fn file_deletion_forgets_the_file() {
    let ign = ignores();
    let mut st = FsState::new();
    save(&mut st, &ign, "/w/a.txt", b"SOME DATA");
    let acts = st.handle_event(FsEventKind::RemoveFile, &paths(&["/w/a.txt"]), &ign, false);
    assert_eq!(acts, vec![FsAction::KvDelete("/w/a.txt".to_string())]);
    assert!(st.info("/w/a.txt").is_none());
    assert_eq!(
        st.file_digest("/w/a.txt"),
        Err(FsError::NotFound("File /w/a.txt is not tracked".to_string()))
    );
}

#[test]
fn file_without_digest_yet() {
    let ign = ignores();
    let mut st = FsState::new();
    st.handle_event(FsEventKind::CreateFile, &paths(&["/w/e.txt"]), &ign, false);
    assert_eq!(
        st.file_digest("/w/e.txt"),
        Err(FsError::Other("File /w/e.txt is yet to be closed".to_string()))
    );
    st.handle_event(FsEventKind::CloseWrite, &paths(&["/w/e.txt"]), &ign, false);
    st.digest_ready("/w/e.txt".to_string(), None);
    assert_eq!(
        st.file_digest("/w/e.txt"),
        Err(FsError::NotFound("No hashes recorded for /w/e.txt".to_string()))
    );
}

#[test]
fn file_rename_keeps_the_digest() {
    let ign = ignores();
    let mut st = FsState::new();
    let d = save(&mut st, &ign, "/w/old.txt", b"SOME DATA");
    let acts = st.handle_event(
        FsEventKind::RenameBoth,
        &paths(&["/w/old.txt", "/w/new.txt"]),
        &ign,
        false,
    );
    assert_eq!(
        acts,
        vec![
            FsAction::KvDelete("/w/old.txt".to_string()),
            FsAction::KvPut("/w/new.txt".to_string(), d.clone()),
        ]
    );
    assert_eq!(st.file_digest("/w/new.txt"), Ok(d));
    assert!(matches!(st.file_digest("/w/old.txt"), Err(FsError::NotFound(_))));
}

#[test]
fn file_rename_to_ignored_deletes_it() {
    let ign = ignores();
    let mut st = FsState::new();
    save(&mut st, &ign, "/w/x.txt", b"SOME DATA");
    let acts = st.handle_event(
        FsEventKind::RenameBoth,
        &paths(&["/w/x.txt", "/w/tmp_x.txt"]),
        &ign,
        false,
    );
    assert_eq!(acts, vec![FsAction::KvDelete("/w/x.txt".to_string())]);
    assert!(st.info("/w/x.txt").is_none());
    assert!(st.info("/w/tmp_x.txt").is_none());
}

#[test]
fn file_rename_from_ignored_starts_its_digest() {
    let ign = ignores();
    let mut st = FsState::new();
    let acts = st.handle_event(
        FsEventKind::RenameBoth,
        &paths(&["/w/tmp_y.txt", "/w/y.txt"]),
        &ign,
        false,
    );
    assert_eq!(acts, vec![FsAction::Hash("/w/y.txt".to_string())]);
    assert!(st.is_pending("/w/y.txt"));
    let d = content_digest(b"SOME DATA");
    st.digest_ready("/w/y.txt".to_string(), Some(d.clone()));
    assert_eq!(st.file_digest("/w/y.txt"), Ok(d));
}

#[test]
fn events_on_ignored_paths_change_nothing() {
    let ign = ignores();
    let mut st = FsState::new();
    let acts = st.handle_event(FsEventKind::CreateFile, &paths(&["/w/.cache/f"]), &ign, false);
    assert!(acts.is_empty());
    assert!(st.info("/w/.cache/f").is_none());
    let acts = st.handle_event(FsEventKind::CloseWrite, &paths(&["/w/a.swp"]), &ign, false);
    assert!(acts.is_empty());
    let acts = st.handle_event(FsEventKind::RemoveFile, &Vec::new(), &ign, false);
    assert!(acts.is_empty());
}

#[test]
fn directory_deletion_forgets_everything_under_it() {
    let ign = ignores();
    let mut st = FsState::new();
    save(&mut st, &ign, "/w/d/a", b"1");
    save(&mut st, &ign, "/w/d/b", b"2");
    save(&mut st, &ign, "/w/e", b"3");
    let mut acts = st.handle_event(FsEventKind::RemoveFolder, &paths(&["/w/d"]), &ign, true);
    acts.sort_by(|a, b| format!("{:?}", a).cmp(&format!("{:?}", b)));
    assert_eq!(
        acts,
        vec![FsAction::KvDelete("/w/d/a".to_string()), FsAction::KvDelete("/w/d/b".to_string())]
    );
    assert!(st.info("/w/d/a").is_none());
    assert!(st.info("/w/d/b").is_none());
    assert!(st.info("/w/e").is_some());
}

#[test]
fn directory_rename_moves_files_and_digests() {
    let ign = ignores();
    let mut st = FsState::new();
    let da = save(&mut st, &ign, "/w/d/a", b"1");
    st.handle_event(FsEventKind::RenameBoth, &paths(&["/w/d", "/w/renamed_dir_1"]), &ign, true);
    assert!(st.info("/w/d/a").is_none());
    assert_eq!(st.file_digest("/w/renamed_dir_1/a"), Ok(da));
}

#[test]
fn directory_moved_in_is_walked() {
    let ign = ignores();
    let mut st = FsState::new();
    let acts = st.handle_event(FsEventKind::RenameTo, &paths(&["/w/moved_dir_1"]), &ign, true);
    assert_eq!(acts, vec![FsAction::WalkDirectory("/w/moved_dir_1".to_string())]);
    let found = paths(&["/w/moved_dir_1/f1", "/w/moved_dir_1/sub/f2"]);
    let acts = st.track_walked(&found);
    assert_eq!(
        acts,
        vec![
            FsAction::Hash("/w/moved_dir_1/f1".to_string()),
            FsAction::Hash("/w/moved_dir_1/sub/f2".to_string()),
        ]
    );
    assert!(st.is_pending("/w/moved_dir_1/f1"));
    assert_eq!(st.info("/w/moved_dir_1/sub/f2").unwrap().state, FileState::Closed);
}

#[test]
fn directory_moved_out_is_forgotten() {
    let ign = ignores();
    let mut st = FsState::new();
    save(&mut st, &ign, "/w/d/a", b"1");
    let acts = st.handle_event(FsEventKind::RenameFrom, &paths(&["/w/d"]), &ign, true);
    assert_eq!(acts, vec![FsAction::KvDelete("/w/d/a".to_string())]);
    assert!(st.info("/w/d/a").is_none());
}

#[test]
fn directory_digest_over_sorted_files() {
    let ign = ignores();
    let mut st = FsState::new();
    let db = save(&mut st, &ign, "/w/d/b", b"2");
    let da = save(&mut st, &ign, "/w/d/a", b"1");
    let walked = paths(&["/w/d/b", "/w/d/unknown", "/w/d/a"]);
    let mut all = da.clone();
    all.extend_from_slice(&db);
    let expected = bytes_to_hex(&content_digest(&all));
    assert_eq!(st.directory_digest(&walked), Ok(expected));
}

#[test]
fn directory_digest_reports_the_first_failure() {
    let ign = ignores();
    let mut st = FsState::new();
    save(&mut st, &ign, "/w/d/b", b"2");
    st.handle_event(FsEventKind::CreateFile, &paths(&["/w/d/a"]), &ign, false);
    let walked = paths(&["/w/d/b", "/w/d/a"]);
    assert_eq!(
        st.directory_digest(&walked),
        Err(FsError::Other("File /w/d/a is yet to be closed".to_string()))
    );
}

#[test]
fn sorting_paths() {
    let v = paths(&["b", "a/c", "a", "B"]);
    assert_eq!(sort_paths(v), paths(&["B", "a", "a/c", "b"]));
}
