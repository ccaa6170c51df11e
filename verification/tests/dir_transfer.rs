use enclave_tools::dir_transfer::{listing_check, source_dir_check, DirRecvAction, DirRecvInput, DirReceiver};
use enclave_tools::pipe_config::BUF_MAX_LEN_FILE_IO;
use enclave_tools::pipe_error::PipelineError;

/// Feeds the receiver what a sender writes for `files`, answering each read
/// from the stream; returns every action.
fn receive(dir: &str, files: &[(&str, Vec<u8>)]) -> Vec<DirRecvAction> {
    let mut stream: Vec<DirRecvInput> = Vec::new();
    for (rel, content) in files {
        stream.push(DirRecvInput::Number(rel.len() as u64));
        stream.push(DirRecvInput::Bytes(rel.as_bytes().to_vec()));
        stream.push(DirRecvInput::Number(content.len() as u64));
        for piece in content.chunks(BUF_MAX_LEN_FILE_IO) {
            stream.push(DirRecvInput::Bytes(piece.to_vec()));
        }
    }
    let (mut rx, first) = DirReceiver::new(dir.to_string(), files.len() as u64);
    let mut all = first;
    for input in stream {
        let acts = rx.step(input).unwrap();
        all.extend(acts);
    }
    assert!(rx.is_finished());
    all
}

#[test]
fn a_directory_arrives_whole() {
    let acts = receive("/dst", &[("a.txt", b"hello".to_vec()), ("sub/b.bin", Vec::new())]);
    assert_eq!(
        acts,
        vec![
            DirRecvAction::ReadNumber,
            DirRecvAction::ReadBytes(5),
            DirRecvAction::CreateParents("/dst/a.txt".to_string()),
            DirRecvAction::ReadNumber,
            DirRecvAction::CreateFile("/dst/a.txt".to_string()),
            DirRecvAction::ReadBytes(5),
            DirRecvAction::Write(b"hello".to_vec()),
            DirRecvAction::ReadNumber,
            DirRecvAction::ReadBytes(9),
            DirRecvAction::CreateParents("/dst/sub/b.bin".to_string()),
            DirRecvAction::ReadNumber,
            DirRecvAction::CreateFile("/dst/sub/b.bin".to_string()),
        ]
    );
}

#[test]
fn large_files_arrive_in_pieces() {
    let big = vec![7u8; BUF_MAX_LEN_FILE_IO + 10];
    let acts = receive("d/", &[("x", big.clone())]);
    let written: Vec<u8> = acts
        .iter()
        .flat_map(|a| match a {
            DirRecvAction::Write(b) => b.clone(),
            _ => Vec::new(),
        })
        .collect();
    assert_eq!(written, big);
    assert!(acts.contains(&DirRecvAction::ReadBytes(BUF_MAX_LEN_FILE_IO as u64)));
    assert!(acts.contains(&DirRecvAction::ReadBytes(10)));
    assert!(acts.contains(&DirRecvAction::CreateFile("d/x".to_string())));
}

#[test]
fn empty_listing() {
    let (rx, acts) = DirReceiver::new("/dst".to_string(), 0);
    assert!(rx.is_finished());
    assert!(acts.is_empty());
    assert_eq!(
        listing_check(0, "/enclave/data"),
        Err(PipelineError::DirectoryError {
            operation: "check".to_string(),
            path: "/enclave/data".to_string(),
            message: "Remote directory is empty or does not exist".to_string(),
        })
    );
    assert_eq!(listing_check(3, "/enclave/data"), Ok(()));
}

#[test]
fn path_that_is_not_utf8() {
    let (mut rx, _) = DirReceiver::new("/dst".to_string(), 1);
    rx.step(DirRecvInput::Number(2)).unwrap();
    let r = rx.step(DirRecvInput::Bytes(vec![0xc3, 0x28]));
    assert!(matches!(r, Err(PipelineError::Utf8Error(_))));
    let acts = rx.step(DirRecvInput::Bytes(b"ok".to_vec())).unwrap();
    assert_eq!(acts[0], DirRecvAction::CreateParents("/dst/ok".to_string()));
}

#[test]
fn absolute_relative_path_replaces_the_directory() {
    let acts = receive("/dst", &[("/etc/x", b"1".to_vec())]);
    assert!(acts.contains(&DirRecvAction::CreateFile("/etc/x".to_string())));
}

#[test]
fn source_directory_checks() {
    assert_eq!(source_dir_check(true, true, "/d", true), Ok(()));
    assert_eq!(
        source_dir_check(false, false, "/d", true),
        Err(PipelineError::DirectoryError {
            operation: "check existence".to_string(),
            path: "/d".to_string(),
            message: "Local directory does not exist".to_string(),
        })
    );
    assert_eq!(
        source_dir_check(true, false, "/d", false),
        Err(PipelineError::DirectoryError {
            operation: "check type".to_string(),
            path: "/d".to_string(),
            message: "Path is not a directory".to_string(),
        })
    );
}

#[test]
fn receiver_says_when_a_path_length_comes() {
    let (mut rx, _) = DirReceiver::new("/dst".to_string(), 1);
    assert!(rx.expects_path_len());
    rx.step(DirRecvInput::Number(1)).unwrap();
    assert!(!rx.expects_path_len());
}
