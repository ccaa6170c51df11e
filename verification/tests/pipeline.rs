use enclave_tools::cli_args::{decode_text, CommandOutput, DirArgs, FileArgs, ListenArgs, RunArgs};
use enclave_tools::numparse::{parse_i32, parse_u32, parse_u64, IntErrorKind};
use enclave_tools::pipe_config::{default_config_paths, first_existing, AppConfig, BufferConfig, ConfigStore};
use enclave_tools::pipe_error::PipelineError;
use enclave_tools::wire::{
    connect_failure, decode_i32, decode_u64, encode_i32, encode_u64, io_progress, next_chunk, retry_delay_secs,
    wire_len, CmdId, IoStep,
};

#[test]
fn u64_frames_are_little_endian_with_a_trailing_zero() {
    assert_eq!(encode_u64(0x0102030405060708), vec![8, 7, 6, 5, 4, 3, 2, 1, 0]);
    assert_eq!(decode_u64(&encode_u64(u64::MAX)), u64::MAX);
    assert_eq!(decode_u64(&[1, 0, 0, 0, 0, 0, 0, 0, 0]), 1);
}

#[test]
fn i32_frames_are_twos_complement() {
    assert_eq!(encode_i32(-1), vec![0xff, 0xff, 0xff, 0xff]);
    assert_eq!(encode_i32(1), vec![1, 0, 0, 0]);
    assert_eq!(decode_i32(&encode_i32(-1_000_000)), -1_000_000);
}

#[test]
fn command_ids() {
    assert_eq!(CmdId::from_u64(0), Some(CmdId::RunCmd));
    assert_eq!(CmdId::from_u64(5), Some(CmdId::RecvDir));
    assert_eq!(CmdId::from_u64(6), None);
    assert_eq!(CmdId::SendFile.code(), 2);
    assert_eq!(CmdId::parse(9), Err(PipelineError::InvalidCommandId(9)));
    assert_eq!(PipelineError::InvalidCommandId(9).message(), "Invalid command ID: 9");
}

#[test]
fn chunks_of_a_transfer() {
    assert_eq!(next_chunk(0, 10, 4), 4);
    assert_eq!(next_chunk(8, 10, 4), 2);
    let mut done = 0u64;
    let mut pieces = 0;
    while done < 7340033 {
        done += next_chunk(done, 7340033, 7340032);
        pieces += 1;
    }
    assert_eq!(done, 7340033);
    assert_eq!(pieces, 2);
}

#[test]
fn send_and_receive_steps() {
    assert_eq!(io_progress(true, 0, 9, IoStep::Moved(4)), Ok(4));
    assert_eq!(io_progress(true, 4, 9, IoStep::Interrupted), Ok(4));
    assert_eq!(
        io_progress(true, 4, 9, IoStep::Failed("EPIPE".to_string())),
        Err(PipelineError::SendError { bytes: 9, message: "nix send error: EPIPE".to_string() })
    );
    assert_eq!(
        io_progress(false, 0, 9, IoStep::Failed("ECONNRESET".to_string())).unwrap_err().message(),
        "Receive error: failed to receive 9 bytes - nix recv error: ECONNRESET"
    );
    assert_eq!(retry_delay_secs(0), 1);
    assert_eq!(retry_delay_secs(9), 512);
    assert_eq!(connect_failure("refused").message(), "Connection error: Failed to connect: refused");
    assert_eq!(wire_len(12), Ok(12));
}

#[test]
fn integers_are_read_as_std_does() {
    assert_eq!(parse_u32("5000"), Ok(5000));
    assert_eq!(parse_u32("+7"), Ok(7));
    assert_eq!(parse_u32(""), Err(IntErrorKind::Empty));
    assert_eq!(parse_u32("-1"), Err(IntErrorKind::InvalidDigit));
    assert_eq!(parse_u32("+"), Err(IntErrorKind::InvalidDigit));
    assert_eq!(parse_u32("4294967296"), Err(IntErrorKind::PosOverflow));
    assert_eq!(parse_u32("4294967295"), Ok(u32::MAX));
    assert_eq!(parse_u64("18446744073709551615"), Ok(u64::MAX));
    assert_eq!(parse_i32("-2147483648"), Ok(i32::MIN));
    assert_eq!(parse_i32("-2147483649"), Err(IntErrorKind::NegOverflow));
    assert_eq!(parse_i32("12a"), Err(IntErrorKind::InvalidDigit));
    assert_eq!(IntErrorKind::PosOverflow.message(), "number too large to fit in target type");
}

#[test]
fn command_line_arguments() {
    assert_eq!(ListenArgs::new_with(Some("5005")).unwrap().port, 5005);
    assert_eq!(
        ListenArgs::new_with(None).unwrap_err(),
        PipelineError::ArgumentError("Could not find port argument".to_string())
    );
    assert_eq!(
        RunArgs::new_with(Some("x"), Some("1"), Some("ls"), false).unwrap_err(),
        PipelineError::ParseError {
            field: "cid".to_string(),
            message: "'x' is not a valid number: invalid digit found in string".to_string()
        }
    );
    let run = RunArgs::new_with(Some("3"), Some("5000"), Some("ls -l"), true).unwrap();
    assert_eq!((run.cid, run.port, run.command.as_str(), run.no_wait), (3, 5000, "ls -l", true));
    assert_eq!(
        FileArgs::new_with(Some("3"), Some("5000"), Some("a"), None).unwrap_err(),
        PipelineError::ArgumentError("Could not find remotepath argument".to_string())
    );
    let dir = DirArgs::new_with(Some("3"), Some("1"), Some("l"), Some("r")).unwrap();
    assert_eq!((dir.localdir.as_str(), dir.remotedir.as_str()), ("l", "r"));
}

#[test]
fn command_output_and_received_text() {
    let out = CommandOutput::new_from(b"hi\n".to_vec(), Vec::new(), Some(0)).unwrap();
    assert_eq!(out.stdout, "hi\n");
    assert_eq!(out.rc, Some(0));
    assert!(matches!(CommandOutput::new_from(vec![0xff], Vec::new(), None), Err(PipelineError::Utf8Error(_))));
    let o = CommandOutput::new(String::new(), "e".to_string(), 1);
    assert_eq!(o.rc, Some(1));
    assert_eq!(decode_text(b"ls -la garbage", 5).unwrap(), "ls -l");
    assert!(decode_text(&[0xc3, 0x28], 2).is_err());
}

#[test]
fn configuration_store() {
    let mut store = ConfigStore::new(AppConfig::default());
    assert_eq!(store.get_config().port, 5000);
    assert_eq!(store.buf_max_len_file_io(), 7340032);
    assert_eq!(store.backlog(), 128);
    let mut custom = AppConfig::default();
    custom.cid = 16;
    custom.buffers = BufferConfig { backlog: 4, ..BufferConfig::default() };
    store.set_runtime_config(custom);
    assert_eq!(store.get_config().cid, 16);
    assert_eq!(store.backlog(), 4);
    assert_eq!(store.max_connection_attempts(), 10);
    assert_eq!(store.init_config(Err("bad".to_string())), Err("bad".to_string()));
    assert_eq!(store.get_config().cid, 16);
    let mut from_file = AppConfig::default();
    from_file.cid = 7;
    assert_eq!(store.init_config(Ok(from_file)).unwrap().cid, 7);
    assert_eq!(store.get_config().cid, 7);
    store.set_runtime_config(custom);
    assert_eq!(store.get_config().cid, 16);
    let paths = default_config_paths("pipeline");
    assert_eq!(paths[0], "./.config/pipeline.config.yaml");
    assert_eq!(paths[3], "/etc/pipeline/config.yml");
    assert_eq!(first_existing(&vec![false, true, true]), Some(1));
    assert_eq!(first_existing(&vec![false]), None);
}

#[test]
fn error_messages() {
    let e = PipelineError::FileError {
        operation: "open".to_string(),
        path: "/x".to_string(),
        message: "denied".to_string(),
    };
    assert_eq!(e.message(), "File error: open failed for '/x' - denied");
    assert_eq!(
        PipelineError::ParseError { field: "port".to_string(), message: "m".to_string() }.message(),
        "Parse error: port - m"
    );
}
