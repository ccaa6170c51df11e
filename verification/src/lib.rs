//! Verified core logic of the enclave tooling: service start-up ordering,
//! init-system decisions, wire framing, path handling and configuration.

pub mod text;
pub mod deps;
pub mod protocol;
pub mod supervisor;
pub mod control;
pub mod shell_words;
pub mod replies;
pub mod init_config;
pub mod fs_watch;
pub mod clock;
pub mod pipe_error;
pub mod wire;
pub mod pipe_config;
pub mod numparse;
pub mod cli_args;
pub mod textscan;
pub mod engine;
pub mod engine_cmds;
pub mod proxy;
pub mod fingerprint;
pub mod ctl_format;
pub mod ctl_render;
pub mod service_log;
pub mod fs_tracker;
pub mod procfs;
pub mod dir_transfer;
pub mod key_exchange;
