//! The init system's own configuration and its defaults.

use vstd::prelude::*;

verus! {

/// Where the configuration is read from when `INIT_CONFIG` is not set.
pub const DEFAULT_CONFIG_PATH: &'static str = "/etc/init.yaml";

/// The heartbeat sent to the host over VSock.
#[derive(Debug, Clone)]
pub struct VsockConfig {
    /// Send the heartbeat.
    pub enabled: bool,
    pub cid: u32,
    pub port: u32,
}

impl Default for VsockConfig {
    fn default() -> (c: Self)
        ensures
            c.enabled,
            c.cid == 3,
            c.port == 9000,
    {
        VsockConfig { enabled: true, cid: 3, port: 9000 }
    }
}

/// The init system's configuration. `environment` lists the variables that
/// the init system sets for itself, as (name, value) pairs.
#[derive(Debug, Clone)]
pub struct InitConfig {
    pub service_dir: String,
    pub log_dir: String,
    pub socket_path: String,
    /// Size in bytes past which a service log is rotated.
    pub max_log_size: u64,
    /// Number of log files kept per service.
    pub max_log_files: usize,
    pub environment: Vec<(String, String)>,
    pub vsock: VsockConfig,
    pub nsm_driver_path: Option<String>,
    /// Move the root file system to `pivot_root_dir` at start-up.
    pub pivot_root: bool,
    pub pivot_root_dir: String,
}

impl Default for InitConfig {
    fn default() -> (c: Self)
        ensures
            c.service_dir@ == "/service"@,
            c.log_dir@ == "/log"@,
            c.socket_path@ == "/run/init.sock"@,
            c.max_log_size == 10 * 1024 * 1024,
            c.max_log_files == 5,
            c.environment@.len() == 0,
            c.vsock.enabled && c.vsock.cid == 3 && c.vsock.port == 9000,
            c.nsm_driver_path matches Some(p) && p@ == "nsm.ko"@,
            c.pivot_root,
            c.pivot_root_dir@ == "/rootfs"@,
    {
        broadcast use vstd::string::group_string_axioms;

        InitConfig {
            service_dir: "/service".to_string(),
            log_dir: "/log".to_string(),
            socket_path: "/run/init.sock".to_string(),
            max_log_size: 10 * 1024 * 1024,
            max_log_files: 5,
            environment: Vec::new(),
            vsock: VsockConfig::default(),
            nsm_driver_path: Some("nsm.ko".to_string()),
            pivot_root: true,
            pivot_root_dir: "/rootfs".to_string(),
        }
    }
}

/// The configuration file to read: the value of `INIT_CONFIG` when it is
/// set, the default path otherwise.
pub fn config_path(from_env: Option<String>) -> (p: String)
    ensures
        match from_env {
            Some(v) => p == v,
            None => p@ == DEFAULT_CONFIG_PATH@,
        },
{
    broadcast use vstd::string::group_string_axioms;

    match from_env {
        Some(v) => v,
        None => DEFAULT_CONFIG_PATH.to_string(),
    }
}

} // verus!
