//! Messages exchanged between the init system and its control tool.

use vstd::prelude::*;

verus! {

/// Default path of the init system's control socket.
pub const SOCKET_PATH: &'static str = "/run/init.sock";

/// A request to the init system.
#[derive(Debug, Clone)]
pub enum Request {
    ListServices,
    ServiceStatus { name: String },
    ServiceStart { name: String },
    ServiceStop { name: String },
    ServiceRestart { name: String },
    ServiceEnable { name: String },
    ServiceDisable { name: String },
    ServiceLogs { name: String, lines: usize },
    ServiceLogsClear { name: String },
    /// Stream the service's log lines to a VSock listener.
    ServiceLogsStream { name: String, vsock_cid: u32, vsock_port: u32 },
    /// Stop streaming the service's log lines.
    ServiceLogsStreamStop { name: String },
    ProcessList,
    ProcessStatus { pid: i32 },
    ProcessStart { command: String, args: Vec<String>, env: Vec<String> },
    ProcessStop { pid: i32 },
    ProcessRestart { pid: i32 },
    ProcessKill { pid: i32, signal: i32 },
    SystemReload,
    SystemReboot,
    SystemShutdown,
    SystemStatus,
    Ping,
}

/// The init system's answer to a request.
#[derive(Debug, Clone)]
#[allow(inconsistent_fields)]
pub enum Response {
    Success { message: String },
    Error { message: String },
    ServiceList { services: Vec<ServiceInfo> },
    ServiceStatus { status: ServiceStatus },
    ServiceLogs { logs: Vec<String> },
    LogsStreamStarted { service: String, vsock_cid: u32, vsock_port: u32 },
    ProcessList { processes: Vec<ProcessInfo> },
    ProcessStatus { process: ProcessInfo },
    ProcessStarted { pid: i32, message: String },
    SystemStatus { status: SystemStatus },
    Pong,
}

/// One line of a service listing.
#[derive(Debug, Clone)]
pub struct ServiceInfo {
    pub name: String,
    pub enabled: bool,
    pub active: bool,
    pub restart_policy: String,
    pub restart_count: u32,
}

/// The full state of one service.
#[derive(Debug, Clone)]
pub struct ServiceStatus {
    pub name: String,
    pub enabled: bool,
    pub active: bool,
    pub pid: Option<i32>,
    pub restart_policy: String,
    pub restart_count: u32,
    pub restart_sec: u64,
    pub exit_status: Option<i32>,
    pub exec_start: String,
    pub working_directory: Option<String>,
    pub dependencies: ServiceDependencyInfo,
}

/// The dependency declarations of a service, as reported.
#[derive(Debug, Clone)]
pub struct ServiceDependencyInfo {
    pub before: Vec<String>,
    pub after: Vec<String>,
    pub requires: Vec<String>,
    pub required_by: Vec<String>,
}

/// One process of the system. The CPU share is carried as the bit pattern of
/// an `f32` (`f32::to_bits`), since only the reporting side computes with it.
#[derive(Debug, Clone)]
pub struct ProcessInfo {
    pub pid: i32,
    pub ppid: i32,
    pub name: String,
    pub cmdline: String,
    pub state: String,
    pub cpu_percent_bits: u32,
    pub memory_kb: u64,
    pub start_time: u64,
    /// The process is a service managed by init.
    pub managed: bool,
    pub service_name: Option<String>,
}

/// Counters describing the whole init system.
#[derive(Debug, Clone)]
pub struct SystemStatus {
    pub uptime_secs: u64,
    pub total_services: usize,
    pub active_services: usize,
    pub enabled_services: usize,
    pub total_processes: usize,
    pub log_dir: String,
    pub service_dir: String,
}

} // verus!
