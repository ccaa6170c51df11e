use enclave_tools::clock::{service_log_line, FormattedTime, Logger, NaiveDateTime};
use enclave_tools::control::{Plan, ServiceTable, StreamInfo};
use enclave_tools::ctl_format::{format_state, format_uptime};
use enclave_tools::init_config::{config_path, InitConfig};
use enclave_tools::ctl_render::render_response;
use enclave_tools::protocol::{Request, Response, ServiceDependencyInfo, ServiceInfo, ServiceStatus, SystemStatus};
use enclave_tools::replies::{
    disable_step, enable_step, process_started_reply, signal_sent_reply, start_reply, step_outcome, stop_reply,
    FileStep,
};
use enclave_tools::service_log::{log_files_oldest_first, rotation_plan, tail_lines, MemoryLog};
use enclave_tools::shell_words::split;
use enclave_tools::supervisor::{
    admit_service, classify_service_file, Admission, Launch, RestartPolicy, ServiceConfig, ServiceFile, ServiceState,
};

fn service(name: &str, command: &str) -> ServiceState {
    let mut config = ServiceConfig::default();
    config.exec_start = command.to_string();
    ServiceState::new(name.to_string(), config)
}

fn message(r: &Response) -> String {
    match r {
        Response::Success { message } => format!("ok:{}", message),
        Response::Error { message } => format!("err:{}", message),
        _ => "other".to_string(),
    }
}

#[test]
fn shell_split_words_quotes_and_escapes() {
    assert_eq!(split("a  b\tc").unwrap(), vec!["a", "b", "c"]);
    assert_eq!(split("echo \"hello world\"").unwrap(), vec!["echo", "hello world"]);
    assert_eq!(split("a\\ b c").unwrap(), vec!["a b", "c"]);
    assert_eq!(split("").unwrap(), Vec::<String>::new());
    assert_eq!(split("  ").unwrap(), Vec::<String>::new());
}

#[test]
fn shell_split_blank_and_joined_words() {
    assert_eq!(split(" \t \t").unwrap(), Vec::<String>::new());
    let ws = vec!["/usr/bin/server".to_string(), "--port=80".to_string(), "x".to_string()];
    assert_eq!(split(&ws.join(" ")).unwrap(), ws);
}

#[test]
fn launch_plan_adds_the_search_path() {
    let mut s = service("web", "/bin/web --port 80");
    s.config.environment.push("A=1".to_string());
    match s.launch_plan() {
        Launch::Exec { argv, envp } => {
            assert_eq!(argv, vec!["/bin/web", "--port", "80"]);
            assert_eq!(envp, vec!["A=1", "PATH=/sbin:/usr/sbin:/bin:/usr/bin"]);
        }
        _ => panic!("expected an exec plan"),
    }
    let empty = service("idle", "   ");
    assert!(matches!(empty.launch_plan(), Launch::EmptyCommand));
    let mut off = service("off", "/bin/x");
    off.enabled = false;
    assert!(matches!(off.launch_plan(), Launch::Disabled));
}

#[test]
fn restart_policies() {
    let mut s = service("svc", "/bin/svc");
    s.config.restart = RestartPolicy::OnFailure;
    assert!(s.should_restart(1));
    assert!(!s.should_restart(0));
    s.config.restart = RestartPolicy::OnSuccess;
    assert!(s.should_restart(0));
    s.config.restart = RestartPolicy::Always;
    s.manual_stop = true;
    assert!(!s.should_restart(0));
    assert!(s.can_restart_now(None));
    assert!(!s.can_restart_now(Some(4)));
    assert!(s.can_restart_now(Some(5)));
    assert_eq!(RestartPolicy::OnFailure.as_str(), "on-failure");
}

#[test]
fn service_files_are_sorted_by_name() {
    match classify_service_file("web.service") {
        ServiceFile::Service(name) => assert_eq!(name, "web"),
        _ => panic!("expected a service file"),
    }
    assert!(matches!(classify_service_file("web.service.disabled"), ServiceFile::Disabled));
    assert!(matches!(classify_service_file("notes.txt"), ServiceFile::Other));
    assert!(matches!(classify_service_file(".service"), ServiceFile::Other));
    assert!(matches!(classify_service_file("service"), ServiceFile::Other));
}

#[test]
fn requests_on_the_service_table() {
    let mut table = ServiceTable::new();
    table.insert(service("web", "/bin/web"));
    let streams: Vec<StreamInfo> = Vec::new();

    match table.handle_request(Request::Ping, &streams) {
        Plan::Reply(Response::Pong) => {}
        _ => panic!("expected pong"),
    }
    match table.handle_request(Request::ServiceStart { name: "web".to_string() }, &streams) {
        Plan::StartService { name } => assert_eq!(name, "web"),
        _ => panic!("expected a start"),
    }
    match table.handle_request(Request::ServiceStart { name: "db".to_string() }, &streams) {
        Plan::Reply(r) => assert_eq!(message(&r), "err:Service 'db' not found"),
        _ => panic!("expected an error"),
    }
    match table.handle_request(Request::ServiceStop { name: "web".to_string() }, &streams) {
        Plan::Reply(r) => assert_eq!(message(&r), "err:Service 'web' is not running"),
        _ => panic!("expected an error"),
    }
    table.record_launch(0, 42);
    assert_eq!(table.get(0).pid, Some(42));
    assert_eq!(table.get(0).restart_count, 1);
    match table.handle_request(Request::ServiceStart { name: "web".to_string() }, &streams) {
        Plan::Reply(r) => assert_eq!(message(&r), "err:Service 'web' is already running"),
        _ => panic!("expected an error"),
    }
    match table.handle_request(Request::ServiceStop { name: "web".to_string() }, &streams) {
        Plan::StopService { name, pid } => {
            assert_eq!(name, "web");
            assert_eq!(pid, 42);
        }
        _ => panic!("expected a stop"),
    }
    assert!(table.get(0).manual_stop);
    match table.handle_request(Request::ProcessKill { pid: 42, signal: 3 }, &streams) {
        Plan::Reply(r) => assert_eq!(message(&r), "err:Unsupported signal: 3"),
        _ => panic!("expected an error"),
    }
    match table.handle_request(Request::ProcessRestart { pid: 7 }, &streams) {
        Plan::Reply(r) => assert_eq!(message(&r), "err:Process 7 is not managed by init, cannot restart"),
        _ => panic!("expected an error"),
    }
    match table.handle_request(Request::ProcessRestart { pid: 42 }, &streams) {
        Plan::RestartService { name, running_pid } => {
            assert_eq!(name, "web");
            assert_eq!(running_pid, Some(42));
        }
        _ => panic!("expected a restart"),
    }
}

#[test]
fn busy_log_stream_is_refused() {
    let mut table = ServiceTable::new();
    table.insert(service("web", "/bin/web"));
    let streams = vec![StreamInfo { name: "web".to_string(), active: true, vsock_cid: 3, vsock_port: 9001 }];
    match table.handle_request(
        Request::ServiceLogsStream { name: "web".to_string(), vsock_cid: 3, vsock_port: 9002 },
        &streams,
    ) {
        Plan::Reply(r) => assert_eq!(
            message(&r),
            "err:Log streaming already active for service 'web' on CID:3 PORT:9001"
        ),
        _ => panic!("expected an error"),
    }
}

#[test]
fn exits_and_restarts() {
    let mut table = ServiceTable::new();
    let mut s = service("web", "/bin/web");
    s.config.restart = RestartPolicy::Always;
    table.insert(s);
    table.insert(service("db", "/bin/db"));
    table.record_launch(0, 10);
    assert_eq!(table.record_exit(11, 0), None);
    assert_eq!(table.record_exit(10, 1), Some(0));
    assert_eq!(table.get(0).pid, None);
    assert_eq!(table.get(0).exit_status, Some(1));
    assert_eq!(table.restart_candidates(&vec![Some(10), None]), vec![0]);
    assert_eq!(table.restart_candidates(&vec![Some(1), None]), Vec::<usize>::new());
    let status = table.system_status(100, 7, "/log".to_string(), "/service".to_string());
    assert_eq!(status.total_services, 2);
    assert_eq!(status.active_services, 0);
    assert_eq!(status.enabled_services, 2);
    assert_eq!(status.total_processes, 7);
}

#[test]
fn startup_order_follows_declarations_or_falls_back() {
    let mut table = ServiceTable::new();
    let mut web = service("web", "/bin/web");
    web.config.after.push("db".to_string());
    table.insert(web);
    table.insert(service("db", "/bin/db"));
    assert_eq!(table.startup_order(), vec!["db".to_string(), "web".to_string()]);

    let mut broken = ServiceTable::new();
    let mut app = service("app", "/bin/app");
    app.config.requires.push("missing".to_string());
    broken.insert(app);
    broken.insert(service("db", "/bin/db"));
    assert_eq!(broken.startup_order(), vec!["app".to_string(), "db".to_string()]);
}

#[test]
fn replies_name_the_outcome() {
    let name = "web".to_string();
    assert_eq!(message(&start_reply(&name, Ok(()))), "ok:Service 'web' started");
    assert_eq!(
        message(&stop_reply(&name, Err("EPERM".to_string()))),
        "err:Failed to stop service 'web': EPERM"
    );
    assert_eq!(message(&signal_sent_reply(12, 9, Ok(()))), "ok:Signal 9 sent to process 12");
    match process_started_reply(Ok(-5)) {
        Response::ProcessStarted { pid, message } => {
            assert_eq!(pid, -5);
            assert_eq!(message, "Process started with PID -5");
        }
        _ => panic!("expected a start"),
    }
    assert_eq!(enable_step(true, false), FileStep::Rename);
    assert_eq!(enable_step(false, true), FileStep::AlreadyDone);
    assert_eq!(disable_step(false, false), FileStep::NotFound);
    assert_eq!(step_outcome(FileStep::NotFound, None), Err("Service file not found".to_string()));
    assert_eq!(
        step_outcome(FileStep::Rename, Some("EACCES".to_string())),
        Err("Failed to rename service file: EACCES".to_string())
    );
}

#[test]
fn timestamps_are_rendered_in_utc() {
    let t = |secs: i64| NaiveDateTime::from_timestamp_opt(secs, 0).unwrap().format("%Y-%m-%d %H:%M:%S").to_string();
    assert_eq!(t(0), "1970-01-01 00:00:00");
    assert_eq!(t(86399), "1970-01-01 23:59:59");
    assert_eq!(t(951782400), "2000-02-29 00:00:00");
    assert_eq!(t(1700000000), "2023-11-14 22:13:20");
    assert_eq!(FormattedTime { timestamp: 1234567890 }.to_string(), "2009-02-13 23:31:30");
    assert_eq!(Logger::timestamp(0), "1970-01-01 00:00:00");
    assert_eq!(Logger::line("T", "INFO", "hi"), "[T] [INFO] hi");
    assert_eq!(service_log_line("T", "hi"), "[T] hi");
    Logger::init();
}

#[test]
fn uptime_and_states() {
    assert_eq!(format_uptime(59), "59s");
    assert_eq!(format_uptime(61), "1m 1s");
    assert_eq!(format_uptime(3661), "1h 1m 1s");
    assert_eq!(format_uptime(90061), "1d 1h 1m 1s");
    assert_eq!(format_uptime(86400), "1d 0h 0m 0s");
    assert_eq!(format_state("S"), "Sleeping");
    assert_eq!(format_state("x"), "Dead");
    assert_eq!(format_state("Q"), "Q");
}

#[test]
fn init_configuration_defaults() {
    let c = InitConfig::default();
    assert_eq!(c.service_dir, "/service");
    assert_eq!(c.max_log_size, 10 * 1024 * 1024);
    assert_eq!(c.nsm_driver_path, Some("nsm.ko".to_string()));
    assert_eq!(c.vsock.port, 9000);
    assert_eq!(config_path(None), "/etc/init.yaml");
    assert_eq!(config_path(Some("/x.yaml".to_string())), "/x.yaml");
}

#[test]
fn memory_log_keeps_the_last_lines() {
    let mut log = MemoryLog::new();
    for i in 0..150 {
        log.push(format!("line {}", i));
    }
    let tail = log.tail(1000);
    assert_eq!(tail.len(), 100);
    assert_eq!(tail[0], "line 50");
    assert_eq!(log.tail(2), vec!["line 148".to_string(), "line 149".to_string()]);
    let lines = vec!["a".to_string(), "b".to_string(), "c".to_string()];
    assert_eq!(tail_lines(&lines, 2), vec!["b".to_string(), "c".to_string()]);
}

#[test]
fn log_rotation_names() {
    let plan = rotation_plan("/log/web.log", 3);
    assert_eq!(
        plan,
        vec![
            ("/log/web.log.1".to_string(), "/log/web.log.2".to_string()),
            ("/log/web.log".to_string(), "/log/web.log.1".to_string()),
        ]
    );
    assert_eq!(
        log_files_oldest_first("/log/web.log", 3),
        vec!["/log/web.log.2".to_string(), "/log/web.log.1".to_string(), "/log/web.log".to_string()]
    );
}

#[test]
fn reload_stops_dropped_and_disabled_services() {
    let mut old = ServiceTable::new();
    old.insert(service("web", "/bin/web"));
    old.insert(service("db", "/bin/db"));
    old.insert(service("cache", "/bin/cache"));
    old.insert(service("idle", "/bin/idle"));
    old.record_launch(0, 10);
    old.record_launch(1, 11);
    old.record_launch(2, 12);
    let mut new = ServiceTable::new();
    new.insert(service("web", "/bin/web"));
    let mut db = service("db", "/bin/db");
    db.enabled = false;
    new.insert(db);
    new.insert(service("idle", "/bin/idle"));
    assert_eq!(
        old.stopped_by_reload(&new),
        vec![("db".to_string(), 11), ("cache".to_string(), 12)]
    );
}

#[test]
fn service_files_are_admitted_when_they_name_a_command() {
    match admit_service("web".to_string(), Err("bad toml".to_string())) {
        Admission::ParseFailed(n, e) => {
            assert_eq!(n, "web");
            assert_eq!(e, "bad toml");
        }
        other => panic!("unexpected {:?}", other),
    }
    match admit_service("idle".to_string(), Ok(ServiceConfig::default())) {
        Admission::NoCommand(n) => assert_eq!(n, "idle"),
        other => panic!("unexpected {:?}", other),
    }
    let mut c = ServiceConfig::default();
    c.exec_start = "/bin/web".to_string();
    c.service_enable = false;
    match admit_service("web".to_string(), Ok(c)) {
        Admission::Load(s) => {
            assert_eq!(s.name, "web");
            assert_eq!(s.config.exec_start, "/bin/web");
            assert!(!s.enabled);
            assert_eq!(s.pid, None);
            assert_eq!(s.restart_count, 0);
        }
        other => panic!("unexpected {:?}", other),
    }
}

#[test]
fn control_tool_lines() {
    let lines = |r: Response| render_response(&r).unwrap();
    assert_eq!(lines(Response::Success { message: "done".to_string() }), vec!["✓ done"]);
    assert_eq!(lines(Response::Error { message: "bad".to_string() }), vec!["✗ Error: bad"]);
    assert_eq!(lines(Response::Pong), vec!["✓ Pong - init system is responsive"]);
    assert_eq!(lines(Response::ServiceList { services: vec![] }), vec!["No services found"]);
    let list = lines(Response::ServiceList {
        services: vec![ServiceInfo {
            name: "web".to_string(),
            enabled: true,
            active: false,
            restart_policy: "always".to_string(),
            restart_count: 3,
        }],
    });
    assert_eq!(list.len(), 3);
    assert_eq!(list[0], format!("{:<25} {:<10} {:<10} {:<15} {:<10}", "NAME", "ENABLED", "ACTIVE", "RESTART", "RESTARTS"));
    assert_eq!(list[1], "-".repeat(75));
    assert_eq!(list[2], format!("{:<25} {:<10} {:<10} {:<15} {:<10}", "web", "enabled", "inactive", "always", 3));
    let status = lines(Response::ServiceStatus {
        status: ServiceStatus {
            name: "web".to_string(),
            enabled: true,
            active: true,
            pid: Some(42),
            restart_policy: "always".to_string(),
            restart_count: 1,
            restart_sec: 5,
            exit_status: None,
            exec_start: "/bin/web".to_string(),
            working_directory: None,
            dependencies: ServiceDependencyInfo {
                before: vec![],
                after: vec!["db".to_string(), "net".to_string()],
                requires: vec![],
                required_by: vec![],
            },
        },
    });
    assert_eq!(
        status,
        vec![
            "Service: web",
            "  Enabled: yes",
            "  Status: active (running)",
            "  PID: 42",
            "  Command: /bin/web",
            "  Restart Policy: always",
            "  Restart Delay: 5s",
            "  Restart Count: 1",
            "  After: db, net",
        ]
    );
    let sys = lines(Response::SystemStatus {
        status: SystemStatus {
            uptime_secs: 3661,
            total_services: 3,
            active_services: 1,
            enabled_services: 2,
            total_processes: 9,
            log_dir: "/log".to_string(),
            service_dir: "/svc".to_string(),
        },
    });
    assert_eq!(sys[1], "  Uptime: 1h 1m 1s");
    assert_eq!(sys[2], "  Services: 3 total, 2 enabled, 1 active");
    assert_eq!(
        lines(Response::ProcessStarted { pid: -1, message: "started".to_string() }),
        vec!["✓ started (PID: -1)"]
    );
    assert!(render_response(&Response::ProcessList { processes: vec![] }).is_none());
}
