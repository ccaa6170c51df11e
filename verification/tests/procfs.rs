use enclave_tools::procfs::{
    command_line, enabled_cgroups, managing_service, parse_stat, process_info, sort_by_pid, split_words, tidy_command_line,
    vm_rss_kb, StatLine,
};
use enclave_tools::protocol::ProcessInfo;

const BASH_STAT: &str =
    "1234 (bash) S 1 1234 1234 34816 1234 4194560 1234 0 0 0 10 5 0 0 20 0 1 0 98765 1000 200\n";

#[test]
fn stat_fields_of_a_shell() {
    let l = parse_stat(BASH_STAT).unwrap();
    assert_eq!(
        l,
        StatLine {
            name: "bash".to_string(),
            state: "S".to_string(),
            ppid: 1,
            total_time: 15,
            start_time: 98765,
        }
    );
}

#[test]
fn stat_name_runs_to_the_last_parenthesis() {
    let l = parse_stat("42 (a) b) R 7").unwrap();
    assert_eq!(l.name, "a) b");
    assert_eq!(l.state, "R");
    assert_eq!(l.ppid, 7);
    assert_eq!(l.total_time, 0);
    assert_eq!(l.start_time, 0);
}

#[test]
fn stat_with_missing_or_bad_fields() {
    let l = parse_stat("9 (x) ").unwrap();
    assert_eq!(l.state, "?");
    assert_eq!(l.ppid, 0);
    let l = parse_stat("9 (x) Z -3").unwrap();
    assert_eq!(l.ppid, -3);
    let l = parse_stat("9 (x) Z abc").unwrap();
    assert_eq!(l.ppid, 0);
    let l = parse_stat("9 x) Z 2").unwrap();
    assert_eq!(l.name, " x");
    let l = parse_stat(") Z 2").unwrap();
    assert_eq!(l.name, "unknown");
    let l = parse_stat("5 )x( Z 2").unwrap();
    assert_eq!(l.name, "unknown");
}

#[test]
fn unreadable_stat_lines() {
    assert!(parse_stat("").is_none());
    assert!(parse_stat("12 (no closing").is_none());
    assert!(parse_stat("12 (x)").is_none());
    assert!(parse_stat("12 (x)\u{e9} S").is_none());
    let huge = "1 (x) S 0 0 0 0 0 0 0 0 0 0 18446744073709551615 1 0";
    assert!(parse_stat(huge).is_none());
}

#[test]
fn words_split_at_unicode_white_space() {
    assert_eq!(split_words("  a\tb\u{a0}c\u{3000}d  "), vec!["a", "b", "c", "d"]);
    assert!(split_words(" \n\t").is_empty());
}

#[test]
fn resident_memory() {
    assert_eq!(vm_rss_kb("Name:\tbash\nVmPeak:\t 9 kB\nVmRSS:\t    2048 kB\n"), 2048);
    assert_eq!(vm_rss_kb("VmRSS:\nVmRSS: 12 kB\n"), 12);
    assert_eq!(vm_rss_kb("VmRSS: lots kB\nVmRSS: 12 kB\n"), 0);
    assert_eq!(vm_rss_kb(" VmRSS: 12 kB\n"), 0);
    assert_eq!(vm_rss_kb(""), 0);
}

#[test]
fn command_lines() {
    assert_eq!(command_line(b"/bin/sh\0-c\0echo hi\0"), "/bin/sh -c echo hi");
    assert_eq!(command_line(b""), "");
    assert_eq!(command_line(&[0xff, b'a', 0]), "\u{fffd}a");
    assert_eq!(tidy_command_line("\0\0x\0 "), "x");
}

fn stat(name: &str) -> StatLine {
    StatLine { name: name.to_string(), state: "S".to_string(), ppid: 1, total_time: 3, start_time: 40 }
}

#[test]
fn process_records() {
    let pids = vec![("web".to_string(), 20), ("db".to_string(), 30), ("dup".to_string(), 30)];
    assert_eq!(managing_service(&pids, 30), Some("db".to_string()));
    assert_eq!(managing_service(&pids, 5), None);

    let p = process_info(30, stat("postgres"), "postgres -D /data".to_string(), 512, 7, &pids);
    assert_eq!(p.pid, 30);
    assert_eq!(p.ppid, 1);
    assert_eq!(p.name, "postgres");
    assert_eq!(p.cmdline, "postgres -D /data");
    assert_eq!(p.state, "S");
    assert_eq!(p.cpu_percent_bits, 7);
    assert_eq!(p.memory_kb, 512);
    assert_eq!(p.start_time, 40);
    assert!(p.managed);
    assert_eq!(p.service_name, Some("db".to_string()));

    let k = process_info(2, stat("kthreadd"), String::new(), 0, 0, &pids);
    assert_eq!(k.cmdline, "[kthreadd]");
    assert!(!k.managed);
    assert_eq!(k.service_name, None);
}

#[test]
fn processes_sorted_by_pid() {
    let pids: Vec<(String, i32)> = Vec::new();
    let mk = |pid: i32| -> ProcessInfo { process_info(pid, stat("p"), String::new(), 0, 0, &pids) };
    let sorted = sort_by_pid(vec![mk(30), mk(1), mk(200), mk(7)]);
    let order: Vec<i32> = sorted.iter().map(|p| p.pid).collect();
    assert_eq!(order, vec![1, 7, 30, 200]);
}

#[test]
fn cgroup_controllers_to_mount() {
    let table = "#subsys_name\thierarchy\tnum_cgroups\tenabled\ncpuset\t0\t1\t1\ncpu\t0\t1\t0\nmemory\t0\t1\t1\nbroken line\npids 0 1 x\n";
    assert_eq!(enabled_cgroups(table), vec!["cpuset", "memory"]);
    assert!(enabled_cgroups("").is_empty());
    assert!(enabled_cgroups("cpuset 0 1 1\n").is_empty());
}
