//! The lines the control tool prints for an answer of the init system.

use vstd::prelude::*;
use crate::ctl_format::{format_uptime, uptime_text};
use crate::deps::str_views;
use crate::protocol::{Response, ServiceInfo, ServiceStatus, SystemStatus};
use crate::text::{concat2, concat3, decimal, i64_to_decimal, push_char, signed_decimal, u64_to_decimal};

verus! {

/// `k` spaces.
pub open spec fn spaces(k: nat) -> Seq<char> {
    Seq::new(k, |i: int| ' ')
}

/// `s` left-aligned in a field of `w` characters, as `{:<w}` writes it.
pub open spec fn pad_to(s: Seq<char>, w: int) -> Seq<char> {
    if s.len() < w {
        s + spaces((w - s.len()) as nat)
    } else {
        s
    }
}

/// The words joined by `, `.
pub open spec fn comma_join(ws: Seq<Seq<char>>) -> Seq<char>
    decreases ws.len(),
{
    if ws.len() == 0 {
        Seq::empty()
    } else if ws.len() == 1 {
        ws[0]
    } else {
        comma_join(ws.drop_last()) + ", "@ + ws.last()
    }
}

/// `yes` or `no`.
pub open spec fn yes_no(b: bool) -> Seq<char> {
    if b {
        "yes"@
    } else {
        "no"@
    }
}

/// The heading of a service listing.
pub open spec fn service_heading() -> Seq<char> {
    pad_to("NAME"@, 25) + " "@ + pad_to("ENABLED"@, 10) + " "@ + pad_to("ACTIVE"@, 10) + " "@ + pad_to("RESTART"@, 15)
        + " "@ + pad_to("RESTARTS"@, 10)
}

/// A line of a service listing.
pub open spec fn service_row(s: ServiceInfo) -> Seq<char> {
    pad_to(s.name@, 25) + " "@ + pad_to(if s.enabled { "enabled"@ } else { "disabled"@ }, 10) + " "@ + pad_to(
        if s.active {
            "active"@
        } else {
            "inactive"@
        },
        10,
    ) + " "@ + pad_to(s.restart_policy@, 15) + " "@ + pad_to(decimal(s.restart_count as nat), 10)
}

/// `lines` with `label` and the words joined by `, ` added, when there are
/// words.
pub open spec fn with_list(lines: Seq<Seq<char>>, label: Seq<char>, ws: Seq<Seq<char>>) -> Seq<Seq<char>> {
    if ws.len() > 0 {
        lines.push(label + comma_join(ws))
    } else {
        lines
    }
}

/// The first lines describing a service: its name, whether it is enabled
/// and active, and its process when it runs.
pub open spec fn status_top(st: ServiceStatus) -> Seq<Seq<char>> {
    let a = seq![
        "Service: "@ + st.name@,
        "  Enabled: "@ + yes_no(st.enabled),
        "  Status: "@ + (if st.active { "active (running)"@ } else { "inactive (dead)"@ }),
    ];
    match st.pid {
        Some(p) => a.push("  PID: "@ + signed_decimal(p as int)),
        None => a,
    }
}

/// Then its command and working directory.
pub open spec fn status_mid(st: ServiceStatus) -> Seq<Seq<char>> {
    let c = status_top(st).push("  Command: "@ + st.exec_start@);
    match st.working_directory {
        Some(w) => c.push("  Working Directory: "@ + w@),
        None => c,
    }
}

/// Then its restart settings and last exit code.
pub open spec fn status_core(st: ServiceStatus) -> Seq<Seq<char>> {
    let e = status_mid(st).push("  Restart Policy: "@ + st.restart_policy@).push(
        "  Restart Delay: "@ + decimal(st.restart_sec as nat) + "s"@,
    ).push("  Restart Count: "@ + decimal(st.restart_count as nat));
    match st.exit_status {
        Some(x) => e.push("  Last Exit Code: "@ + signed_decimal(x as int)),
        None => e,
    }
}

/// The lines describing one service: the above, then its declared
/// dependencies, each list when it is not empty.
pub open spec fn status_lines(st: ServiceStatus) -> Seq<Seq<char>> {
    let g = with_list(status_core(st), "  Before: "@, str_views(st.dependencies.before@));
    let h = with_list(g, "  After: "@, str_views(st.dependencies.after@));
    let i = with_list(h, "  Requires: "@, str_views(st.dependencies.requires@));
    with_list(i, "  Required By: "@, str_views(st.dependencies.required_by@))
}

/// The lines describing the whole system.
pub open spec fn system_lines(st: SystemStatus) -> Seq<Seq<char>> {
    seq![
        "System Status"@,
        "  Uptime: "@ + uptime_text(st.uptime_secs),
        "  Services: "@ + decimal(st.total_services as nat) + " total, "@ + decimal(st.enabled_services as nat)
            + " enabled, "@ + decimal(st.active_services as nat) + " active"@,
        "  Processes: "@ + decimal(st.total_processes as nat) + " total"@,
        "  Service Directory: "@ + st.service_dir@,
        "  Log Directory: "@ + st.log_dir@,
    ]
}

/// What the control tool prints for an answer; the process answers, whose
/// CPU shares are fractions, are not covered here.
pub open spec fn response_lines(r: Response) -> Seq<Seq<char>> {
    match r {
        Response::Success { message } => seq!["✓ "@ + message@],
        Response::Error { message } => seq!["✗ Error: "@ + message@],
        Response::ServiceList { services } => if services@.len() == 0 {
            seq!["No services found"@]
        } else {
            seq![service_heading(), Seq::new(75, |i: int| '-')] + services@.map_values(|s: ServiceInfo| service_row(s))
        },
        Response::ServiceStatus { status } => status_lines(status),
        Response::ServiceLogs { logs } => if logs@.len() == 0 {
            seq!["No logs available"@]
        } else {
            str_views(logs@)
        },
        Response::LogsStreamStarted { service, vsock_cid, vsock_port } => seq![
            "✓ Log streaming started for service '"@ + service@ + "' to CID:"@ + decimal(vsock_cid as nat) + " PORT:"@
                + decimal(vsock_port as nat),
        ],
        Response::ProcessStarted { pid, message } => seq![
            "✓ "@ + message@ + " (PID: "@ + signed_decimal(pid as int) + ")"@,
        ],
        Response::SystemStatus { status } => system_lines(status),
        Response::Pong => seq!["✓ Pong - init system is responsive"@],
        _ => Seq::empty(),
    }
}

fn push_line(v: &mut Vec<String>, s: String)
    ensures
        str_views(final(v)@) == str_views(old(v)@).push(s@),
{
    let ghost before = v@;
    let ghost t = s@;
    v.push(s);
    proof {
        assert(str_views(v@) =~= str_views(before).push(t));
    }
}

fn pad(s: &str, w: usize) -> (r: String)
    ensures
        r@ == pad_to(s@, w as int),
{
    broadcast use vstd::string::group_string_axioms;

    let mut r = s.to_string();
    let n = s.unicode_len();
    if n < w {
        let mut i: usize = n;
        while i < w
            invariant
                n <= i <= w,
                n == s@.len(),
                r@ == s@ + spaces((i - n) as nat),
            decreases w - i,
        {
            push_char(&mut r, ' ');
            proof {
                assert(s@ + spaces((i + 1 - n) as nat) =~= (s@ + spaces((i - n) as nat)).push(' '));
            }
            i = i + 1;
        }
    }
    r
}

fn join_comma(v: &Vec<String>) -> (r: String)
    ensures
        r@ == comma_join(str_views(v@)),
{
    let mut r = String::new();
    let mut i: usize = 0;
    while i < v.len()
        invariant
            i <= v@.len(),
            r@ == comma_join(str_views(v@).take(i as int)),
        decreases v@.len() - i,
    {
        proof {
            let ws = str_views(v@).take(i + 1);
            assert(ws.drop_last() =~= str_views(v@).take(i as int));
            assert(ws.last() == v@[i as int]@);
            if i == 0 {
                assert(ws[0] == v@[0]@);
            }
        }
        if i > 0 {
            r.append(", ");
        }
        r.append(v[i].as_str());
        i = i + 1;
    }
    proof {
        assert(str_views(v@).take(i as int) =~= str_views(v@));
    }
    r
}

fn add_list(lines: &mut Vec<String>, label: &str, ws: &Vec<String>)
    ensures
        str_views(final(lines)@) == with_list(str_views(old(lines)@), label@, str_views(ws@)),
{
    if ws.len() > 0 {
        push_line(lines, concat2(label, join_comma(ws).as_str()));
    }
}

fn service_line(s: &ServiceInfo) -> (r: String)
    ensures
        r@ == service_row(*s),
{
    let mut r = pad(s.name.as_str(), 25);
    r.append(" ");
    r.append(pad(if s.enabled { "enabled" } else { "disabled" }, 10).as_str());
    r.append(" ");
    r.append(pad(if s.active { "active" } else { "inactive" }, 10).as_str());
    r.append(" ");
    r.append(pad(s.restart_policy.as_str(), 15).as_str());
    r.append(" ");
    r.append(pad(u64_to_decimal(s.restart_count as u64).as_str(), 10).as_str());
    r
}

fn status_text(st: &ServiceStatus) -> (v: Vec<String>)
    ensures
        str_views(v@) == status_lines(*st),
{
    let mut v: Vec<String> = Vec::new();
    push_line(&mut v, concat2("Service: ", st.name.as_str()));
    push_line(&mut v, concat2("  Enabled: ", if st.enabled { "yes" } else { "no" }));
    push_line(&mut v, concat2("  Status: ", if st.active { "active (running)" } else { "inactive (dead)" }));
    match st.pid {
        Some(p) => push_line(&mut v, concat2("  PID: ", i64_to_decimal(p as i64).as_str())),
        None => {},
    }
    proof {
        assert(str_views(v@) =~= status_top(*st));
    }
    push_line(&mut v, concat2("  Command: ", st.exec_start.as_str()));
    match &st.working_directory {
        Some(w) => push_line(&mut v, concat2("  Working Directory: ", w.as_str())),
        None => {},
    }
    proof {
        assert(str_views(v@) =~= status_mid(*st));
    }
    push_line(&mut v, concat2("  Restart Policy: ", st.restart_policy.as_str()));
    push_line(&mut v, concat3("  Restart Delay: ", u64_to_decimal(st.restart_sec).as_str(), "s"));
    push_line(&mut v, concat2("  Restart Count: ", u64_to_decimal(st.restart_count as u64).as_str()));
    match st.exit_status {
        Some(x) => push_line(&mut v, concat2("  Last Exit Code: ", i64_to_decimal(x as i64).as_str())),
        None => {},
    }
    proof {
        assert(str_views(v@) =~= status_core(*st));
    }
    add_list(&mut v, "  Before: ", &st.dependencies.before);
    add_list(&mut v, "  After: ", &st.dependencies.after);
    add_list(&mut v, "  Requires: ", &st.dependencies.requires);
    add_list(&mut v, "  Required By: ", &st.dependencies.required_by);
    proof {
        assert(str_views(v@) =~= status_lines(*st));
    }
    v
}

fn system_text(st: &SystemStatus) -> (v: Vec<String>)
    ensures
        str_views(v@) == system_lines(*st),
{
    let mut v: Vec<String> = Vec::new();
    push_line(&mut v, "System Status".to_string());
    push_line(&mut v, concat2("  Uptime: ", format_uptime(st.uptime_secs).as_str()));
    let mut s = concat3("  Services: ", u64_to_decimal(st.total_services as u64).as_str(), " total, ");
    s.append(u64_to_decimal(st.enabled_services as u64).as_str());
    s.append(" enabled, ");
    s.append(u64_to_decimal(st.active_services as u64).as_str());
    s.append(" active");
    push_line(&mut v, s);
    push_line(&mut v, concat3("  Processes: ", u64_to_decimal(st.total_processes as u64).as_str(), " total"));
    push_line(&mut v, concat2("  Service Directory: ", st.service_dir.as_str()));
    push_line(&mut v, concat2("  Log Directory: ", st.log_dir.as_str()));
    proof {
        assert(str_views(v@) =~= system_lines(*st));
    }
    v
}

/// The lines the control tool prints for an answer; `None` for the process
/// answers, whose CPU shares are fractions that the caller writes.
pub fn render_response(r: &Response) -> (lines: Option<Vec<String>>)
    ensures
        (r is ProcessList || r is ProcessStatus) <==> lines is None,
        lines matches Some(v) ==> str_views(v@) == response_lines(*r),
{
    broadcast use vstd::string::group_string_axioms;

    let mut v: Vec<String> = Vec::new();
    match r {
        Response::Success { message } => push_line(&mut v, concat2("✓ ", message.as_str())),
        Response::Error { message } => push_line(&mut v, concat2("✗ Error: ", message.as_str())),
        Response::ServiceList { services } => {
            if services.len() == 0 {
                push_line(&mut v, "No services found".to_string());
            } else {
                let heading = {
                    let mut h = pad("NAME", 25);
                    h.append(" ");
                    h.append(pad("ENABLED", 10).as_str());
                    h.append(" ");
                    h.append(pad("ACTIVE", 10).as_str());
                    h.append(" ");
                    h.append(pad("RESTART", 15).as_str());
                    h.append(" ");
                    h.append(pad("RESTARTS", 10).as_str());
                    h
                };
                push_line(&mut v, heading);
                let mut dashes = String::new();
                let mut k: usize = 0;
                while k < 75
                    invariant
                        k <= 75,
                        dashes@ == Seq::new(k as nat, |i: int| '-'),
                    decreases 75 - k,
                {
                    push_char(&mut dashes, '-');
                    proof {
                        assert(dashes@ =~= Seq::new((k + 1) as nat, |i: int| '-'));
                    }
                    k = k + 1;
                }
                push_line(&mut v, dashes);
                let ghost head = str_views(v@);
                let mut i: usize = 0;
                while i < services.len()
                    invariant
                        i <= services@.len(),
                        str_views(v@) == head + services@.take(i as int).map_values(|s: ServiceInfo| service_row(s)),
                    decreases services@.len() - i,
                {
                    push_line(&mut v, service_line(&services[i]));
                    proof {
                        assert(services@.take(i + 1).map_values(|s: ServiceInfo| service_row(s)) =~= services@.take(
                            i as int,
                        ).map_values(|s: ServiceInfo| service_row(s)).push(service_row(services@[i as int])));
                    }
                    i = i + 1;
                }
                proof {
                    assert(services@.take(i as int) =~= services@);
                }
            }
        },
        Response::ServiceStatus { status } => {
            v = status_text(status);
        },
        Response::ServiceLogs { logs } => {
            if logs.len() == 0 {
                push_line(&mut v, "No logs available".to_string());
            } else {
                let mut i: usize = 0;
                while i < logs.len()
                    invariant
                        i <= logs@.len(),
                        str_views(v@) == str_views(logs@.take(i as int)),
                    decreases logs@.len() - i,
                {
                    push_line(&mut v, logs[i].clone());
                    proof {
                        assert(str_views(logs@.take(i + 1)) =~= str_views(logs@.take(i as int)).push(logs@[i as int]@));
                    }
                    i = i + 1;
                }
                proof {
                    assert(logs@.take(i as int) =~= logs@);
                }
            }
        },
        Response::LogsStreamStarted { service, vsock_cid, vsock_port } => {
            let mut s = concat3("✓ Log streaming started for service '", service.as_str(), "' to CID:");
            s.append(u64_to_decimal(*vsock_cid as u64).as_str());
            s.append(" PORT:");
            s.append(u64_to_decimal(*vsock_port as u64).as_str());
            push_line(&mut v, s);
        },
        Response::ProcessList { .. } => {
            return None;
        },
        Response::ProcessStatus { .. } => {
            return None;
        },
        Response::ProcessStarted { pid, message } => {
            let mut s = concat3("✓ ", message.as_str(), " (PID: ");
            s.append(i64_to_decimal(*pid as i64).as_str());
            s.append(")");
            push_line(&mut v, s);
        },
        Response::SystemStatus { status } => {
            v = system_text(status);
        },
        Response::Pong => push_line(&mut v, "✓ Pong - init system is responsive".to_string()),
    }
    proof {
        assert(str_views(v@) =~= response_lines(*r));
    }
    Some(v)
}

} // verus!
