//! The answers to control requests once their outside work is done: each
//! takes the outcome of that work (an error as its message) and gives the
//! `Response` the control tool receives.

use vstd::prelude::*;
use crate::control::service_msg;
use crate::protocol::{ProcessInfo, Response};
use crate::text::{concat2, concat3, i64_to_decimal, signed_decimal};

verus! {

/// `r` answers an outcome: `Success` with `done`, or `Error` with `failed`
/// followed by the error's message.
pub open spec fn answers(r: Response, outcome: Result<(), String>, done: Seq<char>, failed: Seq<char>) -> bool {
    match outcome {
        Ok(()) => r matches Response::Success { message } && message@ == done,
        Err(e) => r matches Response::Error { message } && message@ == failed + e@,
    }
}

fn outcome_reply(outcome: Result<(), String>, done: String, failed: String) -> (r: Response)
    ensures
        answers(r, outcome, done@, failed@),
{
    match outcome {
        Ok(()) => Response::Success { message: done },
        Err(e) => Response::Error { message: concat2(failed.as_str(), e.as_str()) },
    }
}

/// The answer to starting a service.
pub fn start_reply(name: &String, outcome: Result<(), String>) -> (r: Response)
    ensures
        answers(r, outcome, service_msg(name@, "' started"@), "Failed to start service '"@ + name@ + "': "@),
{
    outcome_reply(
        outcome,
        concat3("Service '", name.as_str(), "' started"),
        concat3("Failed to start service '", name.as_str(), "': "),
    )
}

/// The answer to stopping a service.
pub fn stop_reply(name: &String, outcome: Result<(), String>) -> (r: Response)
    ensures
        answers(r, outcome, service_msg(name@, "' stop signal sent"@), "Failed to stop service '"@ + name@ + "': "@),
{
    outcome_reply(
        outcome,
        concat3("Service '", name.as_str(), "' stop signal sent"),
        concat3("Failed to stop service '", name.as_str(), "': "),
    )
}

/// The answer to restarting a service.
pub fn restart_reply(name: &String, outcome: Result<(), String>) -> (r: Response)
    ensures
        answers(r, outcome, service_msg(name@, "' restarted"@), "Failed to restart service '"@ + name@ + "': "@),
{
    outcome_reply(
        outcome,
        concat3("Service '", name.as_str(), "' restarted"),
        concat3("Failed to restart service '", name.as_str(), "': "),
    )
}

/// The answer to enabling a service.
pub fn enable_reply(name: &String, outcome: Result<(), String>) -> (r: Response)
    ensures
        answers(r, outcome, service_msg(name@, "' enabled"@), "Failed to enable service '"@ + name@ + "': "@),
{
    outcome_reply(
        outcome,
        concat3("Service '", name.as_str(), "' enabled"),
        concat3("Failed to enable service '", name.as_str(), "': "),
    )
}

/// The answer to disabling a service.
pub fn disable_reply(name: &String, outcome: Result<(), String>) -> (r: Response)
    ensures
        answers(r, outcome, service_msg(name@, "' disabled"@), "Failed to disable service '"@ + name@ + "': "@),
{
    outcome_reply(
        outcome,
        concat3("Service '", name.as_str(), "' disabled"),
        concat3("Failed to disable service '", name.as_str(), "': "),
    )
}

/// The answer to clearing a service's logs.
pub fn clear_logs_reply(name: &String, outcome: Result<(), String>) -> (r: Response)
    ensures
        answers(r, outcome, "Logs cleared for service '"@ + name@ + "'"@, "Failed to clear logs: "@),
{
    outcome_reply(
        outcome,
        concat3("Logs cleared for service '", name.as_str(), "'"),
        "Failed to clear logs: ".to_string(),
    )
}

/// The answer to starting a log stream.
pub fn stream_started_reply(name: String, vsock_cid: u32, vsock_port: u32, outcome: Result<(), String>) -> (r: Response)
    ensures
        match outcome {
            Ok(()) => r == (Response::LogsStreamStarted { service: name, vsock_cid, vsock_port }),
            Err(e) => r matches Response::Error { message } && message@ == "Failed to start log streaming: "@ + e@,
        },
{
    match outcome {
        Ok(()) => Response::LogsStreamStarted { service: name, vsock_cid, vsock_port },
        Err(e) => Response::Error { message: concat2("Failed to start log streaming: ", e.as_str()) },
    }
}

/// The answer to stopping a log stream; `found` tells whether the service had one.
pub fn stream_stopped_reply(name: &String, found: bool) -> (r: Response)
    ensures
        found ==> (r matches Response::Success { message } && message@ == "Log streaming stopped for service '"@ + name@ + "'"@),
        !found ==> (r matches Response::Error { message } && message@ == "No active log stream for service '"@ + name@ + "'"@),
{
    if found {
        Response::Success { message: concat3("Log streaming stopped for service '", name.as_str(), "'") }
    } else {
        Response::Error { message: concat3("No active log stream for service '", name.as_str(), "'") }
    }
}

/// The answer to a query about one process.
pub fn process_status_reply(outcome: Result<ProcessInfo, String>) -> (r: Response)
    ensures
        match outcome {
            Ok(p) => r == (Response::ProcessStatus { process: p }),
            Err(e) => r matches Response::Error { message } && message@ == "Failed to get process status: "@ + e@,
        },
{
    match outcome {
        Ok(process) => Response::ProcessStatus { process },
        Err(e) => Response::Error { message: concat2("Failed to get process status: ", e.as_str()) },
    }
}

/// The answer to starting an unmanaged process.
pub fn process_started_reply(outcome: Result<i32, String>) -> (r: Response)
    ensures
        match outcome {
            Ok(pid) => r matches Response::ProcessStarted { pid: p, message } && p == pid
                && message@ == "Process started with PID "@ + signed_decimal(pid as int),
            Err(e) => r matches Response::Error { message } && message@ == "Failed to start process: "@ + e@,
        },
{
    match outcome {
        Ok(pid) => {
            let num = i64_to_decimal(pid as i64);
            Response::ProcessStarted { pid, message: concat2("Process started with PID ", num.as_str()) }
        },
        Err(e) => Response::Error { message: concat2("Failed to start process: ", e.as_str()) },
    }
}

/// The answer to stopping a process.
pub fn process_stopped_reply(pid: i32, outcome: Result<(), String>) -> (r: Response)
    ensures
        answers(r, outcome, "SIGTERM sent to process "@ + signed_decimal(pid as int), "Failed to stop process: "@),
{
    let num = i64_to_decimal(pid as i64);
    outcome_reply(outcome, concat2("SIGTERM sent to process ", num.as_str()), "Failed to stop process: ".to_string())
}

/// The answer to sending a signal to a process.
pub fn signal_sent_reply(pid: i32, signal: i32, outcome: Result<(), String>) -> (r: Response)
    ensures
        answers(
            r,
            outcome,
            "Signal "@ + signed_decimal(signal as int) + " sent to process "@ + signed_decimal(pid as int),
            "Failed to send signal: "@,
        ),
{
    let sig = i64_to_decimal(signal as i64);
    let num = i64_to_decimal(pid as i64);
    let mut done = concat3("Signal ", sig.as_str(), " sent to process ");
    done.append(num.as_str());
    outcome_reply(outcome, done, "Failed to send signal: ".to_string())
}

/// What enabling or disabling a service does to its file.
#[derive(Debug, Clone, Copy, PartialEq, Eq, Structural)]
pub enum FileStep {
    /// Rename the file to its other name.
    Rename,
    /// The file already has the wanted name.
    AlreadyDone,
    /// Neither file exists.
    NotFound,
}

/// Enabling renames `<name>.service.disabled` to `<name>.service`.
pub fn enable_step(disabled_exists: bool, enabled_exists: bool) -> (s: FileStep)
    ensures
        s == (if disabled_exists {
            FileStep::Rename
        } else if enabled_exists {
            FileStep::AlreadyDone
        } else {
            FileStep::NotFound
        }),
{
    if disabled_exists {
        FileStep::Rename
    } else if enabled_exists {
        FileStep::AlreadyDone
    } else {
        FileStep::NotFound
    }
}

/// Disabling renames `<name>.service` to `<name>.service.disabled`.
pub fn disable_step(enabled_exists: bool, disabled_exists: bool) -> (s: FileStep)
    ensures
        s == (if enabled_exists {
            FileStep::Rename
        } else if disabled_exists {
            FileStep::AlreadyDone
        } else {
            FileStep::NotFound
        }),
{
    enable_step(enabled_exists, disabled_exists)
}

/// The outcome of a file step; `rename_error` is the error of the rename,
/// when the step renamed and the rename failed.
pub fn step_outcome(step: FileStep, rename_error: Option<String>) -> (r: Result<(), String>)
    ensures
        match step {
            FileStep::Rename => match rename_error {
                None => r is Ok,
                Some(e) => r matches Err(m) && m@ == "Failed to rename service file: "@ + e@,
            },
            FileStep::AlreadyDone => r is Ok,
            FileStep::NotFound => r matches Err(m) && m@ == "Service file not found"@,
        },
{
    match step {
        FileStep::Rename => match rename_error {
            None => Ok(()),
            Some(e) => Err(concat2("Failed to rename service file: ", e.as_str())),
        },
        FileStep::AlreadyDone => Ok(()),
        FileStep::NotFound => Err("Service file not found".to_string()),
    }
}

} // verus!
