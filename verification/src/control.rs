//! The init system's table of services and its answers to control requests.
//!
//! A request is decided here; the outside work it calls for (starting a
//! process, sending a signal, touching service files, reading logs) is named
//! in the returned `Plan`, and the outcome of that work is turned into the
//! final `Response` by the `*_reply` functions.

use vstd::prelude::*;
use crate::deps::{
    has_cycle, is_valid_order, names_at, requirements_met, str_views, DependencyResolver,
    ServiceDependencies,
};
use crate::protocol::{ProcessInfo, Request, Response, ServiceInfo, SystemStatus};
use crate::supervisor::ServiceState;
use crate::text::{concat2, concat3, decimal, signed_decimal, i64_to_decimal, u64_to_decimal};

verus! {

/// `prefix`, then `name`, then `suffix`.
pub open spec fn framed(prefix: Seq<char>, name: Seq<char>, suffix: Seq<char>) -> Seq<char> {
    prefix + name + suffix
}

/// A message about a named service: `Service '<name>'<suffix>`.
pub open spec fn service_msg(name: Seq<char>, suffix: Seq<char>) -> Seq<char> {
    framed("Service '"@, name, suffix)
}

fn service_message(name: &str, suffix: &str) -> (m: String)
    ensures
        m@ == service_msg(name@, suffix@),
{
    concat3("Service '", name, suffix)
}

fn error_reply(message: String) -> (r: Response)
    ensures
        r == (Response::Error { message }),
{
    Response::Error { message }
}

fn success_reply(message: String) -> (r: Response)
    ensures
        r == (Response::Success { message }),
{
    Response::Success { message }
}

/// A control signal that the init system raises for itself.
#[derive(Debug, Clone, Copy, PartialEq, Eq, Structural)]
pub enum InitSignal {
    /// Re-read the service files.
    Reload,
    /// Stop all services and reboot.
    Terminate,
}

/// The state of a log stream, as the control side reports it.
#[derive(Debug, Clone)]
pub struct StreamInfo {
    pub name: String,
    pub active: bool,
    pub vsock_cid: u32,
    pub vsock_port: u32,
}

/// What answering a request takes.
#[derive(Debug)]
#[allow(inconsistent_fields)]
pub enum Plan {
    /// Answer at once.
    Reply(Response),
    /// Raise the signal, then answer.
    Notify { signal: InitSignal, reply: Response },
    /// Start the service; answer with `start_reply`.
    StartService { name: String },
    /// Send SIGTERM to the service's process; answer with `stop_reply`.
    StopService { name: String, pid: i32 },
    /// Send SIGTERM to the running process if any, wait, start the service;
    /// answer with `restart_reply`.
    RestartService { name: String, running_pid: Option<i32> },
    /// Enable the service's file; answer with `enable_reply`.
    EnableService { name: String },
    /// Send SIGTERM to the running process if any, disable the service's
    /// file; answer with `disable_reply`.
    DisableService { name: String, running_pid: Option<i32> },
    /// Read the last `lines` log lines; answer with `Response::ServiceLogs`.
    ReadLogs { name: String, lines: usize },
    /// Clear the service's logs; answer with `clear_logs_reply`.
    ClearLogs { name: String },
    /// Drop the inactive stream of the service if `replace_inactive`, connect a
    /// new one; answer with `stream_started_reply`.
    StartLogStream { name: String, vsock_cid: u32, vsock_port: u32, replace_inactive: bool },
    /// Remove and stop the service's stream; answer with `stream_stopped_reply`.
    StopLogStream { name: String },
    /// List the processes; `service_pids` names the processes of services.
    ListProcesses { service_pids: Vec<(String, i32)> },
    /// Describe one process; answer with `process_status_reply`.
    QueryProcess { pid: i32, service_pids: Vec<(String, i32)> },
    /// Start an unmanaged process; answer with `process_started_reply`.
    StartProcess { command: String, args: Vec<String>, env: Vec<String> },
    /// Send SIGTERM to the process; answer with `process_stopped_reply`.
    StopProcess { pid: i32 },
    /// Send the signal to the process; answer with `signal_sent_reply`.
    SignalProcess { pid: i32, signal: i32 },
    /// Answer with `ServiceTable::system_status`.
    ReportSystem,
}

/// The services known to the init system, each under a distinct name.
pub struct ServiceTable {
    services: Vec<ServiceState>,
}

/// Number of services with a running process.
pub open spec fn count_active(st: Seq<ServiceState>) -> nat
    decreases st.len(),
{
    if st.len() == 0 {
        0
    } else {
        count_active(st.drop_last()) + if st.last().pid is Some {
            1nat
        } else {
            0nat
        }
    }
}

/// Number of enabled services.
pub open spec fn count_enabled(st: Seq<ServiceState>) -> nat
    decreases st.len(),
{
    if st.len() == 0 {
        0
    } else {
        count_enabled(st.drop_last()) + if st.last().enabled {
            1nat
        } else {
            0nat
        }
    }
}

/// The names and process ids of the services that have a process.
pub open spec fn running_pids(st: Seq<ServiceState>) -> Seq<(Seq<char>, i32)>
    decreases st.len(),
{
    if st.len() == 0 {
        Seq::empty()
    } else {
        let r = running_pids(st.drop_last());
        match st.last().pid {
            Some(p) => r.push((st.last().name@, p)),
            None => r,
        }
    }
}

pub open spec fn pid_views(v: Seq<(String, i32)>) -> Seq<(Seq<char>, i32)> {
    v.map_values(|e: (String, i32)| (e.0@, e.1))
}

/// The first service, in table order, whose process is `pid`.
pub open spec fn service_of_pid(st: Seq<ServiceState>, pid: i32) -> Option<int> {
    if exists|i: int| 0 <= i < st.len() && st[i].pid == Some(pid) {
        Some(choose|i: int|
            #![trigger st[i]]
            0 <= i < st.len() && st[i].pid == Some(pid) && forall|j: int|
                0 <= j < i ==> (#[trigger] st[j]).pid != Some(pid))
    } else {
        None
    }
}

/// The signals that may be sent to a process on request.
pub open spec fn signal_supported(signal: i32) -> bool {
    signal == 1 || signal == 2 || signal == 9 || signal == 15
}

/// The listing line describes the service.
pub open spec fn info_of(i: ServiceInfo, s: ServiceState) -> bool {
    &&& i.name == s.name
    &&& i.enabled == s.enabled
    &&& i.active == s.pid is Some
    &&& i.restart_policy@ == crate::supervisor::policy_text(s.config.restart)
    &&& i.restart_count == s.restart_count
}

/// The status describes the service.
pub open spec fn status_of(st: crate::protocol::ServiceStatus, s: ServiceState) -> bool {
    &&& st.name == s.name
    &&& st.enabled == s.enabled
    &&& st.active == s.pid is Some
    &&& st.pid == s.pid
    &&& st.restart_policy@ == crate::supervisor::policy_text(s.config.restart)
    &&& st.restart_count == s.restart_count
    &&& st.restart_sec == s.config.restart_sec
    &&& st.exit_status == s.exit_status
    &&& st.exec_start == s.config.exec_start
    &&& st.working_directory == s.config.working_directory
    &&& st.dependencies.before@ == s.config.before@
    &&& st.dependencies.after@ == s.config.after@
    &&& st.dependencies.requires@ == s.config.requires@
    &&& st.dependencies.required_by@ == s.config.required_by@
}

/// The plan answers at once with an error carrying `msg`.
pub open spec fn replies_error(p: Plan, msg: Seq<char>) -> bool {
    p matches Plan::Reply(Response::Error { message }) && message@ == msg
}

/// The answer to a request about a service that is not known.
pub open spec fn not_found(name: Seq<char>) -> Seq<char> {
    service_msg(name, "' not found"@)
}

/// The first stream in the list that belongs to `name`.
pub open spec fn stream_of(streams: Seq<StreamInfo>, name: Seq<char>) -> Option<int> {
    if exists|i: int| 0 <= i < streams.len() && streams[i].name@ == name {
        Some(choose|i: int|
            #![trigger streams[i]]
            0 <= i < streams.len() && streams[i].name@ == name && forall|j: int|
                0 <= j < i ==> (#[trigger] streams[j]).name@ != name)
    } else {
        None
    }
}

/// The answer when a service's log stream is already running.
pub open spec fn stream_busy_msg(name: Seq<char>, cid: u32, port: u32) -> Seq<char> {
    "Log streaming already active for service '"@ + name + "' on CID:"@ + decimal(cid as nat)
        + " PORT:"@ + decimal(port as nat)
}

/// The plan for restarting the service at `i`.
pub open spec fn restart_plan_for(old_states: Seq<ServiceState>, new_states: Seq<ServiceState>, i: int, p: Plan) -> bool {
    let s = old_states[i];
    if !s.enabled {
        &&& replies_error(p, service_msg(s.name@, "' is disabled"@))
        &&& new_states == old_states
    } else {
        &&& p matches Plan::RestartService { name, running_pid } && name@ == s.name@ && running_pid
            == s.pid
        &&& new_states.len() == old_states.len()
        &&& !new_states[i].manual_stop
        &&& new_states[i].pid == s.pid
        &&& new_states[i].name == s.name
        &&& new_states[i].config == s.config
        &&& new_states[i].enabled == s.enabled
        &&& new_states[i].restart_count == s.restart_count
        &&& new_states[i].exit_status == s.exit_status
        &&& forall|j: int| 0 <= j < new_states.len() && j != i ==> #[trigger] new_states[j] == old_states[j]
    }
}

/// The plan for a request, given the table before and after deciding it and
/// the log streams.
pub open spec fn request_plan(
    old_t: ServiceTable,
    new_t: ServiceTable,
    streams: Seq<StreamInfo>,
    request: Request,
    p: Plan,
) -> bool {
    let st = old_t.states();
    let unchanged = new_t.states() == st;
    match request {
        Request::Ping => unchanged && (p matches Plan::Reply(Response::Pong)),
        Request::ListServices => unchanged && (p matches Plan::Reply(Response::ServiceList { services })
            && services@.len() == st.len() && forall|i: int|
            0 <= i < st.len() ==> info_of(#[trigger] services@[i], st[i])),
        Request::ServiceStatus { name } => unchanged && match old_t.lookup(name@) {
            None => replies_error(p, not_found(name@)),
            Some(i) => p matches Plan::Reply(Response::ServiceStatus { status }) && status_of(status, st[i]),
        },
        Request::ServiceStart { name } => match old_t.lookup(name@) {
            None => unchanged && replies_error(p, not_found(name@)),
            Some(i) => if !st[i].enabled {
                unchanged && replies_error(p, service_msg(name@, "' is disabled"@))
            } else if st[i].pid is Some {
                unchanged && replies_error(p, service_msg(name@, "' is already running"@))
            } else {
                &&& p matches Plan::StartService { name: n } && n@ == name@
                &&& new_t.states().len() == st.len()
                &&& !new_t.states()[i].manual_stop
                &&& new_t.states()[i].pid == st[i].pid
                &&& new_t.states()[i].name == st[i].name
                &&& new_t.states()[i].config == st[i].config
                &&& new_t.states()[i].enabled == st[i].enabled
                &&& new_t.states()[i].restart_count == st[i].restart_count
                &&& new_t.states()[i].exit_status == st[i].exit_status
                &&& forall|j: int| 0 <= j < st.len() && j != i ==> #[trigger] new_t.states()[j] == st[j]
            },
        },
        Request::ServiceStop { name } => match old_t.lookup(name@) {
            None => unchanged && replies_error(p, not_found(name@)),
            Some(i) => match st[i].pid {
                None => unchanged && replies_error(p, service_msg(name@, "' is not running"@)),
                Some(pid) => {
                    &&& p matches Plan::StopService { name: n, pid: q } && n@ == name@ && q == pid
                    &&& new_t.states().len() == st.len()
                    &&& new_t.states()[i].manual_stop
                    &&& new_t.states()[i].pid == st[i].pid
                    &&& new_t.states()[i].name == st[i].name
                    &&& new_t.states()[i].config == st[i].config
                    &&& new_t.states()[i].enabled == st[i].enabled
                    &&& new_t.states()[i].restart_count == st[i].restart_count
                    &&& new_t.states()[i].exit_status == st[i].exit_status
                    &&& forall|j: int| 0 <= j < st.len() && j != i ==> #[trigger] new_t.states()[j] == st[j]
                },
            },
        },
        Request::ServiceRestart { name } => match old_t.lookup(name@) {
            None => unchanged && replies_error(p, not_found(name@)),
            Some(i) => restart_plan_for(st, new_t.states(), i, p),
        },
        Request::ServiceEnable { name } => unchanged && (p matches Plan::EnableService { name: n } && n@ == name@),
        Request::ServiceDisable { name } => unchanged && (p matches Plan::DisableService { name: n, running_pid }
            && n@ == name@ && running_pid == match old_t.lookup(name@) {
            Some(i) => st[i].pid,
            None => None,
        }),
        Request::ServiceLogs { name, lines } => unchanged && match old_t.lookup(name@) {
            None => replies_error(p, not_found(name@)),
            Some(i) => p matches Plan::ReadLogs { name: n, lines: l } && n@ == name@ && l == lines,
        },
        Request::ServiceLogsClear { name } => unchanged && match old_t.lookup(name@) {
            None => replies_error(p, not_found(name@)),
            Some(i) => p matches Plan::ClearLogs { name: n } && n@ == name@,
        },
        Request::ServiceLogsStream { name, vsock_cid, vsock_port } => unchanged && match old_t.lookup(name@) {
            None => replies_error(p, not_found(name@)),
            Some(i) => match stream_of(streams, name@) {
                Some(k) if streams[k].active => replies_error(
                    p,
                    stream_busy_msg(name@, streams[k].vsock_cid, streams[k].vsock_port),
                ),
                found => p matches Plan::StartLogStream { name: n, vsock_cid: c, vsock_port: q, replace_inactive }
                    && n@ == name@ && c == vsock_cid && q == vsock_port && replace_inactive == found is Some,
            },
        },
        Request::ServiceLogsStreamStop { name } => unchanged && (p matches Plan::StopLogStream { name: n } && n@ == name@),
        Request::ProcessList => unchanged && (p matches Plan::ListProcesses { service_pids } && pid_views(service_pids@) == running_pids(st)),
        Request::ProcessStatus { pid } => unchanged && (p matches Plan::QueryProcess { pid: q, service_pids }
            && q == pid && pid_views(service_pids@) == running_pids(st)),
        Request::ProcessStart { command, args, env } => unchanged && (p matches Plan::StartProcess { command: c, args: a, env: e }
            && c@ == command@ && a@ == args@ && e@ == env@),
        Request::ProcessStop { pid } => unchanged && (p matches Plan::StopProcess { pid: q } && q == pid),
        Request::ProcessRestart { pid } => match service_of_pid(st, pid) {
            None => unchanged && replies_error(p, "Process "@ + signed_decimal(pid as int) + " is not managed by init, cannot restart"@),
            Some(i) => restart_plan_for(st, new_t.states(), i, p),
        },
        Request::ProcessKill { pid, signal } => unchanged && if signal_supported(signal) {
            p matches Plan::SignalProcess { pid: q, signal: g } && q == pid && g == signal
        } else {
            replies_error(p, "Unsupported signal: "@ + signed_decimal(signal as int))
        },
        Request::SystemStatus => unchanged && (p matches Plan::ReportSystem),
        Request::SystemReload => unchanged && (p matches Plan::Notify { signal: InitSignal::Reload, reply: Response::Success { message } }
            && message@ == "System reload initiated"@),
        Request::SystemReboot => unchanged && (p matches Plan::Notify { signal: InitSignal::Terminate, reply: Response::Success { message } }
            && message@ == "System reboot initiated"@),
        Request::SystemShutdown => unchanged && (p matches Plan::Notify { signal: InitSignal::Terminate, reply: Response::Success { message } }
            && message@ == "System shutdown initiated"@),
    }
}

impl ServiceTable {
    #[verifier::type_invariant]
    spec fn names_unique(self) -> bool {
        self.names().no_duplicates()
    }

    /// The services, in the order they were added.
    pub closed spec fn states(self) -> Seq<ServiceState> {
        self.services@
    }

    /// The names of the services, in table order.
    pub open spec fn names(self) -> Seq<Seq<char>> {
        state_names(self.states())
    }

    /// The position of the service called `name`, if there is one.
    pub open spec fn lookup(self, name: Seq<char>) -> Option<int> {
        if self.names().contains(name) {
            Some(self.names().index_of(name))
        } else {
            None
        }
    }

    /// An empty table.
    pub fn new() -> (t: Self)
        ensures
            t.states().len() == 0,
    {
        let t = ServiceTable { services: Vec::new() };
        assert(t.names() =~= Seq::<Seq<char>>::empty());
        t
    }

    /// Number of services.
    pub fn len(&self) -> (n: usize)
        ensures
            n == self.states().len(),
    {
        self.services.len()
    }

    /// The service at position `i`.
    pub fn get(&self, i: usize) -> (s: &ServiceState)
        requires
            i < self.states().len(),
        ensures
            *s == self.states()[i as int],
    {
        &self.services[i]
    }

    /// The position of the service called `name`.
    pub fn find(&self, name: &String) -> (r: Option<usize>)
        ensures
            r matches Some(i) ==> self.lookup(name@) == Some(i as int),
            r is None ==> self.lookup(name@) is None,
    {
        proof {
            use_type_invariant(self);
        }
        let mut i: usize = 0;
        while i < self.services.len()
            invariant
                i <= self.states().len(),
                self.states() == self.services@,
                self.names().no_duplicates(),
                forall|j: int| 0 <= j < i ==> (#[trigger] self.names()[j]) != name@,
            decreases self.states().len() - i,
        {
            if self.services[i].name == *name {
                proof {
                    assert(self.names()[i as int] == name@);
                    assert(self.names().contains(name@));
                    let k = self.names().index_of(name@);
                    assert(self.names()[k] == name@);
                    assert(k == i);
                }
                return Some(i);
            }
            i = i + 1;
        }
        None
    }

    /// Adds a service, replacing the service of the same name.
    pub fn insert(&mut self, state: ServiceState)
        ensures
            old(self).lookup(state.name@) matches Some(i) ==> final(self).states() == old(
                self,
            ).states().update(i, state),
            old(self).lookup(state.name@) is None ==> final(self).states() == old(
                self,
            ).states().push(state),
    {
        proof {
            use_type_invariant(&*self);
        }
        let found = self.find(&state.name);
        let ghost old_states = self.states();
        let ghost st = state;
        let mut services: Vec<ServiceState> = Vec::new();
        std::mem::swap(&mut services, &mut self.services);
        match found {
            Some(i) => {
                services.set(i, state);
                proof {
                    let t = ServiceTable { services };
                    assert(t.names() =~= old_states.map_values(|s: ServiceState| s.name@));
                }
                self.services = services;
            },
            None => {
                services.push(state);
                proof {
                    let old_names = old_states.map_values(|s: ServiceState| s.name@);
                    let nn = services@.map_values(|s: ServiceState| s.name@);
                    assert(nn =~= old_names.push(st.name@));
                    assert(nn.no_duplicates()) by {
                        assert forall|a: int, b: int|
                            0 <= a < nn.len() && 0 <= b < nn.len() && a != b implies nn[a]
                            != nn[b] by {
                            if a < old_names.len() && b < old_names.len() {
                                assert(nn[a] == old_names[a]);
                                assert(nn[b] == old_names[b]);
                            } else if a < old_names.len() {
                                assert(nn[a] == old_names[a]);
                            } else if b < old_names.len() {
                                assert(nn[b] == old_names[b]);
                            }
                        }
                    }
                }
                self.services = services;
            },
        }
    }

    /// Sets whether the service at `i` was stopped on request.
    pub fn set_manual_stop(&mut self, i: usize, stopped: bool)
        requires
            i < old(self).states().len(),
        ensures
            final(self).states().len() == old(self).states().len(),
            final(self).states()[i as int].manual_stop == stopped,
            final(self).states()[i as int].pid == old(self).states()[i as int].pid,
            final(self).states()[i as int].name == old(self).states()[i as int].name,
            final(self).states()[i as int].config == old(self).states()[i as int].config,
            final(self).states()[i as int].enabled == old(self).states()[i as int].enabled,
            final(self).states()[i as int].restart_count == old(self).states()[i as int].restart_count,
            final(self).states()[i as int].exit_status == old(self).states()[i as int].exit_status,
            forall|j: int|
                0 <= j < final(self).states().len() && j != i ==> #[trigger] final(self).states()[j]
                    == old(self).states()[j],
    {
        proof {
            use_type_invariant(&*self);
        }
        let mut services: Vec<ServiceState> = Vec::new();
        std::mem::swap(&mut services, &mut self.services);
        let ghost old_s = services@;
        let mut st = services.remove(i);
        st.manual_stop = stopped;
        services.insert(i, st);
        proof {
            assert(services@ =~= old_s.update(i as int, services@[i as int]));
            let t = ServiceTable { services };
            assert(t.names() =~= old_s.map_values(|s: ServiceState| s.name@));
        }
        self.services = services;
    }
}


impl ServiceTable {
    /// The listing of all services, in table order.
    pub fn service_infos(&self) -> (v: Vec<ServiceInfo>)
        ensures
            v@.len() == self.states().len(),
            forall|i: int| 0 <= i < self.states().len() ==> info_of(#[trigger] v@[i], self.states()[i]),
    {
        let mut v: Vec<ServiceInfo> = Vec::new();
        let mut i: usize = 0;
        while i < self.services.len()
            invariant
                i <= self.states().len(),
                self.states() == self.services@,
                v@.len() == i,
                forall|j: int| 0 <= j < i ==> info_of(#[trigger] v@[j], self.states()[j]),
            decreases self.states().len() - i,
        {
            v.push(self.services[i].to_service_info());
            i = i + 1;
        }
        v
    }

    /// The names and process ids of the services that have a process.
    pub fn service_pids(&self) -> (v: Vec<(String, i32)>)
        ensures
            pid_views(v@) == running_pids(self.states()),
    {
        let mut v: Vec<(String, i32)> = Vec::new();
        let mut i: usize = 0;
        while i < self.services.len()
            invariant
                i <= self.states().len(),
                self.states() == self.services@,
                pid_views(v@) == running_pids(self.states().take(i as int)),
            decreases self.states().len() - i,
        {
            let ghost old_v = v@;
            proof {
                assert(self.states().take(i + 1).drop_last() =~= self.states().take(i as int));
            }
            match self.services[i].pid {
                Some(p) => {
                    v.push((self.services[i].name.clone(), p));
                    proof {
                        assert(pid_views(v@) =~= pid_views(old_v).push((self.states()[i as int].name@, p)));
                    }
                },
                None => {},
            }
            i = i + 1;
        }
        proof {
            assert(self.states().take(i as int) =~= self.states());
        }
        v
    }

    /// The first service, in table order, whose process is `pid`.
    pub fn find_by_pid(&self, pid: i32) -> (r: Option<usize>)
        ensures
            match r {
                Some(i) => i < self.states().len() && service_of_pid(self.states(), pid) == Some(i as int),
                None => service_of_pid(self.states(), pid) is None,
            },
    {
        let ghost st = self.states();
        let mut i: usize = 0;
        while i < self.services.len()
            invariant
                i <= st.len(),
                st == self.services@,
                forall|j: int| 0 <= j < i ==> (#[trigger] st[j]).pid != Some(pid),
            decreases st.len() - i,
        {
            if self.services[i].pid == Some(pid) {
                proof {
                    assert(st[i as int].pid == Some(pid));
                    let c = choose|c: int|
                        #![trigger st[c]]
                        0 <= c < st.len() && st[c].pid == Some(pid) && forall|j: int|
                            0 <= j < c ==> (#[trigger] st[j]).pid != Some(pid);
                    if c < i {
                    } else if c > i {
                        assert(st[i as int].pid != Some(pid));
                    }
                    assert(c == i);
                }
                return Some(i);
            }
            i = i + 1;
        }
        None
    }

    /// The plan for restarting the service at `i`.
    fn restart_at(&mut self, i: usize) -> (p: Plan)
        requires
            i < old(self).states().len(),
        ensures
            restart_plan_for(old(self).states(), final(self).states(), i as int, p),
    {
        let s = self.get(i);
        if !s.enabled {
            return Plan::Reply(error_reply(service_message(s.name.as_str(), "' is disabled")));
        }
        let name = s.name.clone();
        let running_pid = s.pid;
        self.set_manual_stop(i, false);
        Plan::RestartService { name, running_pid }
    }

    /// Decides a control request. `streams` are the log streams that exist.
    pub fn handle_request(&mut self, request: Request, streams: &Vec<StreamInfo>) -> (p: Plan)
        ensures
            request_plan(*old(self), *final(self), streams@, request, p),
    {
        match request {
            Request::Ping => Plan::Reply(Response::Pong),
            Request::ListServices => Plan::Reply(Response::ServiceList { services: self.service_infos() }),
            Request::ServiceStatus { name } => match self.find(&name) {
                None => Plan::Reply(error_reply(service_message(name.as_str(), "' not found"))),
                Some(i) => Plan::Reply(Response::ServiceStatus { status: self.get(i).to_service_status() }),
            },
            Request::ServiceStart { name } => match self.find(&name) {
                None => Plan::Reply(error_reply(service_message(name.as_str(), "' not found"))),
                Some(i) => {
                    let s = self.get(i);
                    if !s.enabled {
                        Plan::Reply(error_reply(service_message(name.as_str(), "' is disabled")))
                    } else if s.is_active() {
                        Plan::Reply(error_reply(service_message(name.as_str(), "' is already running")))
                    } else {
                        self.set_manual_stop(i, false);
                        Plan::StartService { name }
                    }
                },
            },
            Request::ServiceStop { name } => match self.find(&name) {
                None => Plan::Reply(error_reply(service_message(name.as_str(), "' not found"))),
                Some(i) => match self.get(i).pid {
                    None => Plan::Reply(error_reply(service_message(name.as_str(), "' is not running"))),
                    Some(pid) => {
                        self.set_manual_stop(i, true);
                        Plan::StopService { name, pid }
                    },
                },
            },
            Request::ServiceRestart { name } => match self.find(&name) {
                None => Plan::Reply(error_reply(service_message(name.as_str(), "' not found"))),
                Some(i) => self.restart_at(i),
            },
            Request::ServiceEnable { name } => Plan::EnableService { name },
            Request::ServiceDisable { name } => {
                let running_pid = match self.find(&name) {
                    Some(i) => self.get(i).pid,
                    None => None,
                };
                Plan::DisableService { name, running_pid }
            },
            Request::ServiceLogs { name, lines } => match self.find(&name) {
                None => Plan::Reply(error_reply(service_message(name.as_str(), "' not found"))),
                Some(_) => Plan::ReadLogs { name, lines },
            },
            Request::ServiceLogsClear { name } => match self.find(&name) {
                None => Plan::Reply(error_reply(service_message(name.as_str(), "' not found"))),
                Some(_) => Plan::ClearLogs { name },
            },
            Request::ServiceLogsStream { name, vsock_cid, vsock_port } => match self.find(&name) {
                None => Plan::Reply(error_reply(service_message(name.as_str(), "' not found"))),
                Some(_) => match find_stream(streams, &name) {
                    Some(k) => {
                        if streams[k].active {
                            Plan::Reply(error_reply(stream_busy_message(&name, streams[k].vsock_cid, streams[k].vsock_port)))
                        } else {
                            Plan::StartLogStream { name, vsock_cid, vsock_port, replace_inactive: true }
                        }
                    },
                    None => Plan::StartLogStream { name, vsock_cid, vsock_port, replace_inactive: false },
                },
            },
            Request::ServiceLogsStreamStop { name } => Plan::StopLogStream { name },
            Request::ProcessList => Plan::ListProcesses { service_pids: self.service_pids() },
            Request::ProcessStatus { pid } => Plan::QueryProcess { pid, service_pids: self.service_pids() },
            Request::ProcessStart { command, args, env } => Plan::StartProcess { command, args, env },
            Request::ProcessStop { pid } => Plan::StopProcess { pid },
            Request::ProcessRestart { pid } => match self.find_by_pid(pid) {
                Some(i) => self.restart_at(i),
                None => {
                    let num = i64_to_decimal(pid as i64);
                    Plan::Reply(error_reply(concat3("Process ", num.as_str(), " is not managed by init, cannot restart")))
                },
            },
            Request::ProcessKill { pid, signal } => {
                if signal == 1 || signal == 2 || signal == 9 || signal == 15 {
                    Plan::SignalProcess { pid, signal }
                } else {
                    let num = i64_to_decimal(signal as i64);
                    Plan::Reply(error_reply(concat2("Unsupported signal: ", num.as_str())))
                }
            },
            Request::SystemStatus => Plan::ReportSystem,
            Request::SystemReload => Plan::Notify {
                signal: InitSignal::Reload,
                reply: success_reply("System reload initiated".to_string()),
            },
            Request::SystemReboot => Plan::Notify {
                signal: InitSignal::Terminate,
                reply: success_reply("System reboot initiated".to_string()),
            },
            Request::SystemShutdown => Plan::Notify {
                signal: InitSignal::Terminate,
                reply: success_reply("System shutdown initiated".to_string()),
            },
        }
    }
}

/// The first stream in the list that belongs to `name`.
pub fn find_stream(streams: &Vec<StreamInfo>, name: &String) -> (r: Option<usize>)
    ensures
        match r {
            Some(k) => k < streams@.len() && stream_of(streams@, name@) == Some(k as int),
            None => stream_of(streams@, name@) is None,
        },
{
    let mut i: usize = 0;
    while i < streams.len()
        invariant
            i <= streams@.len(),
            forall|j: int| 0 <= j < i ==> (#[trigger] streams@[j]).name@ != name@,
        decreases streams@.len() - i,
    {
        if streams[i].name == *name {
            proof {
                let st = streams@;
                let c = choose|c: int|
                    #![trigger st[c]]
                    0 <= c < st.len() && st[c].name@ == name@ && forall|j: int|
                        0 <= j < c ==> (#[trigger] st[j]).name@ != name@;
                if c > i {
                    assert(st[i as int].name@ != name@);
                }
                assert(c == i);
            }
            return Some(i);
        }
        i = i + 1;
    }
    None
}

fn stream_busy_message(name: &String, cid: u32, port: u32) -> (m: String)
    ensures
        m@ == stream_busy_msg(name@, cid, port),
{
    let c = u64_to_decimal(cid as u64);
    let q = u64_to_decimal(port as u64);
    let mut m = concat3("Log streaming already active for service '", name.as_str(), "' on CID:");
    m.append(c.as_str());
    m.append(" PORT:");
    m.append(q.as_str());
    proof {
        assert(m@ =~= stream_busy_msg(name@, cid, port));
    }
    m
}

/// The names of the services, in order.
pub open spec fn state_names(st: Seq<ServiceState>) -> Seq<Seq<char>> {
    st.map_values(|s: ServiceState| s.name@)
}

/// The enabled services, in order.
pub open spec fn enabled_states(st: Seq<ServiceState>) -> Seq<ServiceState>
    decreases st.len(),
{
    if st.len() == 0 {
        Seq::empty()
    } else {
        let r = enabled_states(st.drop_last());
        if st.last().enabled {
            r.push(st.last())
        } else {
            r
        }
    }
}

/// `deps` holds, index for index, the declarations of the services `st`.
pub open spec fn declares(deps: Seq<ServiceDependencies>, st: Seq<ServiceState>) -> bool {
    &&& deps.len() == st.len()
    &&& forall|k: int|
        #![trigger deps[k]]
        0 <= k < st.len() ==> {
            &&& str_views(deps[k].before@) == str_views(st[k].config.before@)
            &&& str_views(deps[k].after@) == str_views(st[k].config.after@)
            &&& str_views(deps[k].requires@) == str_views(st[k].config.requires@)
            &&& str_views(deps[k].required_by@) == str_views(st[k].config.required_by@)
        }
}

/// `order` is the start-up order of the services `st`: the enabled services
/// in an order that their declarations allow, or, when some required service
/// is missing or the declarations are circular, every service in table order.
pub open spec fn startup_order_of(st: Seq<ServiceState>, order: Seq<Seq<char>>) -> bool {
    let es = enabled_states(st);
    let names = state_names(es);
    exists|deps: Seq<ServiceDependencies>|
        #![trigger declares(deps, es)]
        declares(deps, es) && if requirements_met(names, deps) && !has_cycle(names, deps) {
            exists|ord: Seq<usize>| is_valid_order(names, deps, ord) && order == names_at(names, ord)
        } else {
            order == state_names(st)
        }
}

/// Each enabled service is one of the services.
proof fn lemma_enabled_from(st: Seq<ServiceState>)
    ensures
        forall|k: int|
            0 <= k < enabled_states(st).len() ==> exists|j: int|
                0 <= j < st.len() && #[trigger] enabled_states(st)[k] == st[j],
    decreases st.len(),
{
    if st.len() > 0 {
        lemma_enabled_from(st.drop_last());
        let r = enabled_states(st.drop_last());
        assert forall|k: int| 0 <= k < enabled_states(st).len() implies exists|j: int|
            0 <= j < st.len() && #[trigger] enabled_states(st)[k] == st[j] by {
            if k < r.len() {
                let j = choose|j: int| 0 <= j < st.drop_last().len() && r[k] == st.drop_last()[j];
                assert(st[j] == st.drop_last()[j]);
            } else {
                assert(enabled_states(st)[k] == st[st.len() - 1]);
            }
        }
    }
}

/// A service has a restart due: it is not running, it exited, its policy
/// asks for a restart, and its restart delay has passed (`elapsed` is the
/// whole number of seconds since it last started, if it ever started).
pub open spec fn restart_due(s: ServiceState, elapsed: Option<u64>) -> bool {
    &&& s.pid is None
    &&& s.enabled
    &&& s.exit_status matches Some(code) && s.restart_wanted(code)
    &&& elapsed matches Some(e) ==> e >= s.config.restart_sec
}

/// The service at `i` is `s` after the change, the others are unchanged.
pub open spec fn changed_only_at(old_st: Seq<ServiceState>, new_st: Seq<ServiceState>, i: int) -> bool {
    &&& new_st.len() == old_st.len()
    &&& new_st[i].name == old_st[i].name
    &&& new_st[i].config == old_st[i].config
    &&& new_st[i].enabled == old_st[i].enabled
    &&& forall|j: int| 0 <= j < new_st.len() && j != i ==> #[trigger] new_st[j] == old_st[j]
}

impl ServiceTable {
    /// Hands out the services, leaving the table empty.
    fn take_services(&mut self) -> (v: Vec<ServiceState>)
        ensures
            v@ == old(self).states(),
            state_names(v@).no_duplicates(),
    {
        proof {
            use_type_invariant(&*self);
        }
        let mut v: Vec<ServiceState> = Vec::new();
        proof {
            assert(state_names(v@) =~= Seq::<Seq<char>>::empty());
        }
        std::mem::swap(&mut v, &mut self.services);
        v
    }

    /// Puts back services whose names are distinct.
    fn restore_services(&mut self, v: Vec<ServiceState>)
        requires
            state_names(v@).no_duplicates(),
        ensures
            final(self).states() == v@,
    {
        self.services = v;
    }

    /// Replacing a service by one of the same name keeps the names.
    proof fn lemma_names_update(st: Seq<ServiceState>, i: int, s: ServiceState)
        requires
            0 <= i < st.len(),
            s.name@ == st[i].name@,
        ensures
            state_names(st.update(i, s)) == state_names(st),
    {
        assert(state_names(st.update(i, s)) =~= state_names(st));
    }

    /// Records that the service at `i` was started as process `child`.
    pub fn record_launch(&mut self, i: usize, child: i32)
        requires
            i < old(self).states().len(),
            old(self).states()[i as int].restart_count < u32::MAX,
        ensures
            changed_only_at(old(self).states(), final(self).states(), i as int),
            final(self).states()[i as int].pid == Some(child),
            final(self).states()[i as int].restart_count == old(self).states()[i as int].restart_count + 1,
            !final(self).states()[i as int].manual_stop,
            final(self).states()[i as int].exit_status == old(self).states()[i as int].exit_status,
    {
        let mut v = self.take_services();
        let ghost old_v = v@;
        let mut s = v.remove(i);
        s.record_launch(child);
        v.insert(i, s);
        proof {
            assert(v@ =~= old_v.update(i as int, s));
            Self::lemma_names_update(old_v, i as int, s);
        }
        self.restore_services(v);
    }

    /// Records that process `pid` exited with `exit_code`, on the first
    /// service, in table order, that ran it; answers which service that was.
    pub fn record_exit(&mut self, pid: i32, exit_code: i32) -> (r: Option<usize>)
        ensures
            match service_of_pid(old(self).states(), pid) {
                None => r is None && final(self).states() == old(self).states(),
                Some(i) => {
                    &&& r == Some(i as usize)
                    &&& changed_only_at(old(self).states(), final(self).states(), i)
                    &&& final(self).states()[i].pid is None
                    &&& final(self).states()[i].exit_status == Some(exit_code)
                    &&& final(self).states()[i].restart_count == old(self).states()[i].restart_count
                    &&& final(self).states()[i].manual_stop == old(self).states()[i].manual_stop
                },
            },
    {
        match self.find_by_pid(pid) {
            None => None,
            Some(i) => {
                let mut v = self.take_services();
                let ghost old_v = v@;
                let mut s = v.remove(i);
                s.record_exit(exit_code);
                v.insert(i, s);
                proof {
                    assert(v@ =~= old_v.update(i as int, s));
                    Self::lemma_names_update(old_v, i as int, s);
                }
                self.restore_services(v);
                Some(i)
            },
        }
    }

    /// The services whose restart is due, in table order; `elapsed[i]` is
    /// the time since service `i` last started.
    pub fn restart_candidates(&self, elapsed: &Vec<Option<u64>>) -> (r: Vec<usize>)
        requires
            elapsed@.len() == self.states().len(),
        ensures
            forall|k: int| 0 <= k < r@.len() ==> (#[trigger] r@[k]) < self.states().len()
                && restart_due(self.states()[r@[k] as int], elapsed@[r@[k] as int]),
            forall|a: int, b: int| 0 <= a < b < r@.len() ==> r@[a] < r@[b],
            forall|i: int|
                0 <= i < self.states().len() && restart_due(self.states()[i], elapsed@[i])
                    ==> r@.contains(i as usize),
    {
        let ghost st = self.states();
        let mut r: Vec<usize> = Vec::new();
        let mut i: usize = 0;
        while i < self.services.len()
            invariant
                i <= st.len(),
                st == self.services@,
                elapsed@.len() == st.len(),
                forall|k: int| 0 <= k < r@.len() ==> (#[trigger] r@[k]) < i
                    && restart_due(st[r@[k] as int], elapsed@[r@[k] as int]),
                forall|a: int, b: int| 0 <= a < b < r@.len() ==> r@[a] < r@[b],
                forall|j: int| 0 <= j < i && restart_due(st[j], elapsed@[j]) ==> r@.contains(j as usize),
            decreases st.len() - i,
        {
            let s = &self.services[i];
            let due = match s.exit_status {
                Some(code) => s.pid.is_none() && s.enabled && s.should_restart(code)
                    && s.can_restart_now(elapsed[i]),
                None => false,
            };
            let ghost old_r = r@;
            if due {
                r.push(i);
                proof {
                    assert forall|j: int| 0 <= j < i + 1 && restart_due(st[j], elapsed@[j]) implies r@.contains(j as usize) by {
                        if j < i {
                            assert(old_r.contains(j as usize));
                            let k = choose|k: int| 0 <= k < old_r.len() && old_r[k] == j as usize;
                            assert(r@[k] == j as usize);
                        } else {
                            assert(r@[old_r.len() as int] == i);
                        }
                    }
                }
            } else {
                proof {
                    assert(!restart_due(st[i as int], elapsed@[i as int]));
                }
            }
            i = i + 1;
        }
        r
    }

    /// The names of all services, in table order.
    pub fn all_names(&self) -> (r: Vec<String>)
        ensures
            str_views(r@) == self.names(),
    {
        let ghost st = self.states();
        let mut r: Vec<String> = Vec::new();
        let mut i: usize = 0;
        while i < self.services.len()
            invariant
                i <= st.len(),
                st == self.services@,
                str_views(r@) == state_names(st.take(i as int)),
            decreases st.len() - i,
        {
            let ghost old_r = r@;
            r.push(self.services[i].name.clone());
            proof {
                assert(str_views(r@) =~= str_views(old_r).push(st[i as int].name@));
                assert(state_names(st.take(i + 1)) =~= state_names(st.take(i as int)).push(
                    st[i as int].name@,
                ));
            }
            i = i + 1;
        }
        proof {
            assert(st.take(i as int) =~= st);
        }
        r
    }

    /// The order in which the services are started: the enabled services
    /// ordered by their declarations, or all services when the declarations
    /// name a missing service or are circular.
    pub fn startup_order(&self) -> (r: Vec<String>)
        ensures
            startup_order_of(self.states(), str_views(r@)),
    {
        proof {
            use_type_invariant(self);
        }
        let ghost st = self.states();
        let mut resolver = DependencyResolver::new();
        let mut i: usize = 0;
        while i < self.services.len()
            invariant
                i <= st.len(),
                st == self.services@,
                state_names(st).no_duplicates(),
                resolver.names() == state_names(enabled_states(st.take(i as int))),
                declares(resolver.deps(), enabled_states(st.take(i as int))),
            decreases st.len() - i,
        {
            let ghost pre = st.take(i as int);
            let ghost es = enabled_states(pre);
            proof {
                assert(st.take(i + 1).drop_last() =~= pre);
                assert(st.take(i + 1).last() == st[i as int]);
            }
            if self.services[i].enabled {
                let d = self.services[i].get_dependencies();
                let name = self.services[i].name.clone();
                proof {
                    lemma_enabled_from(pre);
                    assert(!resolver.names().contains(name@)) by {
                        if resolver.names().contains(name@) {
                            let k = choose|k: int| 0 <= k < resolver.names().len() && resolver.names()[k] == name@;
                            let j = choose|j: int| 0 <= j < pre.len() && #[trigger] es[k] == pre[j];
                            assert(state_names(st)[j] == state_names(st)[i as int]);
                        }
                    }
                }
                resolver.add_service(name, d);
                proof {
                    let es2 = enabled_states(st.take(i + 1));
                    assert(es2 == es.push(st[i as int]));
                    assert(resolver.names() =~= state_names(es2));
                    assert(declares(resolver.deps(), es2)) by {
                        assert forall|k: int| #![trigger resolver.deps()[k]] 0 <= k < es2.len() implies {
                            &&& str_views(resolver.deps()[k].before@) == str_views(es2[k].config.before@)
                            &&& str_views(resolver.deps()[k].after@) == str_views(es2[k].config.after@)
                            &&& str_views(resolver.deps()[k].requires@) == str_views(es2[k].config.requires@)
                            &&& str_views(resolver.deps()[k].required_by@) == str_views(es2[k].config.required_by@)
                        } by {
                            if k < es.len() {
                                assert(es2[k] == es[k]);
                            } else {
                                assert(resolver.deps()[k] == d);
                            }
                        }
                    }
                }
            }
            i = i + 1;
        }
        proof {
            assert(st.take(i as int) =~= st);
        }
        let ghost deps = resolver.deps();
        match resolver.validate_dependencies() {
            Err(_) => {
                let r = self.all_names();
                proof {
                    assert(declares(deps, enabled_states(st)));
                }
                r
            },
            Ok(()) => match resolver.compute_startup_order() {
                Ok(order) => {
                    proof {
                        assert(declares(deps, enabled_states(st)));
                    }
                    order
                },
                Err(_) => {
                    let r = self.all_names();
                    proof {
                        assert(declares(deps, enabled_states(st)));
                    }
                    r
                },
            },
        }
    }

    /// The counters of the whole system; the uptime, the number of processes
    /// and the directories are measured or configured outside.
    pub fn system_status(
        &self,
        uptime_secs: u64,
        total_processes: usize,
        log_dir: String,
        service_dir: String,
    ) -> (s: SystemStatus)
        ensures
            s.uptime_secs == uptime_secs,
            s.total_services == self.states().len(),
            s.active_services == count_active(self.states()),
            s.enabled_services == count_enabled(self.states()),
            s.total_processes == total_processes,
            s.log_dir == log_dir,
            s.service_dir == service_dir,
    {
        let ghost st = self.states();
        let mut active: usize = 0;
        let mut enabled: usize = 0;
        let mut i: usize = 0;
        while i < self.services.len()
            invariant
                i <= st.len(),
                st == self.services@,
                active == count_active(st.take(i as int)),
                enabled == count_enabled(st.take(i as int)),
                active <= i,
                enabled <= i,
            decreases st.len() - i,
        {
            proof {
                assert(st.take(i + 1).drop_last() =~= st.take(i as int));
                assert(st.take(i + 1).last() == st[i as int]);
            }
            if self.services[i].is_active() {
                active = active + 1;
            }
            if self.services[i].enabled {
                enabled = enabled + 1;
            }
            i = i + 1;
        }
        proof {
            assert(st.take(i as int) =~= st);
        }
        SystemStatus {
            uptime_secs,
            total_services: self.services.len(),
            active_services: active,
            enabled_services: enabled,
            total_processes,
            log_dir,
            service_dir,
        }
    }
}

/// Whether a reload keeps the service called `name` running: the new table
/// has it, enabled.
pub open spec fn kept_by(new: ServiceTable, name: Seq<char>) -> bool {
    match new.lookup(name) {
        Some(i) => new.states()[i].enabled,
        None => false,
    }
}

/// The running services of `old` that the new table drops or disables,
/// with their processes, in table order.
pub open spec fn dropped_running(old: Seq<ServiceState>, new: ServiceTable) -> Seq<(Seq<char>, i32)>
    decreases old.len(),
{
    if old.len() == 0 {
        Seq::empty()
    } else {
        let r = dropped_running(old.drop_last(), new);
        let s = old.last();
        match s.pid {
            Some(p) => if kept_by(new, s.name@) {
                r
            } else {
                r.push((s.name@, p))
            },
            None => r,
        }
    }
}

impl ServiceTable {
    /// The running services that reloading into `new` stops, because the
    /// new table drops or disables them.
    pub fn stopped_by_reload(&self, new: &ServiceTable) -> (v: Vec<(String, i32)>)
        ensures
            pid_views(v@) == dropped_running(self.states(), *new),
    {
        let mut v: Vec<(String, i32)> = Vec::new();
        let mut i: usize = 0;
        while i < self.services.len()
            invariant
                i <= self.states().len(),
                self.states() == self.services@,
                pid_views(v@) == dropped_running(self.states().take(i as int), *new),
            decreases self.states().len() - i,
        {
            proof {
                assert(self.states().take(i + 1).drop_last() =~= self.states().take(i as int));
                assert(self.states().take(i + 1).last() == self.services@[i as int]);
            }
            let s = &self.services[i];
            match s.pid {
                Some(p) => {
                    let kept = match new.find(&s.name) {
                        Some(k) => new.get(k).enabled,
                        None => false,
                    };
                    if !kept {
                        let ghost before = pid_views(v@);
                        v.push((s.name.clone(), p));
                        proof {
                            assert(pid_views(v@) =~= before.push((s.name@, p)));
                        }
                    }
                },
                None => {},
            }
            i = i + 1;
        }
        proof {
            assert(self.states().take(i as int) =~= self.states());
        }
        v
    }
}

} // verus!
