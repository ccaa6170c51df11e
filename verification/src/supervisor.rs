//! The init system's view of its services: restart policy, service state and
//! the bookkeeping done when services start and exit.

use vstd::prelude::*;
use crate::deps::{str_views, ServiceDependencies};
use crate::shell_words::{lemma_split_words_nonempty, shell_split, split};
use crate::protocol::{ServiceDependencyInfo, ServiceInfo, ServiceStatus};

verus! {

/// When a service is started again after it exits.
#[derive(Debug, Clone, Copy, PartialEq, Eq, Structural)]
pub enum RestartPolicy {
    No,
    Always,
    OnFailure,
    OnSuccess,
}

/// The configuration spelling of a restart policy.
pub open spec fn policy_text(p: RestartPolicy) -> Seq<char> {
    match p {
        RestartPolicy::No => "no"@,
        RestartPolicy::Always => "always"@,
        RestartPolicy::OnFailure => "on-failure"@,
        RestartPolicy::OnSuccess => "on-success"@,
    }
}

/// The name of a restart policy's variant, as `{:?}` prints it.
pub open spec fn policy_variant_text(p: RestartPolicy) -> Seq<char> {
    match p {
        RestartPolicy::No => "No"@,
        RestartPolicy::Always => "Always"@,
        RestartPolicy::OnFailure => "OnFailure"@,
        RestartPolicy::OnSuccess => "OnSuccess"@,
    }
}

impl RestartPolicy {
    /// The configuration spelling of the policy.
    pub fn as_str(&self) -> (s: &'static str)
        ensures
            s@ == policy_text(*self),
    {
        match self {
            RestartPolicy::No => "no",
            RestartPolicy::Always => "always",
            RestartPolicy::OnFailure => "on-failure",
            RestartPolicy::OnSuccess => "on-success",
        }
    }

    /// The name of the policy's variant.
    pub fn variant_name(&self) -> (s: &'static str)
        ensures
            s@ == policy_variant_text(*self),
    {
        match self {
            RestartPolicy::No => "No",
            RestartPolicy::Always => "Always",
            RestartPolicy::OnFailure => "OnFailure",
            RestartPolicy::OnSuccess => "OnSuccess",
        }
    }
}

/// The restart policy of a service file that names none.
pub fn default_restart() -> (p: RestartPolicy)
    ensures
        p == RestartPolicy::No,
{
    RestartPolicy::No
}

/// The restart delay, in seconds, of a service file that names none.
pub fn default_restart_sec() -> (s: u64)
    ensures
        s == 5,
{
    5
}

/// Services are enabled unless their file says otherwise.
pub fn default_true() -> (b: bool)
    ensures
        b,
{
    true
}

/// Copies a list of strings.
pub fn clone_strings(v: &Vec<String>) -> (r: Vec<String>)
    ensures
        r@ == v@,
{
    let mut r: Vec<String> = Vec::new();
    let mut i: usize = 0;
    while i < v.len()
        invariant
            i <= v@.len(),
            r@ == v@.take(i as int),
        decreases v@.len() - i,
    {
        r.push(v[i].clone());
        proof {
            assert(v@.take(i + 1) =~= v@.take(i as int).push(v@[i as int]));
        }
        i = i + 1;
    }
    proof {
        assert(v@.take(i as int) =~= v@);
    }
    r
}

/// Copies an optional string.
pub fn clone_opt_string(v: &Option<String>) -> (r: Option<String>)
    ensures
        r == *v,
{
    match v {
        Some(s) => Some(s.clone()),
        None => None,
    }
}

/// The contents of a `.service` file.
#[derive(Debug, Clone)]
pub struct ServiceConfig {
    pub exec_start: String,
    pub environment: Vec<String>,
    pub restart: RestartPolicy,
    pub restart_sec: u64,
    pub working_directory: Option<String>,
    pub service_enable: bool,
    pub before: Vec<String>,
    pub after: Vec<String>,
    pub requires: Vec<String>,
    pub required_by: Vec<String>,
}

impl Default for ServiceConfig {
    fn default() -> (c: Self)
        ensures
            c.exec_start@.len() == 0,
            c.environment@.len() == 0,
            c.restart == RestartPolicy::No,
            c.restart_sec == 5,
            c.working_directory is None,
            c.service_enable,
            c.before@.len() == 0,
            c.after@.len() == 0,
            c.requires@.len() == 0,
            c.required_by@.len() == 0,
    {
        ServiceConfig {
            exec_start: String::new(),
            environment: Vec::new(),
            restart: RestartPolicy::No,
            restart_sec: 5,
            working_directory: None,
            service_enable: true,
            before: Vec::new(),
            after: Vec::new(),
            requires: Vec::new(),
            required_by: Vec::new(),
        }
    }
}

/// What the init system tracks of one service.
#[derive(Debug)]
pub struct ServiceState {
    pub config: ServiceConfig,
    pub pid: Option<i32>,
    pub name: String,
    pub restart_count: u32,
    pub exit_status: Option<i32>,
    /// The service was stopped on request and must not be restarted.
    pub manual_stop: bool,
    pub enabled: bool,
}

impl ServiceState {
    /// The policy's verdict on restarting after an exit with `exit_code`.
    pub open spec fn restart_wanted(&self, exit_code: i32) -> bool {
        &&& !self.manual_stop
        &&& self.enabled
        &&& match self.config.restart {
            RestartPolicy::Always => true,
            RestartPolicy::OnFailure => exit_code != 0,
            RestartPolicy::OnSuccess => exit_code == 0,
            RestartPolicy::No => false,
        }
    }

    /// A service that has not run yet; it is enabled as its file says.
    pub fn new(name: String, config: ServiceConfig) -> (s: Self)
        ensures
            s.name == name,
            s.config == config,
            s.pid is None,
            s.restart_count == 0,
            s.exit_status is None,
            !s.manual_stop,
            s.enabled == config.service_enable,
    {
        let enabled = config.service_enable;
        ServiceState {
            config,
            pid: None,
            name,
            restart_count: 0,
            exit_status: None,
            manual_stop: false,
            enabled,
        }
    }

    /// Whether the service is to be restarted after exiting with `exit_code`.
    pub fn should_restart(&self, exit_code: i32) -> (b: bool)
        ensures
            b == self.restart_wanted(exit_code),
    {
        if self.manual_stop || !self.enabled {
            return false;
        }
        match self.config.restart {
            RestartPolicy::Always => true,
            RestartPolicy::OnFailure => exit_code != 0,
            RestartPolicy::OnSuccess => exit_code == 0,
            RestartPolicy::No => false,
        }
    }

    /// Whether the restart delay has passed: `secs_since_start` is the whole
    /// number of seconds since the last start, if the service ever started.
    pub fn can_restart_now(&self, secs_since_start: Option<u64>) -> (b: bool)
        ensures
            b == match secs_since_start {
                Some(e) => e >= self.config.restart_sec,
                None => true,
            },
    {
        match secs_since_start {
            Some(e) => e >= self.config.restart_sec,
            None => true,
        }
    }

    /// The service has a running process.
    pub fn is_active(&self) -> (b: bool)
        ensures
            b == self.pid is Some,
    {
        self.pid.is_some()
    }

    /// The service's line in a listing.
    pub fn to_service_info(&self) -> (i: ServiceInfo)
        ensures
            i.name == self.name,
            i.enabled == self.enabled,
            i.active == self.pid is Some,
            i.restart_policy@ == policy_text(self.config.restart),
            i.restart_count == self.restart_count,
    {
        ServiceInfo {
            name: self.name.clone(),
            enabled: self.enabled,
            active: self.is_active(),
            restart_policy: self.config.restart.as_str().to_string(),
            restart_count: self.restart_count,
        }
    }

    /// The service's full status.
    pub fn to_service_status(&self) -> (st: ServiceStatus)
        ensures
            st.name == self.name,
            st.enabled == self.enabled,
            st.active == self.pid is Some,
            st.pid == self.pid,
            st.restart_policy@ == policy_text(self.config.restart),
            st.restart_count == self.restart_count,
            st.restart_sec == self.config.restart_sec,
            st.exit_status == self.exit_status,
            st.exec_start == self.config.exec_start,
            st.working_directory == self.config.working_directory,
            st.dependencies.before@ == self.config.before@,
            st.dependencies.after@ == self.config.after@,
            st.dependencies.requires@ == self.config.requires@,
            st.dependencies.required_by@ == self.config.required_by@,
    {
        ServiceStatus {
            name: self.name.clone(),
            enabled: self.enabled,
            active: self.is_active(),
            pid: self.pid,
            restart_policy: self.config.restart.as_str().to_string(),
            restart_count: self.restart_count,
            restart_sec: self.config.restart_sec,
            exit_status: self.exit_status,
            exec_start: self.config.exec_start.clone(),
            working_directory: clone_opt_string(&self.config.working_directory),
            dependencies: ServiceDependencyInfo {
                before: clone_strings(&self.config.before),
                after: clone_strings(&self.config.after),
                requires: clone_strings(&self.config.requires),
                required_by: clone_strings(&self.config.required_by),
            },
        }
    }

    /// The service's declarations, for start-up ordering.
    pub fn get_dependencies(&self) -> (d: ServiceDependencies)
        ensures
            d.before@ == self.config.before@,
            d.after@ == self.config.after@,
            d.requires@ == self.config.requires@,
            d.required_by@ == self.config.required_by@,
    {
        ServiceDependencies {
            before: clone_strings(&self.config.before),
            after: clone_strings(&self.config.after),
            requires: clone_strings(&self.config.requires),
            required_by: clone_strings(&self.config.required_by),
        }
    }

    /// Records that the service was started as process `child`.
    pub fn record_launch(&mut self, child: i32)
        requires
            old(self).restart_count < u32::MAX,
        ensures
            *final(self) == after_launch(*old(self), child),
            final(self).pid == Some(child),
            final(self).restart_count == old(self).restart_count + 1,
            !final(self).manual_stop,
            final(self).name == old(self).name,
            final(self).config == old(self).config,
            final(self).exit_status == old(self).exit_status,
            final(self).enabled == old(self).enabled,
    {
        self.pid = Some(child);
        self.restart_count = self.restart_count + 1;
        self.manual_stop = false;
    }

    /// Records that the service's process exited with `exit_code`.
    pub fn record_exit(&mut self, exit_code: i32)
        ensures
            final(self).pid is None,
            final(self).exit_status == Some(exit_code),
            final(self).restart_count == old(self).restart_count,
            final(self).manual_stop == old(self).manual_stop,
            final(self).name == old(self).name,
            final(self).config == old(self).config,
            final(self).enabled == old(self).enabled,
    {
        self.pid = None;
        self.exit_status = Some(exit_code);
    }
}


/// The search path every service process gets in its environment.
pub const DEFAULT_PATH_ENV: &'static str = "PATH=/sbin:/usr/sbin:/bin:/usr/bin";

/// The strings of `v` that contain no NUL character, in order: those that
/// can be handed to `exec`.
pub open spec fn without_nul(v: Seq<Seq<char>>) -> Seq<Seq<char>>
    decreases v.len(),
{
    if v.len() == 0 {
        Seq::empty()
    } else {
        let r = without_nul(v.drop_last());
        if v.last().contains('\0') {
            r
        } else {
            r.push(v.last())
        }
    }
}

/// Whether a string contains a NUL character.
pub fn has_nul(s: &str) -> (b: bool)
    ensures
        b == s@.contains('\0'),
{
    let n = s.unicode_len();
    let mut i: usize = 0;
    while i < n
        invariant
            n == s@.len(),
            i <= n,
            forall|j: int| 0 <= j < i ==> s@[j] != '\0',
        decreases n - i,
    {
        if s.get_char(i) == '\0' {
            return true;
        }
        i = i + 1;
    }
    false
}

/// The strings that contain no NUL character, in order.
pub fn drop_nul(v: &Vec<String>) -> (r: Vec<String>)
    ensures
        str_views(r@) == without_nul(str_views(v@)),
{
    let mut r: Vec<String> = Vec::new();
    let mut i: usize = 0;
    while i < v.len()
        invariant
            i <= v@.len(),
            str_views(r@) == without_nul(str_views(v@.take(i as int))),
        decreases v@.len() - i,
    {
        proof {
            assert(str_views(v@.take(i + 1)).drop_last() =~= str_views(v@.take(i as int)));
            assert(str_views(v@.take(i + 1)).last() == v@[i as int]@);
        }
        if !has_nul(v[i].as_str()) {
            let ghost old_r = r@;
            r.push(v[i].clone());
            proof {
                assert(str_views(r@) =~= str_views(old_r).push(v@[i as int]@));
            }
        }
        i = i + 1;
    }
    proof {
        assert(v@.take(i as int) =~= v@);
    }
    r
}

/// How a service is launched.
#[derive(Debug)]
pub enum Launch {
    /// The service is disabled and is not started.
    Disabled,
    /// The command line has no word; nothing is started.
    EmptyCommand,
    /// Execute `argv` (searched on the path) with environment `envp`.
    Exec { argv: Vec<String>, envp: Vec<String> },
}

impl ServiceConfig {
    /// The service file names a command.
    pub fn has_command(&self) -> (b: bool)
        ensures
            b == (self.exec_start@.len() > 0),
    {
        !self.exec_start.as_str().is_empty()
    }
}

/// What each restart policy does with an exit (`should_restart` answers
/// `restart_wanted`): `no` never restarts; `always` restarts after every
/// exit; `on-failure` exactly after a non-zero exit code; `on-success`
/// exactly after a zero one; and a service stopped on request or disabled
/// is never restarted, whatever its policy.
pub proof fn lemma_restart_policies(s: ServiceState, code: i32)
    ensures
        s.config.restart == RestartPolicy::No ==> !s.restart_wanted(code),
        s.manual_stop || !s.enabled ==> !s.restart_wanted(code),
        !s.manual_stop && s.enabled ==> (s.config.restart == RestartPolicy::Always ==> s.restart_wanted(code)),
        !s.manual_stop && s.enabled && s.config.restart == RestartPolicy::OnFailure ==> (s.restart_wanted(code)
            <==> code != 0),
        !s.manual_stop && s.enabled && s.config.restart == RestartPolicy::OnSuccess ==> (s.restart_wanted(code)
            <==> code == 0),
        s.restart_wanted(code) ==> s.config.restart != RestartPolicy::No,
{
}

/// A service that has not run yet, enabled as its file says.
pub open spec fn fresh_state(name: String, config: ServiceConfig) -> ServiceState {
    ServiceState {
        enabled: config.service_enable,
        config,
        pid: None,
        name,
        restart_count: 0,
        exit_status: None,
        manual_stop: false,
    }
}

/// The record of a service once it was started as process `child`: that
/// pid, one more start, no manual stop, everything else as it was.
pub open spec fn after_launch(s: ServiceState, child: i32) -> ServiceState {
    ServiceState { pid: Some(child), restart_count: (s.restart_count + 1) as u32, manual_stop: false, ..s }
}

/// Launching a service: a disabled one is not started (`launch_plan` gives
/// `Disabled`); an enabled one whose command line has words runs those
/// words (`Exec`), each of them non-empty, and once it runs as process
/// `child` it is recorded with that pid, one more start and no manual stop
/// (`record_launch`), nothing else changed.
pub proof fn lemma_launch_step(s: ServiceState, child: i32)
    requires
        s.restart_count < u32::MAX,
    ensures
        forall|k: int|
            0 <= k < shell_split(s.config.exec_start@).len() ==> (#[trigger] shell_split(
                s.config.exec_start@,
            )[k]).len() > 0,
        after_launch(s, child).pid == Some(child),
        after_launch(s, child).restart_count == s.restart_count + 1,
        !after_launch(s, child).manual_stop,
        after_launch(s, child).name == s.name && after_launch(s, child).config == s.config,
        after_launch(s, child).enabled == s.enabled && after_launch(s, child).exit_status == s.exit_status,
{
    lemma_split_words_nonempty(s.config.exec_start@);
}

/// What becomes of a `.service` file of the service directory once it was
/// read.
#[derive(Debug)]
pub enum Admission {
    /// The file could not be read or parsed: the service's name and why.
    ParseFailed(String, String),
    /// The file names no command; the service's name.
    NoCommand(String),
    /// The service is loaded in this state.
    Load(ServiceState),
}

/// Whether the service `name`, read from its file as `parsed`, is loaded:
/// a file that did not parse or names no command is skipped; otherwise the
/// service is loaded as not yet run.
pub fn admit_service(name: String, parsed: Result<ServiceConfig, String>) -> (a: Admission)
    ensures
        match parsed {
            Err(e) => a == Admission::ParseFailed(name, e),
            Ok(c) => if c.exec_start@.len() == 0 {
                a == Admission::NoCommand(name)
            } else {
                a == Admission::Load(fresh_state(name, c))
            },
        },
{
    match parsed {
        Err(e) => Admission::ParseFailed(name, e),
        Ok(c) => {
            if !c.has_command() {
                Admission::NoCommand(name)
            } else {
                Admission::Load(ServiceState::new(name, c))
            }
        },
    }
}

impl ServiceState {
    /// What launching the service executes: the words of its command line
    /// and its environment followed by the default search path, each without
    /// the strings that hold a NUL character.
    pub fn launch_plan(&self) -> (l: Launch)
        ensures
            !self.enabled ==> l is Disabled,
            self.enabled && shell_split(self.config.exec_start@).len() == 0 ==> l is EmptyCommand,
            self.enabled && shell_split(self.config.exec_start@).len() > 0 ==> (l matches Launch::Exec { argv, envp }
                && str_views(argv@) == without_nul(shell_split(self.config.exec_start@))
                && str_views(envp@) == without_nul(str_views(self.config.environment@).push(DEFAULT_PATH_ENV@))),
    {
        if !self.enabled {
            return Launch::Disabled;
        }
        let parts = match split(self.config.exec_start.as_str()) {
            Ok(words) => words,
            Err(()) => {
                let mut v: Vec<String> = Vec::new();
                v.push(self.config.exec_start.clone());
                v
            },
        };
        if parts.len() == 0 {
            return Launch::EmptyCommand;
        }
        let mut env = clone_strings(&self.config.environment);
        let ghost old_env = env@;
        env.push(DEFAULT_PATH_ENV.to_string());
        proof {
            assert(str_views(env@) =~= str_views(old_env).push(DEFAULT_PATH_ENV@));
        }
        Launch::Exec { argv: drop_nul(&parts), envp: drop_nul(&env) }
    }
}

/// The position of the last `.` in `f`.
pub open spec fn last_dot(f: Seq<char>) -> Option<int>
    decreases f.len(),
{
    if f.len() == 0 {
        None
    } else if f.last() == '.' {
        Some(f.len() - 1)
    } else {
        last_dot(f.drop_last())
    }
}

/// The extension of a file name, as `Path::extension` has it: what follows
/// the last `.`, unless that dot starts the name (or the name is `..`).
pub open spec fn file_extension(f: Seq<char>) -> Option<Seq<char>> {
    if f == ".."@ {
        None
    } else {
        match last_dot(f) {
            Some(p) if p > 0 => Some(f.skip(p + 1)),
            _ => None,
        }
    }
}

/// The stem of a file name, as `Path::file_stem` has it: the name without
/// its extension and the dot before it.
pub open spec fn file_stem(f: Seq<char>) -> Seq<char> {
    if f == ".."@ {
        f
    } else {
        match last_dot(f) {
            Some(p) if p > 0 => f.take(p),
            _ => f,
        }
    }
}

/// What a file of the service directory is to the init system.
#[derive(Debug)]
pub enum ServiceFile {
    /// A disabled service (`.disabled`); it is skipped.
    Disabled,
    /// A service file (`.service`), loaded under its stem.
    Service(String),
    /// Any other file; it is skipped.
    Other,
}

proof fn lemma_last_dot_bound(f: Seq<char>)
    ensures
        last_dot(f) matches Some(p) ==> 0 <= p < f.len() && f[p] == '.',
        last_dot(f) matches Some(p) ==> forall|j: int| p < j < f.len() ==> f[j] != '.',
        last_dot(f) is None ==> forall|j: int| 0 <= j < f.len() ==> f[j] != '.',
    decreases f.len(),
{
    if f.len() > 0 {
        lemma_last_dot_bound(f.drop_last());
        assert forall|j: int| 0 <= j < f.len() - 1 implies f[j] == f.drop_last()[j] by {}
    }
}

/// Sorts a file of the service directory by its name.
pub fn classify_service_file(file_name: &str) -> (k: ServiceFile)
    ensures
        file_extension(file_name@) == Some("disabled"@) ==> k is Disabled,
        file_extension(file_name@) == Some("service"@) ==> (k matches ServiceFile::Service(stem)
            && stem@ == file_stem(file_name@)),
        file_extension(file_name@) != Some("disabled"@) && file_extension(file_name@) != Some("service"@)
            ==> k is Other,
{
    broadcast use vstd::string::group_string_axioms;

    let n = file_name.unicode_len();
    let mut i: usize = n;
    let mut dot: Option<usize> = None;
    while i > 0
        invariant
            n == file_name@.len(),
            i <= n,
            dot is None ==> forall|j: int| i <= j < n ==> file_name@[j] != '.',
            dot matches Some(p) ==> p < n && file_name@[p as int] == '.' && forall|j: int|
                p < j < n ==> file_name@[j] != '.',
            dot matches Some(p) ==> last_dot(file_name@) == Some(p as int),
        decreases i,
    {
        if dot.is_none() && file_name.get_char(i - 1) == '.' {
            dot = Some(i - 1);
            proof {
                lemma_last_dot_bound(file_name@);
                match last_dot(file_name@) {
                    Some(q) => {
                        if q > i - 1 {
                        } else if q < i - 1 {
                            assert(file_name@[i - 1] == '.');
                        }
                    },
                    None => {
                        assert(file_name@[i - 1] == '.');
                    },
                }
            }
        }
        i = i - 1;
    }
    proof {
        lemma_last_dot_bound(file_name@);
        if dot is None {
            match last_dot(file_name@) {
                Some(q) => {
                    assert(file_name@[q] == '.');
                },
                None => {},
            }
        }
        reveal_strlit("..");
        reveal_strlit("disabled");
        reveal_strlit("service");
    }
    match dot {
        Some(p) => {
            if p == 0 || (n == 2 && p == 1 && file_name.get_char(0) == '.') {
                proof {
                    if n == 2 && p == 1 {
                        assert(file_name@ =~= ".."@);
                    }
                }
                return ServiceFile::Other;
            }
            let ext = file_name.substring_char(p + 1, n);
            proof {
                assert(file_name@ != ".."@) by {
                    if file_name@ == ".."@ {
                        assert(file_name@[0] == '.');
                    }
                }
                assert(file_extension(file_name@) == Some(ext@));
            }
            let ext = ext.to_string();
            if ext == "disabled".to_string() {
                proof {
                    assert(ext@ == "disabled"@);
                    assert(ext@.len() == 8);
                    assert("service"@.len() == 7);
                }
                ServiceFile::Disabled
            } else if ext == "service".to_string() {
                let stem = file_name.substring_char(0, p);
                ServiceFile::Service(stem.to_string())
            } else {
                ServiceFile::Other
            }
        },
        None => {
            proof {
                assert(file_extension(file_name@) is None);
            }
            ServiceFile::Other
        },
    }
}

} // verus!
