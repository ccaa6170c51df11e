//! The pipeline's configuration: buffer sizes, the listener's address, and
//! the configuration in effect for the process.

use vstd::prelude::*;
use crate::text::concat3;

verus! {

/// Files are sent and received through a buffer of 7 MiB.
pub const BUF_MAX_LEN_FILE_IO: usize = 7340032;
/// Buffer for a file path.
pub const BUF_MAX_LEN_FILE_PATH: usize = 8192;
/// Buffer for a shell command.
pub const BUF_MAX_LEN_CMD: usize = 8192;
/// Buffer for a shell command's output.
pub const BUF_MAX_LEN_CMD_IO: usize = 10240;
/// Listen backlog of the socket.
pub const BACKLOG: usize = 128;
/// Number of connection attempts.
pub const MAX_CONNECTION_ATTEMPTS: usize = 10;

/// Buffer sizes and connection limits.
#[derive(Debug, Clone, Copy, PartialEq, Eq, Structural)]
pub struct BufferConfig {
    pub buf_max_len_file_io: usize,
    pub buf_max_len_file_path: usize,
    pub buf_max_len_cmd: usize,
    pub buf_max_len_cmd_io: usize,
    pub backlog: usize,
    pub max_connection_attempts: usize,
}

impl Default for BufferConfig {
    fn default() -> (c: Self)
        ensures
            c.buf_max_len_file_io == BUF_MAX_LEN_FILE_IO,
            c.buf_max_len_file_path == BUF_MAX_LEN_FILE_PATH,
            c.buf_max_len_cmd == BUF_MAX_LEN_CMD,
            c.buf_max_len_cmd_io == BUF_MAX_LEN_CMD_IO,
            c.backlog == BACKLOG,
            c.max_connection_attempts == MAX_CONNECTION_ATTEMPTS,
    {
        BufferConfig {
            buf_max_len_file_io: BUF_MAX_LEN_FILE_IO,
            buf_max_len_file_path: BUF_MAX_LEN_FILE_PATH,
            buf_max_len_cmd: BUF_MAX_LEN_CMD,
            buf_max_len_cmd_io: BUF_MAX_LEN_CMD_IO,
            backlog: BACKLOG,
            max_connection_attempts: MAX_CONNECTION_ATTEMPTS,
        }
    }
}

/// The listener's VSock address and the buffer settings.
#[derive(Debug, Clone, Copy, PartialEq, Eq, Structural)]
pub struct AppConfig {
    pub cid: u32,
    pub port: u32,
    pub buffers: BufferConfig,
}

impl Default for AppConfig {
    fn default() -> (c: Self)
        ensures
            c.cid == 3,
            c.port == 5000,
            c.buffers == (BufferConfig {
                buf_max_len_file_io: BUF_MAX_LEN_FILE_IO,
                buf_max_len_file_path: BUF_MAX_LEN_FILE_PATH,
                buf_max_len_cmd: BUF_MAX_LEN_CMD,
                buf_max_len_cmd_io: BUF_MAX_LEN_CMD_IO,
                backlog: BACKLOG,
                max_connection_attempts: MAX_CONNECTION_ATTEMPTS,
            }),
    {
        AppConfig { cid: 3, port: 5000, buffers: BufferConfig::default() }
    }
}

/// The configuration of a process: the one read at start-up from the
/// default paths (or the defaults), the one read by `init_config`, and the
/// one set at run time.
pub struct ConfigStore {
    startup: AppConfig,
    initialized: Option<AppConfig>,
    runtime: Option<AppConfig>,
}

impl ConfigStore {
    /// The configuration read at start-up.
    pub closed spec fn startup(self) -> AppConfig {
        self.startup
    }

    /// The configuration read by `init_config`, if any.
    pub closed spec fn initialized(self) -> Option<AppConfig> {
        self.initialized
    }

    /// The configuration set at run time, if any.
    pub closed spec fn runtime(self) -> Option<AppConfig> {
        self.runtime
    }

    /// The configuration in effect: the run-time one when set, else the one
    /// installed by `init_config`, else the start-up one.
    pub open spec fn effective(self) -> AppConfig {
        match self.runtime() {
            Some(c) => c,
            None => match self.initialized() {
                Some(c) => c,
                None => self.startup(),
            },
        }
    }

    /// A store holding the configuration read at start-up.
    pub fn new(startup: AppConfig) -> (s: Self)
        ensures
            s.startup() == startup,
            s.initialized() is None,
            s.runtime() is None,
    {
        ConfigStore { startup, initialized: None, runtime: None }
    }

    /// Initialises the configuration from the one read from a file (its
    /// outcome is `loaded`): it becomes the configuration in effect, in
    /// place of any set before, and is answered; a file that could not be
    /// read or parsed leaves everything as it was and answers the error.
    pub fn init_config(&mut self, loaded: Result<AppConfig, String>) -> (r: Result<AppConfig, String>)
        ensures
            match loaded {
                Ok(c) => r == Ok::<AppConfig, String>(c) && final(self).initialized() == Some(c)
                    && final(self).runtime() is None && final(self).effective() == c,
                Err(e) => r == Err::<AppConfig, String>(e) && final(self).initialized() == old(self).initialized()
                    && final(self).runtime() == old(self).runtime(),
            },
            final(self).startup() == old(self).startup(),
    {
        match loaded {
            Ok(c) => {
                self.initialized = Some(c);
                self.runtime = None;
                Ok(c)
            },
            Err(e) => Err(e),
        }
    }

    /// Sets the configuration in effect from now on.
    pub fn set_runtime_config(&mut self, config: AppConfig)
        ensures
            final(self).runtime() == Some(config),
            final(self).effective() == config,
            final(self).startup() == old(self).startup(),
            final(self).initialized() == old(self).initialized(),
    {
        self.runtime = Some(config);
    }

    /// The configuration in effect.
    pub fn get_config(&self) -> (c: AppConfig)
        ensures
            c == self.effective(),
    {
        match self.runtime {
            Some(c) => c,
            None => match self.initialized {
                Some(c) => c,
                None => self.startup,
            },
        }
    }

    /// The buffer settings in effect.
    pub fn get_buffer_config(&self) -> (b: BufferConfig)
        ensures
            b == self.effective().buffers,
    {
        self.get_config().buffers
    }

    pub fn buf_max_len_file_io(&self) -> (n: usize)
        ensures
            n == self.effective().buffers.buf_max_len_file_io,
    {
        self.get_buffer_config().buf_max_len_file_io
    }

    pub fn buf_max_len_file_path(&self) -> (n: usize)
        ensures
            n == self.effective().buffers.buf_max_len_file_path,
    {
        self.get_buffer_config().buf_max_len_file_path
    }

    pub fn buf_max_len_cmd(&self) -> (n: usize)
        ensures
            n == self.effective().buffers.buf_max_len_cmd,
    {
        self.get_buffer_config().buf_max_len_cmd
    }

    pub fn buf_max_len_cmd_io(&self) -> (n: usize)
        ensures
            n == self.effective().buffers.buf_max_len_cmd_io,
    {
        self.get_buffer_config().buf_max_len_cmd_io
    }

    pub fn backlog(&self) -> (n: usize)
        ensures
            n == self.effective().buffers.backlog,
    {
        self.get_buffer_config().backlog
    }

    pub fn max_connection_attempts(&self) -> (n: usize)
        ensures
            n == self.effective().buffers.max_connection_attempts,
    {
        self.get_buffer_config().max_connection_attempts
    }
}

/// The files tried, in order, for the configuration of program `name`.
pub fn default_config_paths(name: &str) -> (v: Vec<String>)
    ensures
        v@.len() == 4,
        v@[0]@ == "./.config/"@ + name@ + ".config.yaml"@,
        v@[1]@ == "./.config/"@ + name@ + ".config.yml"@,
        v@[2]@ == "/etc/"@ + name@ + "/config.yaml"@,
        v@[3]@ == "/etc/"@ + name@ + "/config.yml"@,
{
    let mut v: Vec<String> = Vec::new();
    v.push(concat3("./.config/", name, ".config.yaml"));
    v.push(concat3("./.config/", name, ".config.yml"));
    v.push(concat3("/etc/", name, "/config.yaml"));
    v.push(concat3("/etc/", name, "/config.yml"));
    v
}

/// The first of the files that exists: `exists[i]` tells whether file `i` does.
pub fn first_existing(exists: &Vec<bool>) -> (r: Option<usize>)
    ensures
        match r {
            Some(i) => i < exists@.len() && exists@[i as int] && forall|j: int| 0 <= j < i ==> !exists@[j],
            None => forall|j: int| 0 <= j < exists@.len() ==> !exists@[j],
        },
{
    let mut i: usize = 0;
    while i < exists.len()
        invariant
            i <= exists@.len(),
            forall|j: int| 0 <= j < i ==> !exists@[j],
        decreases exists@.len() - i,
    {
        if exists[i] {
            return Some(i);
        }
        i = i + 1;
    }
    None
}

/// The error when a configuration file cannot be read.
pub fn read_failure(path: &str, error: &str) -> (m: String)
    ensures
        m@ == "Failed to read config file '"@ + path@ + "': "@ + error@,
{
    let mut m = concat3("Failed to read config file '", path, "': ");
    m.append(error);
    m
}

/// The error when a configuration file cannot be parsed.
pub fn parse_failure(path: &str, error: &str) -> (m: String)
    ensures
        m@ == "Failed to parse config file '"@ + path@ + "': "@ + error@,
{
    let mut m = concat3("Failed to parse config file '", path, "': ");
    m.append(error);
    m
}

} // verus!
