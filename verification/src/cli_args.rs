//! The pipeline's command-line arguments, the result of a command run in
//! the enclave, and the text carried in received buffers.

use vstd::prelude::*;
use vstd::utf8::{decode_utf8, valid_utf8};
use crate::numparse::{int_error_text, parse_u32, parse_unsigned};
use crate::pipe_error::PipelineError;
use crate::text::concat3;

verus! {

/// The text of an optional argument value.
pub open spec fn opt_text(v: Option<&str>) -> Option<Seq<char>> {
    match v {
        Some(s) => Some(s@),
        None => None,
    }
}

/// The value is present and reads as a `u32`.
pub open spec fn number_ok(value: Option<Seq<char>>) -> bool {
    value matches Some(v) && parse_unsigned(v, u32::MAX as int) is Ok
}

/// The number a present, well-formed value reads as.
pub open spec fn number_value(value: Option<Seq<char>>) -> u32 {
    match value {
        Some(v) => match parse_unsigned(v, u32::MAX as int) {
            Ok(n) => n as u32,
            Err(_) => 0,
        },
        None => 0,
    }
}

/// The message for an argument that was not given.
pub open spec fn missing_text(field: Seq<char>) -> Seq<char> {
    "Could not find "@ + field + " argument"@
}

/// `e` is the error of reading numeric argument `field` from `value`,
/// which is missing or not a `u32`.
pub open spec fn number_error(field: Seq<char>, value: Option<Seq<char>>, e: PipelineError) -> bool {
    match value {
        None => e matches PipelineError::ArgumentError(m) && m@ == missing_text(field),
        Some(v) => match parse_unsigned(v, u32::MAX as int) {
            Ok(_) => false,
            Err(k) => e matches PipelineError::ParseError { field: f, message } && f@ == field
                && message@ == "'"@ + v + "' is not a valid number: "@ + int_error_text(k),
        },
    }
}

/// Reads numeric argument `field` from its value.
fn number_arg(field: &str, value: Option<&str>) -> (r: Result<u32, PipelineError>)
    ensures
        number_ok(opt_text(value)) ==> r == Ok::<u32, PipelineError>(number_value(opt_text(value))),
        !number_ok(opt_text(value)) ==> (r matches Err(e) && number_error(field@, opt_text(value), e)),
{
    match value {
        None => Err(PipelineError::ArgumentError(concat3("Could not find ", field, " argument"))),
        Some(v) => match parse_u32(v) {
            Ok(n) => Ok(n),
            Err(k) => {
                let mut m = concat3("'", v, "' is not a valid number: ");
                m.append(k.message());
                Err(PipelineError::ParseError { field: field.to_string(), message: m })
            },
        },
    }
}

/// Reads text argument `field` from its value.
fn text_arg(field: &str, value: Option<&str>) -> (r: Result<String, PipelineError>)
    ensures
        match value {
            Some(v) => r matches Ok(s) && s@ == v@,
            None => r matches Err(PipelineError::ArgumentError(m)) && m@ == missing_text(field@),
        },
{
    match value {
        Some(v) => Ok(v.to_string()),
        None => Err(PipelineError::ArgumentError(concat3("Could not find ", field, " argument"))),
    }
}

/// Arguments of `listen`.
#[derive(Debug, Clone)]
pub struct ListenArgs {
    pub port: u32,
}

impl ListenArgs {
    /// Reads the arguments from the value given for `--port`.
    pub fn new_with(port: Option<&str>) -> (r: Result<Self, PipelineError>)
        ensures
            number_ok(opt_text(port)) ==> (r matches Ok(a) && a.port == number_value(opt_text(port))),
            !number_ok(opt_text(port)) ==> (r matches Err(e) && number_error("port"@, opt_text(port), e)),
    {
        let port = number_arg("port", port)?;
        Ok(ListenArgs { port })
    }
}

/// Arguments of `run`.
#[derive(Debug, Clone)]
pub struct RunArgs {
    pub cid: u32,
    pub port: u32,
    pub command: String,
    pub no_wait: bool,
}

impl RunArgs {
    /// Reads the arguments from the values given for `--cid`, `--port`,
    /// `--command` and whether `--no-wait` was given; the first missing or
    /// malformed one, in that order, is the error.
    pub fn new_with(cid: Option<&str>, port: Option<&str>, command: Option<&str>, no_wait: bool) -> (r: Result<Self, PipelineError>)
        ensures
            !number_ok(opt_text(cid)) ==> (r matches Err(e) && number_error("cid"@, opt_text(cid), e)),
            number_ok(opt_text(cid)) && !number_ok(opt_text(port)) ==> (r matches Err(e) && number_error("port"@, opt_text(port), e)),
            number_ok(opt_text(cid)) && number_ok(opt_text(port)) && command is None ==> (r matches Err(PipelineError::ArgumentError(m))
                && m@ == missing_text("command"@)),
            number_ok(opt_text(cid)) && number_ok(opt_text(port)) && command is Some ==> (r matches Ok(a)
                && a.cid == number_value(opt_text(cid)) && a.port == number_value(opt_text(port))
                && opt_text(command) == Some(a.command@) && a.no_wait == no_wait),
    {
        let cid = number_arg("cid", cid)?;
        let port = number_arg("port", port)?;
        let command = text_arg("command", command)?;
        Ok(RunArgs { cid, port, command, no_wait })
    }
}

/// Arguments of `send-file` and `recv-file`.
#[derive(Debug, Clone)]
pub struct FileArgs {
    pub cid: u32,
    pub port: u32,
    pub localfile: String,
    pub remotefile: String,
}

impl FileArgs {
    /// Reads the arguments from the values given for `--cid`, `--port`,
    /// `--localpath` and `--remotepath`; the first missing or malformed
    /// one, in that order, is the error.
    pub fn new_with(cid: Option<&str>, port: Option<&str>, localpath: Option<&str>, remotepath: Option<&str>) -> (r: Result<Self, PipelineError>)
        ensures
            !number_ok(opt_text(cid)) ==> (r matches Err(e) && number_error("cid"@, opt_text(cid), e)),
            number_ok(opt_text(cid)) && !number_ok(opt_text(port)) ==> (r matches Err(e) && number_error("port"@, opt_text(port), e)),
            number_ok(opt_text(cid)) && number_ok(opt_text(port)) && localpath is None ==> (r matches Err(PipelineError::ArgumentError(m))
                && m@ == missing_text("localpath"@)),
            number_ok(opt_text(cid)) && number_ok(opt_text(port)) && localpath is Some && remotepath is None ==> (r matches Err(PipelineError::ArgumentError(m))
                && m@ == missing_text("remotepath"@)),
            number_ok(opt_text(cid)) && number_ok(opt_text(port)) && localpath is Some && remotepath is Some
                ==> (r matches Ok(a) && a.cid == number_value(opt_text(cid)) && a.port == number_value(opt_text(port))
                && opt_text(localpath) == Some(a.localfile@) && opt_text(remotepath) == Some(a.remotefile@)),
    {
        let cid = number_arg("cid", cid)?;
        let port = number_arg("port", port)?;
        let localfile = text_arg("localpath", localpath)?;
        let remotefile = text_arg("remotepath", remotepath)?;
        Ok(FileArgs { cid, port, localfile, remotefile })
    }
}

/// Arguments of `send-dir` and `recv-dir`.
#[derive(Debug, Clone)]
pub struct DirArgs {
    pub cid: u32,
    pub port: u32,
    pub localdir: String,
    pub remotedir: String,
}

impl DirArgs {
    /// Reads the arguments from the values given for `--cid`, `--port`,
    /// `--localdir` and `--remotedir`; the first missing or malformed one,
    /// in that order, is the error.
    pub fn new_with(cid: Option<&str>, port: Option<&str>, localdir: Option<&str>, remotedir: Option<&str>) -> (r: Result<Self, PipelineError>)
        ensures
            !number_ok(opt_text(cid)) ==> (r matches Err(e) && number_error("cid"@, opt_text(cid), e)),
            number_ok(opt_text(cid)) && !number_ok(opt_text(port)) ==> (r matches Err(e) && number_error("port"@, opt_text(port), e)),
            number_ok(opt_text(cid)) && number_ok(opt_text(port)) && localdir is None ==> (r matches Err(PipelineError::ArgumentError(m))
                && m@ == missing_text("localdir"@)),
            number_ok(opt_text(cid)) && number_ok(opt_text(port)) && localdir is Some && remotedir is None ==> (r matches Err(PipelineError::ArgumentError(m))
                && m@ == missing_text("remotedir"@)),
            number_ok(opt_text(cid)) && number_ok(opt_text(port)) && localdir is Some && remotedir is Some
                ==> (r matches Ok(a) && a.cid == number_value(opt_text(cid)) && a.port == number_value(opt_text(port))
                && opt_text(localdir) == Some(a.localdir@) && opt_text(remotedir) == Some(a.remotedir@)),
    {
        let cid = number_arg("cid", cid)?;
        let port = number_arg("port", port)?;
        let localdir = text_arg("localdir", localdir)?;
        let remotedir = text_arg("remotedir", remotedir)?;
        Ok(DirArgs { cid, port, localdir, remotedir })
    }
}

/// `String::from_utf8`: the text of the bytes when they are valid UTF-8;
/// otherwise the message of the `Utf8Error`, whose wording is not stated.
#[verifier::external_body]
fn utf8_string(bytes: Vec<u8>) -> (r: Result<String, String>)
    ensures
        r is Ok == valid_utf8(bytes@),
        r matches Ok(s) ==> s@ == decode_utf8(bytes@),
{
    match String::from_utf8(bytes) {
        Ok(s) => Ok(s),
        Err(e) => Err(e.utf8_error().to_string()),
    }
}

/// What a command run in the enclave printed, and its exit code (none when
/// a signal ended it).
#[derive(Debug, Clone)]
pub struct CommandOutput {
    pub stdout: String,
    pub stderr: String,
    pub rc: Option<i32>,
}

impl CommandOutput {
    pub fn new(stdout: String, stderr: String, code: i32) -> (o: Self)
        ensures
            o.stdout == stdout,
            o.stderr == stderr,
            o.rc == Some(code),
    {
        CommandOutput { stdout, stderr, rc: Some(code) }
    }

    /// The output of a finished command, from its raw output streams; a
    /// stream that is not UTF-8 is a `Utf8Error`, standard output first.
    pub fn new_from(stdout: Vec<u8>, stderr: Vec<u8>, rc: Option<i32>) -> (r: Result<Self, PipelineError>)
        ensures
            r is Ok <==> valid_utf8(stdout@) && valid_utf8(stderr@),
            r matches Ok(o) ==> o.stdout@ == decode_utf8(stdout@) && o.stderr@ == decode_utf8(stderr@)
                && o.rc == rc,
            r matches Err(e) ==> e is Utf8Error,
    {
        let out = match utf8_string(stdout) {
            Ok(s) => s,
            Err(m) => return Err(PipelineError::Utf8Error(m)),
        };
        let err = match utf8_string(stderr) {
            Ok(s) => s,
            Err(m) => return Err(PipelineError::Utf8Error(m)),
        };
        Ok(CommandOutput { stdout: out, stderr: err, rc })
    }
}

/// The text in the first `len` bytes of a received buffer; bytes that are
/// not UTF-8 are a `Utf8Error`.
pub fn decode_text(buf: &[u8], len: usize) -> (r: Result<String, PipelineError>)
    requires
        len <= buf@.len(),
    ensures
        r is Ok <==> valid_utf8(buf@.take(len as int)),
        r matches Ok(s) ==> s@ == decode_utf8(buf@.take(len as int)),
        r matches Err(e) ==> e is Utf8Error,
{
    let mut bytes: Vec<u8> = Vec::new();
    let mut i: usize = 0;
    while i < len
        invariant
            i <= len <= buf@.len(),
            bytes@ == buf@.take(i as int),
        decreases len - i,
    {
        bytes.push(buf[i]);
        proof {
            assert(buf@.take(i + 1) =~= buf@.take(i as int).push(buf@[i as int]));
        }
        i = i + 1;
    }
    match utf8_string(bytes) {
        Ok(s) => Ok(s),
        Err(m) => Err(PipelineError::Utf8Error(m)),
    }
}

} // verus!
