//! A service's log: the recent lines kept in memory, the tail that is
//! shown, and the names of the rotated log files.

use vstd::prelude::*;
use crate::deps::str_views;
use crate::fs_watch::{joined_path, join_path};
use crate::text::{concat2, decimal, u64_to_decimal};
use crate::textscan::{lines_of, text_lines};

verus! {

/// Number of recent lines a service keeps in memory.
pub const MAX_MEMORY_LOG_LINES: usize = 100;

/// The last `n` items of `s` (all of them when there are fewer).
pub open spec fn last_n<A>(s: Seq<A>, n: int) -> Seq<A> {
    if s.len() > n {
        s.skip(s.len() - n)
    } else {
        s
    }
}

/// Keeping the last lines after each new line is keeping the last lines of
/// everything logged.
pub proof fn lemma_window_of_history(h: Seq<Seq<char>>, x: Seq<char>, n: int)
    requires
        n >= 1,
    ensures
        last_n(last_n(h, n).push(x), n) == last_n(h.push(x), n),
{
    assert(last_n(last_n(h, n).push(x), n) =~= last_n(h.push(x), n));
}

/// The recent lines of a service's log, at most `MAX_MEMORY_LOG_LINES`.
pub struct MemoryLog {
    lines: Vec<String>,
}

impl MemoryLog {
    #[verifier::type_invariant]
    spec fn bounded(self) -> bool {
        self.lines@.len() <= MAX_MEMORY_LOG_LINES
    }

    /// The kept lines, oldest first.
    pub closed spec fn lines(self) -> Seq<Seq<char>> {
        str_views(self.lines@)
    }

    pub fn new() -> (l: Self)
        ensures
            l.lines().len() == 0,
    {
        MemoryLog { lines: Vec::new() }
    }

    /// Keeps a new line, dropping the oldest when the log is full.
    pub fn push(&mut self, line: String)
        ensures
            final(self).lines() == last_n(old(self).lines().push(line@), MAX_MEMORY_LOG_LINES as int),
    {
        proof {
            use_type_invariant(&*self);
        }
        let mut v: Vec<String> = Vec::new();
        std::mem::swap(&mut v, &mut self.lines);
        let ghost before = v@;
        let ghost l = line@;
        if v.len() >= MAX_MEMORY_LOG_LINES {
            v.remove(0);
        }
        v.push(line);
        proof {
            if before.len() >= MAX_MEMORY_LOG_LINES {
                assert(str_views(v@) =~= last_n(str_views(before).push(l), MAX_MEMORY_LOG_LINES as int));
            } else {
                assert(str_views(v@) =~= last_n(str_views(before).push(l), MAX_MEMORY_LOG_LINES as int));
            }
        }
        self.lines = v;
    }

    /// The last `n` kept lines.
    pub fn tail(&self, n: usize) -> (v: Vec<String>)
        ensures
            str_views(v@) == last_n(self.lines(), n as int),
    {
        tail_lines(&self.lines, n)
    }
}

/// The last `n` lines.
pub fn tail_lines(lines: &Vec<String>, n: usize) -> (v: Vec<String>)
    ensures
        str_views(v@) == last_n(str_views(lines@), n as int),
{
    let len = lines.len();
    let start = if len > n {
        len - n
    } else {
        0
    };
    let mut v: Vec<String> = Vec::new();
    let mut i: usize = start;
    while i < len
        invariant
            len == lines@.len(),
            start <= i <= len,
            str_views(v@) == str_views(lines@).subrange(start as int, i as int),
        decreases len - i,
    {
        let ghost before = v@;
        v.push(lines[i].clone());
        proof {
            assert(str_views(v@) =~= str_views(before).push(lines@[i as int]@));
            assert(str_views(v@) =~= str_views(lines@).subrange(start as int, i + 1));
        }
        i = i + 1;
    }
    proof {
        assert(str_views(lines@).subrange(start as int, len as int) =~= last_n(str_views(lines@), n as int));
    }
    v
}

/// The lines shown for a service: the last `n` lines of its log file when
/// it could be read (`file` is its content), else the last `n` kept in
/// memory.
pub fn recent_logs(file: Option<&str>, memory: &MemoryLog, n: usize) -> (v: Vec<String>)
    ensures
        match file {
            Some(content) => str_views(v@) == last_n(text_lines(content@), n as int),
            None => str_views(v@) == last_n(memory.lines(), n as int),
        },
{
    match file {
        Some(content) => {
            let all = lines_of(content);
            tail_lines(&all, n)
        },
        None => memory.tail(n),
    }
}

/// The log file of a service in the log directory.
pub fn log_file_path(log_dir: &str, service: &str) -> (p: String)
    ensures
        p@ == joined_path(log_dir@, service@ + ".log"@),
{
    let name = concat2(service, ".log");
    join_path(log_dir, name.as_str())
}

/// The `i`-th rotated copy of a log file: `<log>.<i>`.
pub open spec fn rotated_name(log_path: Seq<char>, i: nat) -> Seq<char> {
    log_path + seq!['.'] + decimal(i)
}

/// The `i`-th rotated copy of a log file, as `with_extension("log.<i>")`
/// names it for a file whose extension is `log`.
pub fn rotated_path(log_path: &str, i: usize) -> (p: String)
    ensures
        p@ == rotated_name(log_path@, i as nat),
{
    let mut p = concat2(log_path, ".");
    p.append(u64_to_decimal(i as u64).as_str());
    proof {
        reveal_strlit(".");
        assert(p@ =~= rotated_name(log_path@, i as nat));
    }
    p
}

/// The renames that rotate the log files, in the order they are done:
/// copy `max - 2` becomes `max - 1`, ..., the log itself becomes copy 1.
pub open spec fn rotation_renames(log_path: Seq<char>, max: nat) -> Seq<(Seq<char>, Seq<char>)> {
    Seq::new(
        if max > 1 { (max - 1) as nat } else { 0 },
        |k: int| {
            let i = max - 1 - k;
            (if i == 1 { log_path } else { rotated_name(log_path, (i - 1) as nat) }, rotated_name(log_path, i as nat))
        },
    )
}

/// The renames that rotate the log files, in order.
pub fn rotation_plan(log_path: &str, max_log_files: usize) -> (v: Vec<(String, String)>)
    ensures
        v@.len() == rotation_renames(log_path@, max_log_files as nat).len(),
        forall|k: int| 0 <= k < v@.len() ==> (#[trigger] v@[k]).0@ == rotation_renames(log_path@, max_log_files as nat)[k].0
            && v@[k].1@ == rotation_renames(log_path@, max_log_files as nat)[k].1,
{
    let mut v: Vec<(String, String)> = Vec::new();
    if max_log_files <= 1 {
        return v;
    }
    let ghost plan = rotation_renames(log_path@, max_log_files as nat);
    let mut i: usize = max_log_files - 1;
    while i >= 1
        invariant
            max_log_files > 1,
            1 <= max_log_files,
            i < max_log_files,
            plan == rotation_renames(log_path@, max_log_files as nat),
            v@.len() == max_log_files - 1 - i,
            forall|k: int| 0 <= k < v@.len() ==> (#[trigger] v@[k]).0@ == plan[k].0 && v@[k].1@ == plan[k].1,
        decreases i,
    {
        let from = if i == 1 {
            log_path.to_string()
        } else {
            rotated_path(log_path, i - 1)
        };
        let to = rotated_path(log_path, i);
        proof {
            broadcast use vstd::string::group_string_axioms;
        }
        let ghost k = v@.len() as int;
        v.push((from, to));
        proof {
            assert(plan[k].0 == v@[k].0@);
        }
        i = i - 1;
    }
    v
}

/// The log files in the order their contents are shown: the oldest rotated
/// copy first, the current log last.
pub fn log_files_oldest_first(log_path: &str, max_log_files: usize) -> (v: Vec<String>)
    ensures
        v@.len() == (if max_log_files > 1 { max_log_files - 1 } else { 0 }) + 1,
        forall|k: int| 0 <= k < v@.len() - 1 ==> (#[trigger] v@[k])@ == rotated_name(log_path@, (max_log_files - 1 - k) as nat),
        v@[v@.len() - 1]@ == log_path@,
{
    broadcast use vstd::string::group_string_axioms;

    let mut v: Vec<String> = Vec::new();
    if max_log_files > 1 {
        let mut i: usize = max_log_files - 1;
        while i >= 1
            invariant
                max_log_files > 1,
                i < max_log_files,
                v@.len() == max_log_files - 1 - i,
                forall|k: int| 0 <= k < v@.len() ==> (#[trigger] v@[k])@ == rotated_name(log_path@, (max_log_files - 1 - k) as nat),
            decreases i,
        {
            v.push(rotated_path(log_path, i));
            i = i - 1;
        }
    }
    v.push(log_path.to_string());
    v
}

} // verus!
