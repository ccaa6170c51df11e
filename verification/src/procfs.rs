//! Reading the kernel's per-process files: the fields of a `stat` line, the
//! resident memory in a `status` file and the command line; and the process
//! records built from them.

use vstd::prelude::*;
use vstd::utf8::{decode_utf8, valid_utf8};
use crate::deps::str_views;
use crate::numparse::{parse_i32, parse_signed, parse_u64, parse_unsigned};
use crate::protocol::ProcessInfo;
use crate::text::{concat3, push_char};
use crate::textscan::{chars_of, lines_of, starts_with, text_lines};

verus! {

/// A white-space character, as `char::is_whitespace` tells: Unicode's
/// `White_Space` property.
pub open spec fn is_white(c: char) -> bool {
    ||| ('\u{9}' <= c && c <= '\u{d}')
    ||| c == ' '
    ||| c == '\u{85}'
    ||| c == '\u{a0}'
    ||| c == '\u{1680}'
    ||| ('\u{2000}' <= c && c <= '\u{200a}')
    ||| c == '\u{2028}'
    ||| c == '\u{2029}'
    ||| c == '\u{202f}'
    ||| c == '\u{205f}'
    ||| c == '\u{3000}'
}

/// Whether `c` is white space.
pub fn white(c: char) -> (b: bool)
    ensures
        b == is_white(c),
{
    ('\u{9}' <= c && c <= '\u{d}') || c == ' ' || c == '\u{85}' || c == '\u{a0}' || c == '\u{1680}'
        || ('\u{2000}' <= c && c <= '\u{200a}') || c == '\u{2028}' || c == '\u{2029}' || c
        == '\u{202f}' || c == '\u{205f}' || c == '\u{3000}'
}

/// The number of characters before the first white space.
pub open spec fn word_len(s: Seq<char>) -> nat
    decreases s.len(),
{
    if s.len() == 0 || is_white(s[0]) {
        0
    } else {
        1 + word_len(s.drop_first())
    }
}

/// A word is at most as long as the text, and non-empty where the text
/// starts with a character that is not white space.
pub proof fn lemma_word_len(s: Seq<char>)
    ensures
        word_len(s) <= s.len(),
        s.len() > 0 && !is_white(s[0]) ==> word_len(s) >= 1,
    decreases s.len(),
{
    if s.len() > 0 && !is_white(s[0]) {
        lemma_word_len(s.drop_first());
    }
}

/// A run of `k` characters without white space that ends the text or
/// white space is `word_len` long.
proof fn lemma_word_len_exact(s: Seq<char>, k: int)
    requires
        0 <= k <= s.len(),
        forall|m: int| 0 <= m < k ==> !is_white(#[trigger] s[m]),
        k == s.len() || is_white(s[k]),
    ensures
        word_len(s) == k,
    decreases k,
{
    if k > 0 {
        let t = s.drop_first();
        assert forall|m: int| 0 <= m < k - 1 implies !is_white(#[trigger] t[m]) by {
            assert(t[m] == s[m + 1]);
        }
        if k < s.len() {
            assert(t[k - 1] == s[k]);
        }
        lemma_word_len_exact(t, k - 1);
    }
}

/// The words of a text, as `str::split_whitespace` gives them: the maximal
/// runs of characters that are not white space.
pub open spec fn words(s: Seq<char>) -> Seq<Seq<char>>
    decreases s.len(),
{
    if s.len() == 0 {
        Seq::empty()
    } else if is_white(s[0]) {
        words(s.drop_first())
    } else {
        proof {
            lemma_word_len(s);
        }
        seq![s.take(word_len(s) as int)] + words(s.skip(word_len(s) as int))
    }
}

/// The words of a text.
pub fn split_words(s: &str) -> (v: Vec<String>)
    ensures
        str_views(v@) == words(s@),
{
    let cs = chars_of(s);
    let n = cs.len();
    let mut v: Vec<String> = Vec::new();
    let mut i: usize = 0;
    proof {
        assert(s@.skip(0) =~= s@);
        assert(str_views(v@) + words(s@) =~= words(s@));
    }
    while i < n
        invariant
            n == s@.len(),
            cs@ == s@,
            i <= n,
            words(s@) == str_views(v@) + words(s@.skip(i as int)),
        decreases n - i,
    {
        let t = Ghost(s@.skip(i as int));
        if white(cs[i]) {
            proof {
                assert(t@[0] == cs@[i as int]);
                assert(t@.drop_first() =~= s@.skip(i + 1));
            }
            i = i + 1;
        } else {
            let mut j: usize = i;
            while j < n && !white(cs[j])
                invariant
                    n == s@.len(),
                    cs@ == s@,
                    i <= j <= n,
                    forall|m: int| i <= m < j ==> !is_white(#[trigger] s@[m]),
                decreases n - j,
            {
                j = j + 1;
            }
            let w = s.substring_char(i, j).to_string();
            proof {
                assert forall|m: int| 0 <= m < j - i implies !is_white(#[trigger] t@[m]) by {
                    assert(t@[m] == s@[i + m]);
                }
                if j < n {
                    assert(t@[j - i] == s@[j as int]);
                }
                lemma_word_len_exact(t@, j - i);
                assert(t@.take(j - i) =~= s@.subrange(i as int, j as int));
                assert(t@.skip(j - i) =~= s@.skip(j as int));
            }
            let ghost before = str_views(v@);
            v.push(w);
            proof {
                assert(str_views(v@) =~= before.push(s@.subrange(i as int, j as int)));
                assert(before.push(s@.subrange(i as int, j as int)) + words(s@.skip(j as int)) =~= before + (
                seq![s@.subrange(i as int, j as int)] + words(s@.skip(j as int))));
            }
            i = j;
        }
    }
    proof {
        assert(s@.skip(n as int).len() == 0);
        assert(str_views(v@) + Seq::<Seq<char>>::empty() =~= str_views(v@));
    }
    v
}

/// The first position of `c` at or after `i`, or the length of the text.
pub open spec fn first_from(s: Seq<char>, c: char, i: int) -> int
    decreases s.len() - i,
{
    if i < 0 || i >= s.len() {
        s.len() as int
    } else if s[i] == c {
        i
    } else {
        first_from(s, c, i + 1)
    }
}

/// The last position of `c` before `i`, or -1.
pub open spec fn last_before(s: Seq<char>, c: char, i: int) -> int
    decreases i,
{
    if i <= 0 {
        -1
    } else if s[i - 1] == c {
        i - 1
    } else {
        last_before(s, c, i - 1)
    }
}

/// The position of the `(` that opens the command name, or the length.
pub open spec fn open_paren(s: Seq<char>) -> int {
    first_from(s, '(', 0)
}

/// The position of the last `)`, or -1.
pub open spec fn close_paren(s: Seq<char>) -> int {
    last_before(s, ')', s.len() as int)
}

/// An ASCII character, one byte in UTF-8.
pub open spec fn is_ascii_char(c: char) -> bool {
    (c as u32) < 128
}

/// The command name between the parentheses; `unknown` when they are out
/// of order. Without `(` the name starts after the first character.
pub open spec fn stat_name(s: Seq<char>) -> Seq<char> {
    let a = open_paren(s);
    let e = close_paren(s);
    if a < s.len() {
        if a < e {
            s.subrange(a + 1, e)
        } else {
            "unknown"@
        }
    } else if 0 < e {
        s.subrange(1, e)
    } else {
        "unknown"@
    }
}

/// The fields after the command name.
pub open spec fn stat_fields(s: Seq<char>) -> Seq<Seq<char>> {
    words(s.skip(close_paren(s) + 2))
}

/// Field `k` read as a `u64`, or 0 when it is missing or not a number.
pub open spec fn field_u64(f: Seq<Seq<char>>, k: int) -> int {
    if k < f.len() {
        match parse_unsigned(f[k], u64::MAX as int) {
            Ok(v) => v,
            Err(_) => 0,
        }
    } else {
        0
    }
}

/// Field `k` read as an `i32`, or 0 when it is missing or not a number.
pub open spec fn field_i32(f: Seq<Seq<char>>, k: int) -> int {
    if k < f.len() {
        match parse_signed(f[k], i32::MAX as int) {
            Ok(v) => v,
            Err(_) => 0,
        }
    } else {
        0
    }
}

/// A `stat` line can be read: it has a `)`, followed by an ASCII character
/// (the fields start two bytes after it); without a `(`, a name before the
/// `)` starts after a one-byte character; and the user and system times add
/// up within a `u64`.
pub open spec fn stat_readable(s: Seq<char>) -> bool {
    let e = close_paren(s);
    &&& e >= 0
    &&& e + 1 < s.len()
    &&& is_ascii_char(s[e + 1])
    &&& (open_paren(s) == s.len() && 0 < e ==> is_ascii_char(s[0]))
    &&& field_u64(stat_fields(s), 11) + field_u64(stat_fields(s), 12) <= u64::MAX
}

/// What the monitor reads from a `stat` line.
#[derive(Debug, Clone, PartialEq, Eq)]
pub struct StatLine {
    /// The command name.
    pub name: String,
    /// The one-letter state (`?` when missing).
    pub state: String,
    pub ppid: i32,
    /// User plus system time, in clock ticks.
    pub total_time: u64,
    /// When the process started, in clock ticks after boot.
    pub start_time: u64,
}

/// The state field, or `?` when missing.
pub open spec fn stat_state(s: Seq<char>) -> Seq<char> {
    if stat_fields(s).len() > 0 {
        stat_fields(s)[0]
    } else {
        "?"@
    }
}

/// `l` holds what the `stat` line `s` says.
pub open spec fn stat_of(s: Seq<char>, l: StatLine) -> bool {
    let f = stat_fields(s);
    &&& l.name@ == stat_name(s)
    &&& l.state@ == stat_state(s)
    &&& l.ppid == field_i32(f, 1)
    &&& l.total_time == field_u64(f, 11) + field_u64(f, 12)
    &&& l.start_time == field_u64(f, 19)
}

fn first_index(cs: &Vec<char>, c: char) -> (r: usize)
    ensures
        r == first_from(cs@, c, 0),
{
    let n = cs.len();
    let mut i: usize = 0;
    while i < n
        invariant
            n == cs@.len(),
            i <= n,
            first_from(cs@, c, 0) == first_from(cs@, c, i as int),
        decreases n - i,
    {
        if cs[i] == c {
            return i;
        }
        i = i + 1;
    }
    i
}

fn last_index(cs: &Vec<char>, c: char) -> (r: Option<usize>)
    ensures
        match r {
            Some(i) => i as int == last_before(cs@, c, cs@.len() as int),
            None => last_before(cs@, c, cs@.len() as int) == -1,
        },
{
    let mut i: usize = cs.len();
    while i > 0
        invariant
            i <= cs@.len(),
            last_before(cs@, c, cs@.len() as int) == last_before(cs@, c, i as int),
        decreases i,
    {
        if cs[i - 1] == c {
            return Some(i - 1);
        }
        i = i - 1;
    }
    None
}

proof fn lemma_last_before_range(s: Seq<char>, c: char, i: int)
    requires
        0 <= i <= s.len(),
    ensures
        -1 <= last_before(s, c, i) < i,
        last_before(s, c, i) >= 0 ==> s[last_before(s, c, i)] == c,
    decreases i,
{
    if i > 0 && s[i - 1] != c {
        lemma_last_before_range(s, c, i - 1);
    }
}

proof fn lemma_first_from_range(s: Seq<char>, c: char, i: int)
    requires
        0 <= i <= s.len(),
    ensures
        i <= first_from(s, c, i) <= s.len(),
    decreases s.len() - i,
{
    if i < s.len() && s[i] != c {
        lemma_first_from_range(s, c, i + 1);
    }
}

fn field_as_u64(f: &Vec<String>, k: usize) -> (r: u64)
    ensures
        r == field_u64(str_views(f@), k as int),
{
    if k < f.len() {
        proof {
            assert(str_views(f@)[k as int] == f@[k as int]@);
        }
        match parse_u64(f[k].as_str()) {
            Ok(v) => v,
            Err(_) => 0,
        }
    } else {
        0
    }
}

fn field_as_i32(f: &Vec<String>, k: usize) -> (r: i32)
    ensures
        r == field_i32(str_views(f@), k as int),
{
    if k < f.len() {
        proof {
            assert(str_views(f@)[k as int] == f@[k as int]@);
        }
        match parse_i32(f[k].as_str()) {
            Ok(v) => v,
            Err(_) => 0,
        }
    } else {
        0
    }
}

/// Reads a `stat` line: the command name between the parentheses, then the
/// state, the parent, user and system time and the start time from the
/// white-space separated fields after it. `None` for a line that cannot be
/// read (see `stat_readable`).
pub fn parse_stat(content: &str) -> (r: Option<StatLine>)
    ensures
        r is Some <==> stat_readable(content@),
        r matches Some(l) ==> stat_of(content@, l),
{
    let cs = chars_of(content);
    let n = cs.len();
    let a = first_index(&cs, '(');
    let e = match last_index(&cs, ')') {
        Some(e) => e,
        None => return None,
    };
    proof {
        lemma_last_before_range(content@, ')', n as int);
        lemma_first_from_range(content@, '(', 0);
    }
    if e + 1 >= n || !((cs[e + 1] as u32) < 128) {
        return None;
    }
    if a == n && 0 < e && !((cs[0] as u32) < 128) {
        return None;
    }
    let name: String = if a < n {
        if a < e {
            content.substring_char(a + 1, e).to_string()
        } else {
            "unknown".to_string()
        }
    } else if 0 < e {
        content.substring_char(1, e).to_string()
    } else {
        "unknown".to_string()
    };
    let rest = content.substring_char(e + 2, n);
    proof {
        assert(rest@ =~= content@.skip(e + 2));
    }
    let fields = split_words(rest);
    let state: String = if fields.len() > 0 {
        fields[0].clone()
    } else {
        "?".to_string()
    };
    let ppid = field_as_i32(&fields, 1);
    let utime = field_as_u64(&fields, 11);
    let stime = field_as_u64(&fields, 12);
    let start_time = field_as_u64(&fields, 19);
    if utime > u64::MAX - stime {
        return None;
    }
    Some(StatLine { name, state, ppid, total_time: utime + stime, start_time })
}

/// The resident memory, in kB, of a `status` file: the second word of the
/// first line that starts with `VmRSS:` and has one, read as a `u64` (0 when
/// it is not a number); 0 without such a line.
pub open spec fn rss_of(lines: Seq<Seq<char>>) -> int
    decreases lines.len(),
{
    if lines.len() == 0 {
        0
    } else {
        let l = lines[0];
        if l.len() >= "VmRSS:"@.len() && l.take("VmRSS:"@.len() as int) == "VmRSS:"@ && words(l).len() > 1 {
            match parse_unsigned(words(l)[1], u64::MAX as int) {
                Ok(v) => v,
                Err(_) => 0,
            }
        } else {
            rss_of(lines.drop_first())
        }
    }
}

/// The resident memory, in kB, that a `status` file gives.
pub fn vm_rss_kb(status: &str) -> (kb: u64)
    ensures
        kb == rss_of(text_lines(status@)),
{
    let lines = lines_of(status);
    let ghost ls = str_views(lines@);
    let mut i: usize = 0;
    proof {
        assert(ls.skip(0) =~= ls);
    }
    while i < lines.len()
        invariant
            i <= lines@.len(),
            ls == str_views(lines@),
            ls == text_lines(status@),
            rss_of(ls) == rss_of(ls.skip(i as int)),
        decreases lines@.len() - i,
    {
        let line = lines[i].as_str();
        proof {
            assert(ls.skip(i as int)[0] == line@);
            assert(ls.skip(i as int).drop_first() =~= ls.skip(i + 1));
        }
        if starts_with(line, "VmRSS:") {
            let ws = split_words(line);
            if ws.len() > 1 {
                proof {
                    assert(str_views(ws@)[1] == ws@[1]@);
                }
                return match parse_u64(ws[1].as_str()) {
                    Ok(v) => v,
                    Err(_) => 0,
                };
            }
        }
        i = i + 1;
    }
    0
}

/// `str::trim_start`: the text without its leading white space.
pub open spec fn trim_start(s: Seq<char>) -> Seq<char>
    decreases s.len(),
{
    if s.len() > 0 && is_white(s[0]) {
        trim_start(s.drop_first())
    } else {
        s
    }
}

/// `str::trim_end`: the text without its trailing white space.
pub open spec fn trim_end(s: Seq<char>) -> Seq<char>
    decreases s.len(),
{
    if s.len() > 0 && is_white(s.last()) {
        trim_end(s.drop_last())
    } else {
        s
    }
}

/// A command line as shown: the NUL separators turned into spaces, and
/// the white space around it dropped.
pub open spec fn tidy_cmdline(text: Seq<char>) -> Seq<char> {
    trim_end(trim_start(text.map_values(|c: char| if c == '\0' { ' ' } else { c })))
}

/// Turns the NUL separators of a command line into spaces and drops the
/// white space around it.
pub fn tidy_command_line(text: &str) -> (r: String)
    ensures
        r@ == tidy_cmdline(text@),
{
    let cs = chars_of(text);
    let n = cs.len();
    let ghost sp = text@.map_values(|c: char| if c == '\0' { ' ' } else { c });
    let mut sc: Vec<char> = Vec::new();
    let mut i: usize = 0;
    while i < n
        invariant
            n == cs@.len(),
            cs@ == text@,
            i <= n,
            sp == text@.map_values(|c: char| if c == '\0' { ' ' } else { c }),
            sc@ == sp.take(i as int),
        decreases n - i,
    {
        let c = cs[i];
        sc.push(if c == '\0' { ' ' } else { c });
        proof {
            assert(sp.take(i + 1) =~= sp.take(i as int).push(sp[i as int]));
        }
        i = i + 1;
    }
    proof {
        assert(sp.take(n as int) =~= sp);
    }
    let mut a: usize = 0;
    proof {
        assert(sp.skip(0) =~= sp);
    }
    while a < n && white(sc[a])
        invariant
            n == sc@.len(),
            sc@ == sp,
            a <= n,
            trim_start(sp) == trim_start(sp.skip(a as int)),
        decreases n - a,
    {
        proof {
            assert(sp.skip(a as int).drop_first() =~= sp.skip(a + 1));
        }
        a = a + 1;
    }
    let ghost ts = sp.skip(a as int);
    proof {
        assert(trim_start(ts) == ts);
        assert(trim_start(sp) == ts);
    }
    let mut b: usize = n;
    proof {
        assert(sp.subrange(a as int, n as int) =~= ts);
    }
    while b > a && white(sc[b - 1])
        invariant
            n == sc@.len(),
            sc@ == sp,
            a <= b <= n,
            ts == sp.skip(a as int),
            trim_end(ts) == trim_end(sp.subrange(a as int, b as int)),
        decreases b,
    {
        proof {
            assert(sp.subrange(a as int, b as int).drop_last() =~= sp.subrange(a as int, b - 1));
        }
        b = b - 1;
    }
    let mut r = String::new();
    let mut k: usize = a;
    proof {
        assert(r@ =~= sp.subrange(a as int, a as int));
    }
    while k < b
        invariant
            n == sc@.len(),
            sc@ == sp,
            a <= k <= b <= n,
            r@ == sp.subrange(a as int, k as int),
        decreases b - k,
    {
        push_char(&mut r, sc[k]);
        proof {
            assert(sp.subrange(a as int, k + 1) =~= sp.subrange(a as int, k as int).push(sp[k as int]));
        }
        k = k + 1;
    }
    r
}

/// `String::from_utf8_lossy`'s text for a byte string: each invalid
/// sequence replaced by U+FFFD; a function of the bytes alone.
pub uninterp spec fn lossy_text(bytes: Seq<u8>) -> Seq<char>;

/// `String::from_utf8_lossy`: the text of the bytes, with U+FFFD for each
/// invalid sequence; for valid UTF-8, exactly the decoded text.
#[verifier::external_body]
fn utf8_lossy(bytes: &[u8]) -> (s: String)
    ensures
        s@ == lossy_text(bytes@),
        valid_utf8(bytes@) ==> s@ == decode_utf8(bytes@),
{
    String::from_utf8_lossy(bytes).into_owned()
}

/// The command line of a process from the raw bytes of its `cmdline`
/// file: decoded (invalid sequences replaced), the NUL separators turned
/// into spaces, and trimmed.
pub fn command_line(raw: &[u8]) -> (r: String)
    ensures
        r@ == tidy_cmdline(lossy_text(raw@)),
        valid_utf8(raw@) ==> r@ == tidy_cmdline(decode_utf8(raw@)),
{
    let text = utf8_lossy(raw);
    tidy_command_line(text.as_str())
}

/// The command line shown for a process: `[name]` when it has none.
pub open spec fn shown_cmdline(cmdline: Seq<char>, name: Seq<char>) -> Seq<char> {
    if cmdline.len() == 0 {
        "["@ + name + "]"@
    } else {
        cmdline
    }
}

/// The first service, in order, whose process is `pid`.
pub open spec fn service_with_pid(pids: Seq<(Seq<char>, i32)>, pid: i32) -> Option<Seq<char>>
    decreases pids.len(),
{
    if pids.len() == 0 {
        None
    } else if pids[0].1 == pid {
        Some(pids[0].0)
    } else {
        service_with_pid(pids.drop_first(), pid)
    }
}

/// The first service, in order, whose process is `pid`.
pub fn managing_service(service_pids: &Vec<(String, i32)>, pid: i32) -> (r: Option<String>)
    ensures
        match service_with_pid(crate::control::pid_views(service_pids@), pid) {
            Some(n) => r matches Some(s) && s@ == n,
            None => r is None,
        },
{
    let ghost pv = crate::control::pid_views(service_pids@);
    let mut i: usize = 0;
    proof {
        assert(pv.skip(0) =~= pv);
    }
    while i < service_pids.len()
        invariant
            i <= service_pids@.len(),
            pv == crate::control::pid_views(service_pids@),
            service_with_pid(pv, pid) == service_with_pid(pv.skip(i as int), pid),
        decreases service_pids@.len() - i,
    {
        proof {
            assert(pv.skip(i as int)[0] == pv[i as int]);
            assert(pv.skip(i as int).drop_first() =~= pv.skip(i + 1));
        }
        if service_pids[i].1 == pid {
            return Some(service_pids[i].0.clone());
        }
        i = i + 1;
    }
    None
}

/// The record of a process: what its `stat` line, command line and memory
/// say, its CPU share (as `f32` bits), and the service it belongs to.
pub fn process_info(
    pid: i32,
    stat: StatLine,
    cmdline: String,
    memory_kb: u64,
    cpu_percent_bits: u32,
    service_pids: &Vec<(String, i32)>,
) -> (p: ProcessInfo)
    ensures
        p.pid == pid,
        p.ppid == stat.ppid,
        p.name@ == stat.name@,
        p.cmdline@ == shown_cmdline(cmdline@, stat.name@),
        p.state@ == stat.state@,
        p.cpu_percent_bits == cpu_percent_bits,
        p.memory_kb == memory_kb,
        p.start_time == stat.start_time,
        match service_with_pid(crate::control::pid_views(service_pids@), pid) {
            Some(n) => p.managed && (p.service_name matches Some(s) && s@ == n),
            None => !p.managed && p.service_name is None,
        },
{
    let service_name = managing_service(service_pids, pid);
    let managed = service_name.is_some();
    let shown = if cmdline.as_str().is_empty() {
        concat3("[", stat.name.as_str(), "]")
    } else {
        cmdline
    };
    ProcessInfo {
        pid,
        ppid: stat.ppid,
        name: stat.name,
        cmdline: shown,
        state: stat.state,
        cpu_percent_bits,
        memory_kb,
        start_time: stat.start_time,
        managed,
        service_name,
    }
}

/// Ordered by process id.
pub open spec fn by_pid(v: Seq<ProcessInfo>) -> bool {
    forall|i: int, j: int| 0 <= i < j < v.len() ==> (#[trigger] v[i]).pid <= (#[trigger] v[j]).pid
}

/// The processes ordered by process id (those with equal ids keep their order).
pub fn sort_by_pid(v: Vec<ProcessInfo>) -> (r: Vec<ProcessInfo>)
    ensures
        by_pid(r@),
        r@.to_multiset() == v@.to_multiset(),
{
    let mut src = v;
    let ghost orig = src@;
    let mut r: Vec<ProcessInfo> = Vec::new();
    proof {
        broadcast use vstd::multiset::group_multiset_axioms;
        r@.to_multiset_ensures();
        vstd::multiset::lemma_multiset_empty_len(r@.to_multiset());
        assert(r@.to_multiset().add(src@.to_multiset()) =~= orig.to_multiset());
    }
    while src.len() > 0
        invariant
            by_pid(r@),
            r@.to_multiset().add(src@.to_multiset()) == orig.to_multiset(),
        decreases src@.len(),
    {
        let ghost before_src = src@;
        let x = src.remove(0);
        let mut k: usize = r.len();
        while k > 0 && r[k - 1].pid > x.pid
            invariant
                k <= r@.len(),
                by_pid(r@),
                forall|j: int| k <= j < r@.len() ==> (#[trigger] r@[j]).pid > x.pid,
            decreases k,
        {
            k = k - 1;
        }
        let ghost old_r = r@;
        r.insert(k, x);
        proof {
            broadcast use vstd::multiset::group_multiset_axioms;
            let nr = r@;
            assert(nr =~= old_r.insert(k as int, x));
            assert forall|a: int, b: int| 0 <= a < b < nr.len() implies (#[trigger] nr[a]).pid <= (#[trigger] nr[b]).pid by {
                if a < k && b < k {
                    assert(nr[a] == old_r[a] && nr[b] == old_r[b]);
                } else if a < k && b == k {
                    assert(nr[a] == old_r[a]);
                    if a < k - 1 {
                        assert(old_r[a].pid <= old_r[k - 1].pid);
                    }
                } else if a < k && b > k {
                    assert(nr[a] == old_r[a] && nr[b] == old_r[b - 1]);
                } else if a == k {
                    assert(nr[b] == old_r[b - 1]);
                } else {
                    assert(nr[a] == old_r[a - 1] && nr[b] == old_r[b - 1]);
                }
            }
            vstd::seq_lib::to_multiset_insert(old_r, k as int, x);
            vstd::seq_lib::to_multiset_remove(before_src, 0);
            before_src.to_multiset_ensures();
            assert(before_src.contains(x)) by {
                assert(before_src[0] == x);
            }
            assert(r@.to_multiset().add(src@.to_multiset()) =~= orig.to_multiset());
        }
    }
    proof {
        broadcast use vstd::multiset::group_multiset_axioms;
        src@.to_multiset_ensures();
        vstd::multiset::lemma_multiset_empty_len(src@.to_multiset());
        assert(r@.to_multiset().add(src@.to_multiset()) =~= r@.to_multiset());
    }
    r
}

/// The controller named by a line of the cgroups table, when the line has
/// exactly four words and the last reads as a non-zero `i32`.
pub open spec fn enabled_controller(line: Seq<char>) -> Option<Seq<char>> {
    let w = words(line);
    if w.len() == 4 && (parse_signed(w[3], i32::MAX as int) matches Ok(v) && v != 0) {
        Some(w[0])
    } else {
        None
    }
}

/// The enabled controllers of the lines, in order.
pub open spec fn enabled_controllers(lines: Seq<Seq<char>>) -> Seq<Seq<char>>
    decreases lines.len(),
{
    if lines.len() == 0 {
        Seq::empty()
    } else {
        let rest = enabled_controllers(lines.drop_last());
        match enabled_controller(lines.last()) {
            Some(n) => rest.push(n),
            None => rest,
        }
    }
}

/// The lines after the first.
pub open spec fn after_header(lines: Seq<Seq<char>>) -> Seq<Seq<char>> {
    if lines.len() == 0 {
        lines
    } else {
        lines.skip(1)
    }
}

/// The controllers to mount from the kernel's cgroups table: after the
/// header line, those whose line has four words and is enabled.
pub fn enabled_cgroups(table: &str) -> (v: Vec<String>)
    ensures
        str_views(v@) == enabled_controllers(after_header(text_lines(table@))),
{
    let lines = lines_of(table);
    let ghost ls = str_views(lines@);
    let mut v: Vec<String> = Vec::new();
    if lines.len() == 0 {
        return v;
    }
    let mut i: usize = 1;
    proof {
        assert(ls.skip(1).take(0) =~= Seq::<Seq<char>>::empty());
    }
    while i < lines.len()
        invariant
            1 <= i <= lines@.len(),
            ls == str_views(lines@),
            ls == text_lines(table@),
            str_views(v@) == enabled_controllers(ls.skip(1).take(i - 1)),
        decreases lines@.len() - i,
    {
        let ghost t = ls.skip(1).take(i as int);
        proof {
            assert(t.drop_last() =~= ls.skip(1).take(i - 1));
            assert(t.last() == lines@[i as int]@);
        }
        let w = split_words(lines[i].as_str());
        if w.len() == 4 {
            proof {
                assert(str_views(w@)[3] == w@[3]@);
                assert(str_views(w@)[0] == w@[0]@);
            }
            match parse_i32(w[3].as_str()) {
                Ok(x) => {
                    if x != 0 {
                        let ghost before = str_views(v@);
                        v.push(w[0].clone());
                        proof {
                            assert(str_views(v@) =~= before.push(w@[0]@));
                        }
                    }
                },
                Err(_) => {},
            }
        }
        i = i + 1;
    }
    proof {
        assert(ls.skip(1).take(i - 1) =~= ls.skip(1));
    }
    v
}

} // verus!
