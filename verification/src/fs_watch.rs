//! The file-system monitor's bookkeeping: path normalisation, hexadecimal
//! digests, tracked-file records and the list of ignored paths.

use vstd::prelude::*;
use crate::deps::str_views;
use crate::text::push_char;

verus! {

/// Applies one path segment: `.` and empty segments change nothing, `..`
/// drops the last component, anything else is appended.
pub open spec fn apply_segment(parts: Seq<Seq<char>>, seg: Seq<char>) -> Seq<Seq<char>> {
    if seg.len() == 0 || seg == seq!['.'] {
        parts
    } else if seg == seq!['.', '.'] {
        if parts.len() > 0 {
            parts.drop_last()
        } else {
            parts
        }
    } else {
        parts.push(seg)
    }
}

/// The components kept so far and the segment being read, after reading `s`.
pub open spec fn normal_scan(s: Seq<char>) -> (Seq<Seq<char>>, Seq<char>)
    decreases s.len(),
{
    if s.len() == 0 {
        (Seq::empty(), Seq::empty())
    } else {
        let (parts, cur) = normal_scan(s.drop_last());
        if s.last() == '/' {
            (apply_segment(parts, cur), Seq::empty())
        } else {
            (parts, cur.push(s.last()))
        }
    }
}

/// The components of a path once `.` and `..` are resolved lexically.
pub open spec fn normal_parts(s: Seq<char>) -> Seq<Seq<char>> {
    let (parts, cur) = normal_scan(s);
    apply_segment(parts, cur)
}

/// Components joined by `/`.
pub open spec fn join_parts(parts: Seq<Seq<char>>) -> Seq<char>
    decreases parts.len(),
{
    if parts.len() == 0 {
        Seq::empty()
    } else if parts.len() == 1 {
        parts[0]
    } else {
        join_parts(parts.drop_last()) + seq!['/'] + parts.last()
    }
}

/// A path rewritten without `.` and `..` components, as folding
/// `Path::components` into a `PathBuf` writes it.
pub open spec fn lexical_normal(s: Seq<char>) -> Seq<char> {
    if s.len() > 0 && s[0] == '/' {
        seq!['/'] + join_parts(normal_parts(s))
    } else {
        join_parts(normal_parts(s))
    }
}

/// `path` made absolute against `base`, as `Path::join` does.
pub open spec fn joined_path(base: Seq<char>, path: Seq<char>) -> Seq<char> {
    if (path.len() > 0 && path[0] == '/') || base.len() == 0 {
        path
    } else if base.last() == '/' {
        base + path
    } else {
        base + seq!['/'] + path
    }
}

/// The key under which the monitor tracks `path`: its canonical form when
/// the file system could give one, else `path` joined to the watched
/// directory and normalised lexically.
pub open spec fn path_key(watch_path: Option<Seq<char>>, path: Seq<char>, canonical: Option<Seq<char>>) -> Seq<char> {
    match canonical {
        Some(c) => c,
        None => lexical_normal(joined_path(
            match watch_path {
                Some(w) => w,
                None => seq!['.'],
            },
            path,
        )),
    }
}

/// A path segment that normalisation keeps as it is: not empty, without
/// `/`, and neither `.` nor `..`.
pub open spec fn plain_segment(seg: Seq<char>) -> bool {
    &&& seg.len() > 0
    &&& seg != seq!['.']
    &&& seg != seq!['.', '.']
    &&& forall|i: int| 0 <= i < seg.len() ==> seg[i] != '/'
}

proof fn lemma_scan_no_slash(q: Seq<char>, w: Seq<char>)
    requires
        forall|i: int| 0 <= i < w.len() ==> w[i] != '/',
    ensures
        normal_scan(q + w) == (normal_scan(q).0, normal_scan(q).1 + w),
    decreases w.len(),
{
    if w.len() == 0 {
        assert(q + w =~= q);
        assert(normal_scan(q).1 + w =~= normal_scan(q).1);
    } else {
        lemma_scan_no_slash(q, w.drop_last());
        assert((q + w).drop_last() =~= q + w.drop_last());
        assert((q + w).last() == w[w.len() - 1]);
        assert((normal_scan(q).1 + w.drop_last()).push(w.last()) =~= normal_scan(q).1 + w);
    }
}

/// Normalisation keeps every component other than `.` and `..`: a plain
/// segment after a `/` is added to the components of what comes before,
/// and, when something is left of that, to its normal form after a `/`.
pub proof fn lemma_normalize_keeps_segment(p: Seq<char>, seg: Seq<char>)
    requires
        plain_segment(seg),
    ensures
        normal_parts(p + seq!['/'] + seg) == normal_parts(p).push(seg),
        normal_parts(p).len() > 0 ==> lexical_normal(p + seq!['/'] + seg) == lexical_normal(p) + seq!['/'] + seg,
{
    let q = p + seq!['/'];
    assert(q.drop_last() =~= p);
    assert(q.last() == '/');
    assert(normal_scan(q) == (normal_parts(p), Seq::<char>::empty()));
    lemma_scan_no_slash(q, seg);
    assert(Seq::<char>::empty() + seg =~= seg);
    let parts = normal_parts(p);
    assert(normal_parts(p + seq!['/'] + seg) == parts.push(seg));
    if parts.len() > 0 {
        let x = p + seq!['/'] + seg;
        assert(parts.push(seg).drop_last() =~= parts);
        assert(join_parts(parts.push(seg)) == join_parts(parts) + seq!['/'] + seg);
        assert(p.len() > 0 ==> x[0] == p[0]);
        if p.len() == 0 {
            assert(normal_scan(p) == (Seq::<Seq<char>>::empty(), Seq::<char>::empty()));
            assert(false);
        }
        if p[0] == '/' {
            assert(seq!['/'] + (join_parts(parts) + seq!['/'] + seg) =~= seq!['/'] + join_parts(parts) + seq!['/']
                + seg);
        }
    }
}

/// The absolute path whose components are `ws`.
pub open spec fn absolute_path(ws: Seq<Seq<char>>) -> Seq<char> {
    seq!['/'] + join_parts(ws)
}

proof fn lemma_absolute_parts(ws: Seq<Seq<char>>)
    requires
        ws.len() > 0,
        forall|k: int| 0 <= k < ws.len() ==> plain_segment(#[trigger] ws[k]),
    ensures
        normal_parts(absolute_path(ws)) == ws,
    decreases ws.len(),
{
    let last = ws.last();
    assert(plain_segment(ws[ws.len() - 1]));
    if ws.len() == 1 {
        lemma_normalize_keeps_segment(Seq::empty(), last);
        assert(normal_scan(Seq::<char>::empty()) == (Seq::<Seq<char>>::empty(), Seq::<char>::empty()));
        assert(Seq::<char>::empty() + seq!['/'] + last =~= absolute_path(ws));
        assert(Seq::<Seq<char>>::empty().push(last) =~= ws);
    } else {
        let prev = ws.drop_last();
        assert forall|k: int| 0 <= k < prev.len() implies plain_segment(#[trigger] prev[k]) by {
            assert(prev[k] == ws[k]);
        }
        lemma_absolute_parts(prev);
        lemma_normalize_keeps_segment(absolute_path(prev), last);
        assert(absolute_path(prev) + seq!['/'] + last =~= absolute_path(ws));
        assert(prev.push(last) =~= ws);
    }
}

/// A path that starts with `/` and has no `.`, `..` or empty component (no
/// doubled or trailing `/`) is its own normal form.
pub proof fn lemma_normalize_clean_path(ws: Seq<Seq<char>>)
    requires
        ws.len() > 0,
        forall|k: int| 0 <= k < ws.len() ==> plain_segment(#[trigger] ws[k]),
    ensures
        lexical_normal(absolute_path(ws)) == absolute_path(ws),
{
    lemma_absolute_parts(ws);
    assert(absolute_path(ws)[0] == '/');
}

fn join_strings(parts: &Vec<String>) -> (s: String)
    ensures
        s@ == join_parts(str_views(parts@)),
{
    let mut s = String::new();
    let mut i: usize = 0;
    while i < parts.len()
        invariant
            i <= parts@.len(),
            s@ == join_parts(str_views(parts@.take(i as int))),
        decreases parts@.len() - i,
    {
        proof {
            assert(str_views(parts@.take(i + 1)).drop_last() =~= str_views(parts@.take(i as int)));
        }
        if i > 0 {
            push_char(&mut s, '/');
        }
        s.append(parts[i].as_str());
        proof {
            assert(s@ =~= join_parts(str_views(parts@.take(i + 1))));
        }
        i = i + 1;
    }
    proof {
        assert(parts@.take(i as int) =~= parts@);
    }
    s
}

fn push_segment(parts: &mut Vec<String>, seg: String)
    ensures
        str_views(final(parts)@) == apply_segment(str_views(old(parts)@), seg@),
{
    broadcast use vstd::string::group_string_axioms;

    let n = seg.as_str().unicode_len();
    if n == 0 {
        return;
    }
    if n == 1 && seg.as_str().get_char(0) == '.' {
        proof {
            assert(seg@ =~= seq!['.']);
        }
        return;
    }
    if n == 2 && seg.as_str().get_char(0) == '.' && seg.as_str().get_char(1) == '.' {
        proof {
            assert(seg@ =~= seq!['.', '.']);
        }
        if parts.len() > 0 {
            let ghost before = parts@;
            parts.pop();
            proof {
                assert(str_views(parts@) =~= str_views(before).drop_last());
            }
        }
        return;
    }
    proof {
        if seg@ == seq!['.'] {
            assert(seg@.len() == 1);
        }
        if seg@ == seq!['.', '.'] {
            assert(seg@.len() == 2);
        }
    }
    let ghost before = parts@;
    parts.push(seg);
    proof {
        assert(str_views(parts@) =~= str_views(before).push(seg@));
    }
}

/// Rewrites a path without `.` and `..` components.
pub fn normalize_lexically(path: &str) -> (r: String)
    ensures
        r@ == lexical_normal(path@),
{
    let n = path.unicode_len();
    let mut parts: Vec<String> = Vec::new();
    let mut cur = String::new();
    let mut i: usize = 0;
    while i < n
        invariant
            n == path@.len(),
            i <= n,
            normal_scan(path@.take(i as int)) == (str_views(parts@), cur@),
        decreases n - i,
    {
        let c = path.get_char(i);
        proof {
            assert(path@.take(i + 1).drop_last() =~= path@.take(i as int));
            assert(path@.take(i + 1).last() == c);
        }
        if c == '/' {
            let seg = cur;
            cur = String::new();
            push_segment(&mut parts, seg);
        } else {
            push_char(&mut cur, c);
        }
        i = i + 1;
    }
    proof {
        assert(path@.take(n as int) =~= path@);
    }
    push_segment(&mut parts, cur);
    let body = join_strings(&parts);
    if n > 0 && path.get_char(0) == '/' {
        let mut r = String::new();
        push_char(&mut r, '/');
        r.append(body.as_str());
        r
    } else {
        body
    }
}

/// Normalises a path reported by the watcher before it is used as a key:
/// `watch_path` is the watched directory (the current one when unset) and
/// `canonical` the canonical form of the joined path, when the file system
/// could give one.
pub fn handle_path(path: &str, watch_path: Option<&str>, canonical: Option<&str>) -> (r: String)
    ensures
        r@ == path_key(
            match watch_path {
                Some(w) => Some(w@),
                None => None,
            },
            path@,
            match canonical {
                Some(c) => Some(c@),
                None => None,
            },
        ),
{
    broadcast use vstd::string::group_string_axioms;

    if let Some(c) = canonical {
        return c.to_string();
    }
    let base = match watch_path {
        Some(w) => w,
        None => ".",
    };
    proof {
        reveal_strlit(".");
        assert(base@ == match watch_path {
            Some(w) => w@,
            None => seq!['.'],
        });
    }
    let full = join_path(base, path);
    normalize_lexically(full.as_str())
}

/// `path` made absolute against `base`, as `Path::join` does.
pub fn join_path(base: &str, path: &str) -> (r: String)
    ensures
        r@ == joined_path(base@, path@),
{
    broadcast use vstd::string::group_string_axioms;

    let bn = base.unicode_len();
    if (!path.is_empty() && path.get_char(0) == '/') || bn == 0 {
        return path.to_string();
    }
    let mut r = base.to_string();
    if base.get_char(bn - 1) != '/' {
        push_char(&mut r, '/');
    }
    r.append(path);
    r
}

/// The lower-case hexadecimal digit of `d < 16`.
pub open spec fn hex_digit(d: int) -> char {
    if d < 10 {
        (48 + d) as char
    } else {
        (87 + d) as char
    }
}

/// Two lower-case hexadecimal digits per byte, as `{:02x}` writes them.
pub open spec fn hex_of(bytes: Seq<u8>) -> Seq<char>
    decreases bytes.len(),
{
    if bytes.len() == 0 {
        Seq::empty()
    } else {
        hex_of(bytes.drop_last()) + seq![hex_digit((bytes.last() / 16) as int), hex_digit((bytes.last() % 16) as int)]
    }
}

/// The value of a lower-case hexadecimal digit.
pub open spec fn hex_value(c: char) -> int {
    if c <= '9' {
        c as int - 48
    } else {
        c as int - 87
    }
}

/// The bytes that hexadecimal text spells, two digits per byte.
pub open spec fn hex_decode(h: Seq<char>) -> Seq<u8> {
    Seq::new((h.len() / 2) as nat, |i: int| (hex_value(h[2 * i]) * 16 + hex_value(h[2 * i + 1])) as u8)
}

proof fn lemma_hex_digit_value(d: int)
    requires
        0 <= d < 16,
    ensures
        hex_value(hex_digit(d)) == d,
        ('0' <= hex_digit(d) <= '9') || ('a' <= hex_digit(d) <= 'f'),
{
}

/// Each byte is written as two lower-case hexadecimal digits, high half
/// first, so the text is twice as long as the bytes and reading it back
/// two digits at a time gives the bytes again.
pub proof fn lemma_hex_pairs(bytes: Seq<u8>)
    ensures
        hex_of(bytes).len() == 2 * bytes.len(),
        forall|i: int|
            0 <= i < bytes.len() ==> #[trigger] hex_of(bytes)[2 * i] == hex_digit((bytes[i] / 16) as int)
                && hex_of(bytes)[2 * i + 1] == hex_digit((bytes[i] % 16) as int),
        hex_decode(hex_of(bytes)) == bytes,
    decreases bytes.len(),
{
    if bytes.len() > 0 {
        let pre = bytes.drop_last();
        lemma_hex_pairs(pre);
        let h = hex_of(bytes);
        assert forall|i: int| 0 <= i < bytes.len() implies #[trigger] h[2 * i] == hex_digit((bytes[i] / 16) as int)
            && h[2 * i + 1] == hex_digit((bytes[i] % 16) as int) by {
            if i < pre.len() {
                assert(pre[i] == bytes[i]);
                assert(h[2 * i] == hex_of(pre)[2 * i]);
                assert(h[2 * i + 1] == hex_of(pre)[2 * i + 1]);
            } else {
                assert(bytes.last() == bytes[i]);
            }
        }
        assert forall|i: int| 0 <= i < bytes.len() implies #[trigger] hex_decode(h)[i] == bytes[i] by {
            assert(h[2 * i] == hex_digit((bytes[i] / 16) as int));
            lemma_hex_digit_value((bytes[i] / 16) as int);
            lemma_hex_digit_value((bytes[i] % 16) as int);
        }
        assert(hex_decode(h) =~= bytes);
    } else {
        assert(hex_decode(hex_of(bytes)) =~= bytes);
    }
}

fn hex_char(d: u8) -> (c: char)
    requires
        d < 16,
    ensures
        c == hex_digit(d as int),
{
    if d < 10 {
        (48u8 + d) as char
    } else {
        (87u8 + d) as char
    }
}

/// The bytes in lower-case hexadecimal, two digits each.
pub fn bytes_to_hex(bytes: &[u8]) -> (s: String)
    ensures
        s@ == hex_of(bytes@),
{
    let mut s = String::new();
    let mut i: usize = 0;
    while i < bytes.len()
        invariant
            i <= bytes@.len(),
            s@ == hex_of(bytes@.take(i as int)),
        decreases bytes@.len() - i,
    {
        let b = bytes[i];
        proof {
            assert(bytes@.take(i + 1).drop_last() =~= bytes@.take(i as int));
            assert(bytes@.take(i + 1).last() == b);
        }
        push_char(&mut s, hex_char(b / 16));
        push_char(&mut s, hex_char(b % 16));
        proof {
            assert(s@ =~= hex_of(bytes@.take(i + 1)));
        }
        i = i + 1;
    }
    proof {
        assert(bytes@.take(i as int) =~= bytes@);
    }
    s
}

/// What a tracked path is.
#[derive(Debug, Clone, Copy, PartialEq, Eq, Structural)]
pub enum FileType {
    File,
    Directory,
}

/// Where a tracked file is in its write cycle.
#[derive(Debug, Clone, Copy, PartialEq, Eq, Structural)]
pub enum FileState {
    Created,
    Modified,
    /// Closed after writing; its digest is recorded.
    Closed,
}

/// What the monitor records of a tracked file.
#[derive(Debug, Clone, Copy, PartialEq, Eq, Structural)]
pub struct FileInfo {
    pub file_type: FileType,
    pub state: FileState,
    /// Number of digests recorded for the file.
    pub version: usize,
}

/// Whether a glob pattern compiles (`glob::Pattern::new` accepts it).
pub uninterp spec fn glob_compiles(pattern: Seq<char>) -> bool;

/// Whether a compiled glob pattern matches a path (`glob::Pattern::matches`).
pub uninterp spec fn glob_matches(pattern: Seq<char>, path: Seq<char>) -> bool;

/// Compiles `pattern` with `glob::Pattern::new` and, when it compiles,
/// matches `path` against it with `glob::Pattern::matches`. Both depend on
/// their arguments alone; the result is `None` exactly when the pattern does
/// not compile.
#[verifier::external_body]
fn glob_match(pattern: &str, path: &str) -> (r: Option<bool>)
    ensures
        r is Some == glob_compiles(pattern@),
        r matches Some(b) ==> b == glob_matches(pattern@, path@),
{
    match glob::Pattern::new(pattern) {
        Ok(p) => Some(p.matches(path)),
        Err(_) => None,
    }
}

/// Glob patterns of paths the monitor does not track.
pub struct IgnoreList {
    patterns: Vec<String>,
}

impl IgnoreList {
    #[verifier::type_invariant]
    spec fn all_compile(self) -> bool {
        forall|k: int| 0 <= k < self.patterns@.len() ==> glob_compiles(#[trigger] self.patterns@[k]@)
    }

    /// The patterns, in the order they were added.
    pub closed spec fn patterns(self) -> Seq<Seq<char>> {
        str_views(self.patterns@)
    }

    /// An empty list.
    pub fn new() -> (l: Self)
        ensures
            l.patterns().len() == 0,
    {
        IgnoreList { patterns: Vec::new() }
    }

    /// Number of patterns.
    pub fn len(&self) -> (n: usize)
        ensures
            n == self.patterns().len(),
    {
        self.patterns.len()
    }

    /// The list holds no pattern.
    pub fn is_empty(&self) -> (b: bool)
        ensures
            b == (self.patterns().len() == 0),
    {
        self.patterns.len() == 0
    }

    /// Adds a pattern if it compiles; answers whether it did.
    pub fn add_pattern(&mut self, pattern: String) -> (added: bool)
        ensures
            added == glob_compiles(pattern@),
            added ==> final(self).patterns() == old(self).patterns().push(pattern@),
            !added ==> final(self).patterns() == old(self).patterns(),
    {
        proof {
            use_type_invariant(&*self);
        }
        match glob_match(pattern.as_str(), "") {
            None => false,
            Some(_) => {
                let ghost before = self.patterns@;
                let mut v: Vec<String> = Vec::new();
                std::mem::swap(&mut v, &mut self.patterns);
                v.push(pattern);
                proof {
                    assert(str_views(v@) =~= str_views(before).push(v@.last()@));
                    assert forall|k: int| 0 <= k < v@.len() implies glob_compiles(#[trigger] v@[k]@) by {
                        if k < before.len() {
                            assert(v@[k] == before[k]);
                        }
                    }
                }
                self.patterns = v;
                true
            },
        }
    }

    /// Some pattern matches the path, or matches it as a directory (with a
    /// trailing `/`), so that `dir/**` also covers `dir` itself.
    pub open spec fn ignores(self, path: Seq<char>) -> bool {
        exists|k: int|
            0 <= k < self.patterns().len() && (glob_matches(#[trigger] self.patterns()[k], path)
                || glob_matches(self.patterns()[k], path.push('/')))
    }

    /// Whether the path is ignored.
    pub fn is_ignored(&self, path: &str) -> (b: bool)
        ensures
            b == self.ignores(path@),
    {
        proof {
            use_type_invariant(self);
        }
        let mut as_dir = path.to_string();
        push_char(&mut as_dir, '/');
        let mut i: usize = 0;
        while i < self.patterns.len()
            invariant
                i <= self.patterns@.len(),
                as_dir@ == path@.push('/'),
                forall|k: int| 0 <= k < self.patterns@.len() ==> glob_compiles(#[trigger] self.patterns@[k]@),
                forall|k: int|
                    0 <= k < i ==> !glob_matches(#[trigger] self.patterns()[k], path@) && !glob_matches(
                        self.patterns()[k],
                        path@.push('/'),
                    ),
            decreases self.patterns@.len() - i,
        {
            proof {
                assert(self.patterns()[i as int] == self.patterns@[i as int]@);
            }
            match glob_match(self.patterns[i].as_str(), path) {
                Some(true) => {
                    return true;
                },
                _ => {},
            }
            match glob_match(self.patterns[i].as_str(), as_dir.as_str()) {
                Some(true) => {
                    return true;
                },
                _ => {},
            }
            i = i + 1;
        }
        false
    }
}

} // verus!
