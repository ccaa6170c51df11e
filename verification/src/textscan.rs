//! Searching text and splitting it into lines.

use vstd::prelude::*;
use crate::deps::str_views;
use crate::text::push_char;

verus! {

/// `needle` occurs in `hay` at position `i`.
pub open spec fn occurs_at(hay: Seq<char>, needle: Seq<char>, i: int) -> bool {
    0 <= i && i + needle.len() <= hay.len() && hay.subrange(i, i + needle.len()) == needle
}

/// The first position, from `i` on, where `needle` occurs in `hay`.
pub open spec fn find_from(hay: Seq<char>, needle: Seq<char>, i: int) -> Option<int>
    decreases hay.len() + 1 - i,
{
    if i < 0 || i + needle.len() > hay.len() {
        None
    } else if occurs_at(hay, needle, i) {
        Some(i)
    } else {
        find_from(hay, needle, i + 1)
    }
}

/// `find_from` finds the first occurrence from `i` on.
pub proof fn lemma_find_from(hay: Seq<char>, needle: Seq<char>, i: int)
    requires
        0 <= i,
    ensures
        find_from(hay, needle, i) matches Some(p) ==> i <= p && occurs_at(hay, needle, p) && forall|j: int|
            i <= j < p ==> !occurs_at(hay, needle, j),
        find_from(hay, needle, i) is None ==> forall|j: int| i <= j ==> !occurs_at(hay, needle, j),
    decreases hay.len() + 1 - i,
{
    if i + needle.len() <= hay.len() && !occurs_at(hay, needle, i) {
        lemma_find_from(hay, needle, i + 1);
    }
}

/// The characters of a text.
pub fn chars_of(s: &str) -> (v: Vec<char>)
    ensures
        v@ == s@,
{
    let n = s.unicode_len();
    let mut v: Vec<char> = Vec::new();
    let mut i: usize = 0;
    while i < n
        invariant
            n == s@.len(),
            i <= n,
            v@ == s@.take(i as int),
        decreases n - i,
    {
        v.push(s.get_char(i));
        proof {
            assert(s@.take(i + 1) =~= s@.take(i as int).push(s@[i as int]));
        }
        i = i + 1;
    }
    proof {
        assert(s@.take(n as int) =~= s@);
    }
    v
}

fn matches_at(hay: &Vec<char>, needle: &Vec<char>, i: usize) -> (b: bool)
    requires
        i + needle@.len() <= hay@.len(),
    ensures
        b == occurs_at(hay@, needle@, i as int),
{
    let hl = hay.len();
    let mut k: usize = 0;
    while k < needle.len()
        invariant
            hl == hay@.len(),
            i + needle@.len() <= hay@.len(),
            k <= needle@.len(),
            forall|j: int| 0 <= j < k ==> hay@[i + j] == needle@[j],
        decreases needle@.len() - k,
    {
        if hay[i + k] != needle[k] {
            proof {
                assert(hay@.subrange(i as int, i + needle@.len())[k as int] != needle@[k as int]);
            }
            return false;
        }
        k = k + 1;
    }
    proof {
        assert(hay@.subrange(i as int, i + needle@.len()) =~= needle@);
    }
    true
}

/// The first position (in characters) where `needle` occurs in `hay`.
pub fn find_text(hay: &str, needle: &str) -> (r: Option<usize>)
    ensures
        match r {
            Some(i) => find_from(hay@, needle@, 0) == Some(i as int),
            None => find_from(hay@, needle@, 0) is None,
        },
{
    let h = chars_of(hay);
    let n = chars_of(needle);
    if n.len() > h.len() {
        return None;
    }
    let last = h.len() - n.len();
    let mut i: usize = 0;
    while i < last
        invariant
            h@ == hay@,
            n@ == needle@,
            last + n@.len() == h@.len(),
            i <= last,
            find_from(hay@, needle@, 0) == find_from(hay@, needle@, i as int),
        decreases last - i,
    {
        if matches_at(&h, &n, i) {
            return Some(i);
        }
        i = i + 1;
    }
    if matches_at(&h, &n, i) {
        Some(i)
    } else {
        proof {
            assert(find_from(hay@, needle@, i + 1) is None);
        }
        None
    }
}

/// `needle` occurs somewhere in `hay`.
pub open spec fn contains_text_spec(hay: Seq<char>, needle: Seq<char>) -> bool {
    exists|i: int| occurs_at(hay, needle, i)
}

/// Whether `needle` occurs in `hay`.
pub fn contains_text(hay: &str, needle: &str) -> (b: bool)
    ensures
        b == contains_text_spec(hay@, needle@),
{
    proof {
        lemma_find_from(hay@, needle@, 0);
    }
    let r = find_text(hay, needle);
    proof {
        if r is None {
            assert forall|i: int| !occurs_at(hay@, needle@, i) by {
                if 0 <= i {
                } else {
                }
            }
        }
    }
    r.is_some()
}

/// A line without its line feed, and without the carriage return before it.
pub open spec fn strip_cr(line: Seq<char>) -> Seq<char> {
    if line.len() > 0 && line.last() == '\r' {
        line.drop_last()
    } else {
        line
    }
}

/// The finished lines and the line being read, after reading `s`.
pub open spec fn lines_scan(s: Seq<char>) -> (Seq<Seq<char>>, Seq<char>)
    decreases s.len(),
{
    if s.len() == 0 {
        (Seq::empty(), Seq::empty())
    } else {
        let (lines, cur) = lines_scan(s.drop_last());
        if s.last() == '\n' {
            (lines.push(strip_cr(cur)), Seq::empty())
        } else {
            (lines, cur.push(s.last()))
        }
    }
}

/// The lines of a text, as `str::lines` gives them: split at `\n` or
/// `\r\n`, a final line ending being optional.
pub open spec fn text_lines(s: Seq<char>) -> Seq<Seq<char>> {
    let (lines, cur) = lines_scan(s);
    if cur.len() > 0 {
        lines.push(cur)
    } else {
        lines
    }
}

fn without_cr(line: String) -> (r: String)
    ensures
        r@ == strip_cr(line@),
{
    let n = line.as_str().unicode_len();
    if n > 0 && line.as_str().get_char(n - 1) == '\r' {
        let r = line.as_str().substring_char(0, n - 1).to_string();
        proof {
            assert(line@.subrange(0, n - 1) =~= line@.drop_last());
        }
        r
    } else {
        line
    }
}

/// The lines of a text, as `str::lines` gives them.
pub fn lines_of(s: &str) -> (v: Vec<String>)
    ensures
        str_views(v@) == text_lines(s@),
{
    broadcast use vstd::string::group_string_axioms;

    let n = s.unicode_len();
    let mut lines: Vec<String> = Vec::new();
    let mut cur = String::new();
    let mut i: usize = 0;
    while i < n
        invariant
            n == s@.len(),
            i <= n,
            lines_scan(s@.take(i as int)) == (str_views(lines@), cur@),
        decreases n - i,
    {
        let c = s.get_char(i);
        proof {
            assert(s@.take(i + 1).drop_last() =~= s@.take(i as int));
            assert(s@.take(i + 1).last() == c);
        }
        if c == '\n' {
            let done = without_cr(cur);
            cur = String::new();
            let ghost before = lines@;
            let ghost d = done@;
            lines.push(done);
            proof {
                assert(str_views(lines@) =~= str_views(before).push(d));
            }
        } else {
            push_char(&mut cur, c);
        }
        i = i + 1;
    }
    proof {
        assert(s@.take(n as int) =~= s@);
    }
    if !cur.as_str().is_empty() {
        let ghost before = lines@;
        let ghost d = cur@;
        lines.push(cur);
        proof {
            assert(str_views(lines@) =~= str_views(before).push(d));
        }
    }
    lines
}

/// The lines that contain `needle`, in order.
pub open spec fn lines_with(lines: Seq<Seq<char>>, needle: Seq<char>) -> Seq<Seq<char>>
    decreases lines.len(),
{
    if lines.len() == 0 {
        Seq::empty()
    } else {
        let r = lines_with(lines.drop_last(), needle);
        if contains_text_spec(lines.last(), needle) {
            r.push(lines.last())
        } else {
            r
        }
    }
}

/// The lines of a text that contain `needle`, in order.
pub fn lines_containing(s: &str, needle: &str) -> (v: Vec<String>)
    ensures
        str_views(v@) == lines_with(text_lines(s@), needle@),
{
    let all = lines_of(s);
    let mut v: Vec<String> = Vec::new();
    let mut i: usize = 0;
    while i < all.len()
        invariant
            i <= all@.len(),
            str_views(all@) == text_lines(s@),
            str_views(v@) == lines_with(str_views(all@).take(i as int), needle@),
        decreases all@.len() - i,
    {
        proof {
            assert(str_views(all@).take(i + 1).drop_last() =~= str_views(all@).take(i as int));
            assert(str_views(all@).take(i + 1).last() == all@[i as int]@);
        }
        if contains_text(all[i].as_str(), needle) {
            let ghost before = v@;
            v.push(all[i].clone());
            proof {
                assert(str_views(v@) =~= str_views(before).push(all@[i as int]@));
            }
        }
        i = i + 1;
    }
    proof {
        assert(str_views(all@).take(i as int) =~= str_views(all@));
    }
    v
}

/// Lines joined by `\n`.
pub open spec fn joined_lines(lines: Seq<Seq<char>>) -> Seq<char>
    decreases lines.len(),
{
    if lines.len() == 0 {
        Seq::empty()
    } else if lines.len() == 1 {
        lines[0]
    } else {
        joined_lines(lines.drop_last()) + seq!['\n'] + lines.last()
    }
}

/// Lines joined by `\n`.
pub fn join_lines(lines: &Vec<String>) -> (s: String)
    ensures
        s@ == joined_lines(str_views(lines@)),
{
    let mut s = String::new();
    let mut i: usize = 0;
    while i < lines.len()
        invariant
            i <= lines@.len(),
            s@ == joined_lines(str_views(lines@.take(i as int))),
        decreases lines@.len() - i,
    {
        proof {
            assert(str_views(lines@.take(i + 1)).drop_last() =~= str_views(lines@.take(i as int)));
        }
        if i > 0 {
            push_char(&mut s, '\n');
        }
        s.append(lines[i].as_str());
        proof {
            assert(s@ =~= joined_lines(str_views(lines@.take(i + 1))));
        }
        i = i + 1;
    }
    proof {
        assert(lines@.take(i as int) =~= lines@);
    }
    s
}


/// Whether `s` starts with `prefix`.
pub fn starts_with(s: &str, prefix: &str) -> (b: bool)
    ensures
        b == (s@.len() >= prefix@.len() && s@.take(prefix@.len() as int) == prefix@),
{
    let h = chars_of(s);
    let p = chars_of(prefix);
    if p.len() > h.len() {
        return false;
    }
    let r = matches_at(&h, &p, 0);
    proof {
        assert(h@.subrange(0, p@.len() as int) =~= h@.take(p@.len() as int));
    }
    r
}

} // verus!
