//! Splitting a command line into words: spaces and tabs separate words
//! outside double quotes, double quotes are dropped, and a backslash takes
//! the next character literally.

use vstd::prelude::*;
use crate::deps::str_views;
use crate::text::push_char;

verus! {

/// The scanner's state: the finished words, the word being read, whether a
/// double quote is open, and whether the next character is escaped.
pub type SplitState = (Seq<Seq<char>>, Seq<char>, bool, bool);

/// The state after reading one more character.
pub open spec fn split_step(st: SplitState, ch: char) -> SplitState {
    let (words, cur, quoted, escaped) = st;
    if escaped {
        (words, cur.push(ch), quoted, false)
    } else if ch == '\\' {
        (words, cur, quoted, true)
    } else if ch == '"' {
        (words, cur, !quoted, false)
    } else if (ch == ' ' || ch == '\t') && !quoted {
        if cur.len() > 0 {
            (words.push(cur), Seq::empty(), quoted, false)
        } else {
            (words, cur, quoted, false)
        }
    } else {
        (words, cur.push(ch), quoted, false)
    }
}

/// The state after reading all of `s`.
pub open spec fn split_scan(s: Seq<char>) -> SplitState
    decreases s.len(),
{
    if s.len() == 0 {
        (Seq::empty(), Seq::empty(), false, false)
    } else {
        split_step(split_scan(s.drop_last()), s.last())
    }
}

/// The words of a command line.
pub open spec fn shell_split(s: Seq<char>) -> Seq<Seq<char>> {
    let st = split_scan(s);
    if st.1.len() > 0 {
        st.0.push(st.1)
    } else {
        st.0
    }
}

/// Every word of a scan is non-empty.
proof fn lemma_scan_words_nonempty(s: Seq<char>)
    ensures
        forall|k: int| 0 <= k < split_scan(s).0.len() ==> (#[trigger] split_scan(s).0[k]).len() > 0,
    decreases s.len(),
{
    if s.len() > 0 {
        lemma_scan_words_nonempty(s.drop_last());
        let prev = split_scan(s.drop_last());
        let next = split_scan(s);
        assert(next == split_step(prev, s.last()));
        assert forall|k: int| 0 <= k < next.0.len() implies (#[trigger] next.0[k]).len() > 0 by {
            if k < prev.0.len() {
                assert(next.0[k] == prev.0[k]);
            }
        }
    }
}

/// No word of a command line is empty.
pub proof fn lemma_split_words_nonempty(s: Seq<char>)
    ensures
        forall|k: int| 0 <= k < shell_split(s).len() ==> (#[trigger] shell_split(s)[k]).len() > 0,
{
    lemma_scan_words_nonempty(s);
}

/// The scan of `b` continued from the state `st`.
pub open spec fn scan_from(st: SplitState, b: Seq<char>) -> SplitState
    decreases b.len(),
{
    if b.len() == 0 {
        st
    } else {
        split_step(scan_from(st, b.drop_last()), b.last())
    }
}

proof fn lemma_scan_concat(a: Seq<char>, b: Seq<char>)
    ensures
        split_scan(a + b) == scan_from(split_scan(a), b),
    decreases b.len(),
{
    if b.len() == 0 {
        assert(a + b =~= a);
    } else {
        lemma_scan_concat(a, b.drop_last());
        assert((a + b).drop_last() =~= a + b.drop_last());
        assert((a + b).last() == b.last());
    }
}

/// A character that is neither a separator, a quote nor a backslash.
pub open spec fn plain_char(c: char) -> bool {
    c != ' ' && c != '\t' && c != '"' && c != '\\'
}

proof fn lemma_scan_plain(words: Seq<Seq<char>>, cur: Seq<char>, w: Seq<char>)
    requires
        forall|i: int| 0 <= i < w.len() ==> plain_char(#[trigger] w[i]),
    ensures
        scan_from((words, cur, false, false), w) == (words, cur + w, false, false),
    decreases w.len(),
{
    if w.len() == 0 {
        assert(cur + w =~= cur);
    } else {
        lemma_scan_plain(words, cur, w.drop_last());
        assert(w.last() == w[w.len() - 1]);
        assert((cur + w.drop_last()).push(w.last()) =~= cur + w);
    }
}

/// Input made only of spaces and tabs has no word.
pub proof fn lemma_blank_no_words(s: Seq<char>)
    requires
        forall|i: int| 0 <= i < s.len() ==> (#[trigger] s[i] == ' ' || s[i] == '\t'),
    ensures
        shell_split(s).len() == 0,
{
    lemma_blank_scan(s);
}

proof fn lemma_blank_scan(s: Seq<char>)
    requires
        forall|i: int| 0 <= i < s.len() ==> (#[trigger] s[i] == ' ' || s[i] == '\t'),
    ensures
        split_scan(s) == (Seq::<Seq<char>>::empty(), Seq::<char>::empty(), false, false),
    decreases s.len(),
{
    if s.len() > 0 {
        assert forall|i: int| 0 <= i < s.drop_last().len() implies (#[trigger] s.drop_last()[i] == ' ' || s.drop_last()[i]
            == '\t') by {
            assert(s.drop_last()[i] == s[i]);
        }
        lemma_blank_scan(s.drop_last());
        assert(s.last() == s[s.len() - 1]);
    }
}

/// Words joined by single spaces.
pub open spec fn join_words(ws: Seq<Seq<char>>) -> Seq<char>
    decreases ws.len(),
{
    if ws.len() == 0 {
        Seq::empty()
    } else if ws.len() == 1 {
        ws[0]
    } else {
        join_words(ws.drop_last()) + seq![' '] + ws.last()
    }
}

/// Non-empty words made of plain characters.
pub open spec fn plain_words(ws: Seq<Seq<char>>) -> bool {
    forall|k: int|
        0 <= k < ws.len() ==> (#[trigger] ws[k]).len() > 0 && forall|i: int|
            0 <= i < ws[k].len() ==> plain_char(#[trigger] ws[k][i])
}

proof fn lemma_join_scan(ws: Seq<Seq<char>>)
    requires
        ws.len() > 0,
        plain_words(ws),
    ensures
        split_scan(join_words(ws)) == (ws.drop_last(), ws.last(), false, false),
    decreases ws.len(),
{
    let last = ws.last();
    assert(last == ws[ws.len() - 1]);
    if ws.len() == 1 {
        lemma_scan_concat(Seq::empty(), last);
        assert(Seq::<char>::empty() + last =~= last);
        assert(split_scan(Seq::<char>::empty()) == (Seq::<Seq<char>>::empty(), Seq::<char>::empty(), false, false));
        lemma_scan_plain(Seq::empty(), Seq::empty(), last);
        assert(ws.drop_last() =~= Seq::<Seq<char>>::empty());
        assert(join_words(ws) == last);
        assert(split_scan(last) == (Seq::<Seq<char>>::empty(), last, false, false));
    } else {
        let prev = ws.drop_last();
        assert forall|k: int| 0 <= k < prev.len() implies (#[trigger] prev[k]).len() > 0 && forall|i: int|
            0 <= i < prev[k].len() ==> plain_char(#[trigger] prev[k][i]) by {
            assert(prev[k] == ws[k]);
        }
        lemma_join_scan(prev);
        assert(prev.last() == prev[prev.len() - 1]);
        let a = join_words(prev);
        let sp = seq![' '];
        assert(join_words(ws) == a + sp + last);
        lemma_scan_concat(a, sp);
        assert(sp.drop_last() =~= Seq::<char>::empty());
        assert(sp.last() == ' ');
        assert(scan_from(split_scan(a), sp.drop_last()) == split_scan(a));
        assert(prev.drop_last().push(prev.last()) =~= prev);
        let mid = (prev, Seq::<char>::empty(), false, false);
        assert(split_scan(a + sp) == mid);
        lemma_scan_concat(a + sp, last);
        lemma_scan_plain(prev, Seq::empty(), last);
        assert(Seq::<char>::empty() + last =~= last);
        assert(split_scan(a + sp + last) == (prev, last, false, false));
    }
}

/// Plain words joined by single spaces split back into the same words.
pub proof fn lemma_split_joined_words(ws: Seq<Seq<char>>)
    requires
        plain_words(ws),
    ensures
        shell_split(join_words(ws)) == ws,
{
    if ws.len() > 0 {
        lemma_join_scan(ws);
        assert(ws.last() == ws[ws.len() - 1]);
        assert(ws.drop_last().push(ws.last()) =~= ws);
    }
}

/// `w` does not hold the character `c`.
pub open spec fn lacks(w: Seq<char>, c: char) -> bool {
    forall|i: int| 0 <= i < w.len() ==> w[i] != c
}

/// No word of `ws` holds the character `c`.
pub open spec fn all_lack(ws: Seq<Seq<char>>, c: char) -> bool {
    forall|k: int| 0 <= k < ws.len() ==> lacks(#[trigger] ws[k], c)
}

proof fn lemma_push_lacks(w: Seq<char>, ch: char, c: char)
    requires
        lacks(w, c),
        ch != c,
    ensures
        lacks(w.push(ch), c),
{
    assert forall|i: int| 0 <= i < w.push(ch).len() implies w.push(ch)[i] != c by {
        if i < w.len() {
            assert(w.push(ch)[i] == w[i]);
        }
    }
}

proof fn lemma_words_push_lack(ws: Seq<Seq<char>>, w: Seq<char>, c: char)
    requires
        all_lack(ws, c),
        lacks(w, c),
    ensures
        all_lack(ws.push(w), c),
{
    assert forall|k: int| 0 <= k < ws.push(w).len() implies lacks(#[trigger] ws.push(w)[k], c) by {
        if k < ws.len() {
            assert(ws.push(w)[k] == ws[k]);
        }
    }
}

proof fn lemma_scan_chars(s: Seq<char>)
    ensures
        lacks(s, '\\') ==> !split_scan(s).3 && all_lack(split_scan(s).0, '"') && lacks(split_scan(s).1, '"'),
        lacks(s, '\\') && lacks(s, '"') ==> !split_scan(s).2 && all_lack(split_scan(s).0, ' ') && lacks(
            split_scan(s).1,
            ' ',
        ) && all_lack(split_scan(s).0, '\t') && lacks(split_scan(s).1, '\t'),
    decreases s.len(),
{
    if s.len() > 0 {
        let pre = s.drop_last();
        let ch = s.last();
        assert(ch == s[s.len() - 1]);
        if lacks(s, '\\') {
            assert(lacks(pre, '\\')) by {
                assert forall|i: int| 0 <= i < pre.len() implies pre[i] != '\\' by {
                    assert(pre[i] == s[i]);
                }
            }
        }
        if lacks(s, '"') {
            assert(lacks(pre, '"')) by {
                assert forall|i: int| 0 <= i < pre.len() implies pre[i] != '"' by {
                    assert(pre[i] == s[i]);
                }
            }
        }
        lemma_scan_chars(pre);
        let (words, cur, quoted, escaped) = split_scan(pre);
        if lacks(s, '\\') {
            if ch != '"' && !((ch == ' ' || ch == '\t') && !quoted) {
                lemma_push_lacks(cur, ch, '"');
            }
            if (ch == ' ' || ch == '\t') && !quoted && cur.len() > 0 {
                lemma_words_push_lack(words, cur, '"');
            }
        }
        if lacks(s, '\\') && lacks(s, '"') {
            if !(ch == ' ' || ch == '\t') {
                lemma_push_lacks(cur, ch, ' ');
                lemma_push_lacks(cur, ch, '\t');
            } else if cur.len() > 0 {
                lemma_words_push_lack(words, cur, ' ');
                lemma_words_push_lack(words, cur, '\t');
            }
        }
    }
}

/// Double quotes are never copied into a word unless escaped: in a command
/// line without backslashes no word holds a `"`. Spaces and tabs outside
/// quotes separate words: in a command line without quotes or backslashes
/// no word holds a space or a tab.
pub proof fn lemma_split_drops_quotes_and_blanks(s: Seq<char>)
    ensures
        lacks(s, '\\') ==> all_lack(shell_split(s), '"'),
        lacks(s, '\\') && lacks(s, '"') ==> all_lack(shell_split(s), ' ') && all_lack(shell_split(s), '\t'),
{
    lemma_scan_chars(s);
    let st = split_scan(s);
    if st.1.len() > 0 {
        if lacks(s, '\\') {
            lemma_words_push_lack(st.0, st.1, '"');
        }
        if lacks(s, '\\') && lacks(s, '"') {
            lemma_words_push_lack(st.0, st.1, ' ');
            lemma_words_push_lack(st.0, st.1, '\t');
        }
    }
}

/// `s` never has two backslashes in a row.
pub open spec fn no_double_backslash(s: Seq<char>) -> bool {
    forall|i: int| 0 <= i < s.len() - 1 ==> !(#[trigger] s[i] == '\\' && s[i + 1] == '\\')
}

proof fn lemma_scan_backslashes(s: Seq<char>)
    ensures
        split_scan(s).3 ==> s.len() > 0 && s.last() == '\\',
        no_double_backslash(s) ==> all_lack(split_scan(s).0, '\\') && lacks(split_scan(s).1, '\\'),
    decreases s.len(),
{
    if s.len() > 0 {
        let pre = s.drop_last();
        let ch = s.last();
        assert(ch == s[s.len() - 1]);
        if no_double_backslash(s) {
            assert(no_double_backslash(pre)) by {
                assert forall|i: int| 0 <= i < pre.len() - 1 implies !(#[trigger] pre[i] == '\\' && pre[i + 1] == '\\') by {
                    assert(pre[i] == s[i] && pre[i + 1] == s[i + 1]);
                }
            }
        }
        lemma_scan_backslashes(pre);
        let (words, cur, quoted, escaped) = split_scan(pre);
        if no_double_backslash(s) {
            if escaped {
                assert(pre.last() == s[s.len() - 2]);
                assert(!(s[s.len() - 2] == '\\' && s[s.len() - 1] == '\\'));
                lemma_push_lacks(cur, ch, '\\');
            } else if ch != '\\' && ch != '"' && !((ch == ' ' || ch == '\t') && !quoted) {
                lemma_push_lacks(cur, ch, '\\');
            } else if ch != '\\' && ch != '"' && cur.len() > 0 {
                lemma_words_push_lack(words, cur, '\\');
            }
        }
    }
}

/// An escaping backslash is never copied into a word: a backslash reaches a
/// word only when it is itself escaped, so in a command line without two
/// backslashes in a row no word holds one.
pub proof fn lemma_split_drops_escapes(s: Seq<char>)
    ensures
        no_double_backslash(s) ==> all_lack(shell_split(s), '\\'),
{
    lemma_scan_backslashes(s);
    let st = split_scan(s);
    if st.1.len() > 0 && no_double_backslash(s) {
        lemma_words_push_lack(st.0, st.1, '\\');
    }
}

/// What splitting a command line promises (`split` gives `shell_split` and
/// never fails): no word is empty; input of only spaces and tabs has no
/// word; without backslashes no word holds a double quote; without quotes
/// or backslashes no word holds a space or a tab; and without two
/// backslashes in a row no word holds a backslash.
pub proof fn lemma_split_laws(s: Seq<char>)
    ensures
        forall|k: int| 0 <= k < shell_split(s).len() ==> (#[trigger] shell_split(s)[k]).len() > 0,
        (forall|i: int| 0 <= i < s.len() ==> (#[trigger] s[i] == ' ' || s[i] == '\t')) ==> shell_split(s).len() == 0,
        lacks(s, '\\') ==> all_lack(shell_split(s), '"'),
        lacks(s, '\\') && lacks(s, '"') ==> all_lack(shell_split(s), ' ') && all_lack(shell_split(s), '\t'),
        no_double_backslash(s) ==> all_lack(shell_split(s), '\\'),
{
    lemma_split_words_nonempty(s);
    if forall|i: int| 0 <= i < s.len() ==> (#[trigger] s[i] == ' ' || s[i] == '\t') {
        lemma_blank_no_words(s);
    }
    lemma_split_drops_quotes_and_blanks(s);
    lemma_split_drops_escapes(s);
}

proof fn lemma_scan_quoted(words: Seq<Seq<char>>, cur: Seq<char>, q: Seq<char>)
    requires
        forall|i: int| 0 <= i < q.len() ==> #[trigger] q[i] != '"' && q[i] != '\\',
    ensures
        scan_from((words, cur, true, false), q) == (words, cur + q, true, false),
    decreases q.len(),
{
    if q.len() == 0 {
        assert(cur + q =~= cur);
    } else {
        lemma_scan_quoted(words, cur, q.drop_last());
        assert(q.last() == q[q.len() - 1]);
        assert((cur + q.drop_last()).push(q.last()) =~= cur + q);
    }
}

/// A double quote opens a quoted part wherever it stands, also in the
/// middle of a word, and the next one closes it: inside, spaces and tabs do
/// not separate, and the quotes themselves are dropped. So plain text `a`,
/// then a quoted part `q` (anything but quotes and backslashes, spaces
/// included), then plain text `z` form one word `a + q + z`.
pub proof fn lemma_quote_joins_word(a: Seq<char>, q: Seq<char>, z: Seq<char>)
    requires
        forall|i: int| 0 <= i < a.len() ==> plain_char(#[trigger] a[i]),
        forall|i: int| 0 <= i < q.len() ==> #[trigger] q[i] != '"' && q[i] != '\\',
        forall|i: int| 0 <= i < z.len() ==> plain_char(#[trigger] z[i]),
        a.len() + q.len() + z.len() > 0,
    ensures
        shell_split(a + seq!['"'] + q + seq!['"'] + z) == seq![a + q + z],
{
    let init = (Seq::<Seq<char>>::empty(), Seq::<char>::empty(), false, false);
    let e = Seq::<Seq<char>>::empty();
    lemma_scan_concat(Seq::empty(), a);
    assert(Seq::<char>::empty() + a =~= a);
    lemma_scan_plain(e, Seq::empty(), a);
    assert(Seq::<char>::empty() + a =~= a);
    assert(split_scan(a) == (e, a, false, false));
    let qt = seq!['"'];
    assert(qt.drop_last() =~= Seq::<char>::empty());
    assert(qt.last() == '"');
    lemma_scan_concat(a, qt);
    assert(scan_from(split_scan(a), qt.drop_last()) == split_scan(a));
    assert(split_scan(a + qt) == split_step((e, a, false, false), '"'));
    assert(split_scan(a + qt) == (e, a, true, false));
    lemma_scan_concat(a + qt, q);
    lemma_scan_quoted(e, a, q);
    assert(split_scan(a + qt + q) == (e, a + q, true, false));
    lemma_scan_concat(a + qt + q, qt);
    assert(scan_from(split_scan(a + qt + q), qt.drop_last()) == split_scan(a + qt + q));
    assert(split_scan(a + qt + q + qt) == split_step((e, a + q, true, false), '"'));
    assert(split_scan(a + qt + q + qt) == (e, a + q, false, false));
    lemma_scan_concat(a + qt + q + qt, z);
    lemma_scan_plain(e, a + q, z);
    assert(split_scan(a + qt + q + qt + z) == (e, a + q + z, false, false));
    assert((a + q + z).len() > 0);
    assert(e.push(a + q + z) =~= seq![a + q + z]);
}

/// Splits a command line into words; it never fails.
pub fn split(input: &str) -> (r: Result<Vec<String>, ()>)
    ensures
        r matches Ok(words) && str_views(words@) == shell_split(input@),
{
    let mut words: Vec<String> = Vec::new();
    let mut current_word = String::new();
    let mut in_quotes = false;
    let mut escape_next = false;
    let n = input.unicode_len();
    let mut i: usize = 0;
    while i < n
        invariant
            n == input@.len(),
            i <= n,
            split_scan(input@.take(i as int)) == (
                str_views(words@),
                current_word@,
                in_quotes,
                escape_next,
            ),
        decreases n - i,
    {
        let ch = input.get_char(i);
        proof {
            assert(input@.take(i + 1).drop_last() =~= input@.take(i as int));
            assert(input@.take(i + 1).last() == ch);
        }
        if escape_next {
            push_char(&mut current_word, ch);
            escape_next = false;
        } else if ch == '\\' {
            escape_next = true;
        } else if ch == '"' {
            in_quotes = !in_quotes;
        } else if (ch == ' ' || ch == '\t') && !in_quotes {
            if !current_word.as_str().is_empty() {
                let ghost old_words = words@;
                words.push(current_word.clone());
                current_word = String::new();
                proof {
                    assert(str_views(words@) =~= str_views(old_words).push(words@.last()@));
                }
            }
        } else {
            push_char(&mut current_word, ch);
        }
        i = i + 1;
    }
    proof {
        assert(input@.take(n as int) =~= input@);
    }
    if !current_word.as_str().is_empty() {
        let ghost old_words = words@;
        let ghost cw = current_word@;
        words.push(current_word);
        proof {
            assert(str_views(words@) =~= str_views(old_words).push(cw));
        }
    }
    Ok(words)
}

} // verus!
