//! How the control tool writes durations and process states.

use vstd::prelude::*;
use crate::text::{decimal, u64_to_decimal};

verus! {

/// A duration in seconds as `Nd Nh Nm Ns`, leaving out the leading units
/// that are zero.
pub open spec fn uptime_text(secs: u64) -> Seq<char> {
    let days = secs / 86400;
    let hours = (secs % 86400) / 3600;
    let minutes = (secs % 3600) / 60;
    let seconds = secs % 60;
    if days > 0 {
        decimal(days as nat) + "d "@ + decimal(hours as nat) + "h "@ + decimal(minutes as nat) + "m "@
            + decimal(seconds as nat) + "s"@
    } else if hours > 0 {
        decimal(hours as nat) + "h "@ + decimal(minutes as nat) + "m "@ + decimal(seconds as nat) + "s"@
    } else if minutes > 0 {
        decimal(minutes as nat) + "m "@ + decimal(seconds as nat) + "s"@
    } else {
        decimal(seconds as nat) + "s"@
    }
}

/// Writes a duration in seconds as `Nd Nh Nm Ns`.
pub fn format_uptime(secs: u64) -> (s: String)
    ensures
        s@ == uptime_text(secs),
{
    let days = secs / 86400;
    let hours = (secs % 86400) / 3600;
    let minutes = (secs % 3600) / 60;
    let seconds = secs % 60;
    let mut s = String::new();
    if days > 0 {
        s.append(u64_to_decimal(days).as_str());
        s.append("d ");
    }
    if days > 0 || hours > 0 {
        s.append(u64_to_decimal(hours).as_str());
        s.append("h ");
    }
    if days > 0 || hours > 0 || minutes > 0 {
        s.append(u64_to_decimal(minutes).as_str());
        s.append("m ");
    }
    s.append(u64_to_decimal(seconds).as_str());
    s.append("s");
    proof {
        assert(s@ =~= uptime_text(secs));
    }
    s
}

/// The name of a process state letter of `/proc/<pid>/stat`; any other
/// text is kept as it is.
pub open spec fn state_name(state: Seq<char>) -> Seq<char> {
    if state == "R"@ {
        "Running"@
    } else if state == "S"@ {
        "Sleeping"@
    } else if state == "D"@ {
        "Disk sleep"@
    } else if state == "Z"@ {
        "Zombie"@
    } else if state == "T"@ {
        "Stopped"@
    } else if state == "t"@ {
        "Tracing"@
    } else if state == "X"@ || state == "x"@ {
        "Dead"@
    } else if state == "K"@ {
        "Wakekill"@
    } else if state == "W"@ {
        "Waking"@
    } else if state == "P"@ {
        "Parked"@
    } else if state == "I"@ {
        "Idle"@
    } else {
        state
    }
}

/// A process state letter that has a name.
pub open spec fn state_letter(c: char) -> bool {
    c == 'R' || c == 'S' || c == 'D' || c == 'Z' || c == 'T' || c == 't' || c == 'X' || c == 'x' || c == 'K'
        || c == 'W' || c == 'P' || c == 'I'
}

proof fn lemma_letters_revealed()
    ensures
        "R"@ == seq!['R'] && "S"@ == seq!['S'] && "D"@ == seq!['D'] && "Z"@ == seq!['Z'] && "T"@ == seq!['T'],
        "t"@ == seq!['t'] && "X"@ == seq!['X'] && "x"@ == seq!['x'] && "K"@ == seq!['K'] && "W"@ == seq!['W'],
        "P"@ == seq!['P'] && "I"@ == seq!['I'],
{
    reveal_strlit("R");
    reveal_strlit("S");
    reveal_strlit("D");
    reveal_strlit("Z");
    reveal_strlit("T");
    reveal_strlit("t");
    reveal_strlit("X");
    reveal_strlit("x");
    reveal_strlit("K");
    reveal_strlit("W");
    reveal_strlit("P");
    reveal_strlit("I");
    assert("R"@ =~= seq!['R']);
    assert("S"@ =~= seq!['S']);
    assert("D"@ =~= seq!['D']);
    assert("Z"@ =~= seq!['Z']);
    assert("T"@ =~= seq!['T']);
    assert("t"@ =~= seq!['t']);
    assert("X"@ =~= seq!['X']);
    assert("x"@ =~= seq!['x']);
    assert("K"@ =~= seq!['K']);
    assert("W"@ =~= seq!['W']);
    assert("P"@ =~= seq!['P']);
    assert("I"@ =~= seq!['I']);
}

proof fn lemma_names_revealed()
    ensures
        "Running"@.len() == 7 && "Running"@[0] == 'R',
        "Sleeping"@.len() == 8 && "Sleeping"@[0] == 'S',
        "Disk sleep"@.len() == 10 && "Disk sleep"@[0] == 'D',
        "Zombie"@.len() == 6 && "Zombie"@[0] == 'Z',
        "Stopped"@.len() == 7 && "Stopped"@[0] == 'S',
        "Tracing"@.len() == 7 && "Tracing"@[0] == 'T',
        "Dead"@.len() == 4 && "Dead"@[0] == 'D',
        "Wakekill"@.len() == 8 && "Wakekill"@[0] == 'W',
        "Waking"@.len() == 6 && "Waking"@[0] == 'W' && "Waking"@[2] == 'k',
        "Parked"@.len() == 6 && "Parked"@[0] == 'P',
        "Idle"@.len() == 4 && "Idle"@[0] == 'I',
        "Zombie"@[2] == 'm' && "Parked"@[2] == 'r',
{
    reveal_strlit("Running");
    reveal_strlit("Sleeping");
    reveal_strlit("Disk sleep");
    reveal_strlit("Zombie");
    reveal_strlit("Stopped");
    reveal_strlit("Tracing");
    reveal_strlit("Dead");
    reveal_strlit("Wakekill");
    reveal_strlit("Waking");
    reveal_strlit("Parked");
    reveal_strlit("Idle");
}

proof fn lemma_one_char(a: char, c: char)
    ensures
        (seq![a] == seq![c]) == (a == c),
{
    if seq![a] == seq![c] {
        assert(seq![a][0] == seq![c][0]);
    }
}

proof fn lemma_letter_tests(a: char)
    ensures
        (seq![a] == "R"@) == (a == 'R'),
        (seq![a] == "S"@) == (a == 'S'),
        (seq![a] == "D"@) == (a == 'D'),
        (seq![a] == "Z"@) == (a == 'Z'),
        (seq![a] == "T"@) == (a == 'T'),
        (seq![a] == "t"@) == (a == 't'),
        (seq![a] == "X"@) == (a == 'X'),
        (seq![a] == "x"@) == (a == 'x'),
        (seq![a] == "K"@) == (a == 'K'),
        (seq![a] == "W"@) == (a == 'W'),
        (seq![a] == "P"@) == (a == 'P'),
        (seq![a] == "I"@) == (a == 'I'),
{
    lemma_letters_revealed();
    lemma_one_char(a, 'R');
    lemma_one_char(a, 'S');
    lemma_one_char(a, 'D');
    lemma_one_char(a, 'Z');
    lemma_one_char(a, 'T');
    lemma_one_char(a, 't');
    lemma_one_char(a, 'X');
    lemma_one_char(a, 'x');
    lemma_one_char(a, 'K');
    lemma_one_char(a, 'W');
    lemma_one_char(a, 'P');
    lemma_one_char(a, 'I');
}

/// Each process state letter has a name of its own: two different letters
/// are shown under different names, except `X` and `x`, which both mean a
/// dead process; a zombie is shown as `Zombie`; and a text that is no state
/// letter is shown as it is.
pub proof fn lemma_state_names(a: char, b: char, other: Seq<char>)
    ensures
        state_letter(a) && state_letter(b) && a != b && !((a == 'X' || a == 'x') && (b == 'X' || b == 'x'))
            ==> state_name(seq![a]) != state_name(seq![b]),
        state_letter(a) ==> state_name(seq![a]) != seq![a],
        state_name(seq!['Z']) == "Zombie"@,
        (forall|c: char| state_letter(c) ==> other != seq![c]) ==> state_name(other) == other,
{
    lemma_letters_revealed();
    lemma_names_revealed();
    lemma_letter_tests(a);
    lemma_letter_tests(b);
    lemma_letter_tests('Z');
    if state_letter(a) && state_letter(b) && a != b && !((a == 'X' || a == 'x') && (b == 'X' || b == 'x')) {
        let na = state_name(seq![a]);
        let nb = state_name(seq![b]);
        assert(na.len() != nb.len() || na[0] != nb[0] || na[2] != nb[2]);
    }
    if state_letter(a) {
        assert(state_name(seq![a]).len() > 1);
    }
    if forall|c: char| state_letter(c) ==> other != seq![c] {
        assert(state_letter('R') && state_letter('S') && state_letter('D') && state_letter('Z'));
        assert(state_letter('T') && state_letter('t') && state_letter('X') && state_letter('x'));
        assert(state_letter('K') && state_letter('W') && state_letter('P') && state_letter('I'));
    }
}

/// The name of a process state letter.
pub fn format_state(state: &str) -> (s: String)
    ensures
        s@ == state_name(state@),
{
    broadcast use vstd::string::group_string_axioms;

    let st = state.to_string();
    let name = if st == "R".to_string() {
        "Running"
    } else if st == "S".to_string() {
        "Sleeping"
    } else if st == "D".to_string() {
        "Disk sleep"
    } else if st == "Z".to_string() {
        "Zombie"
    } else if st == "T".to_string() {
        "Stopped"
    } else if st == "t".to_string() {
        "Tracing"
    } else if st == "X".to_string() || st == "x".to_string() {
        "Dead"
    } else if st == "K".to_string() {
        "Wakekill"
    } else if st == "W".to_string() {
        "Waking"
    } else if st == "P".to_string() {
        "Parked"
    } else if st == "I".to_string() {
        "Idle"
    } else {
        return st;
    };
    name.to_string()
}

} // verus!
