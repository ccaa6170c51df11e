//! Sending and receiving a directory over the pipeline: the checks of the
//! two sides, and the decisions of the receiving side, step by step.
//!
//! After the number of files, each file comes as the length of its path
//! relative to the directory, the path, the file's size and its content in
//! pieces of at most `BUF_MAX_LEN_FILE_IO` bytes. The receiver says what to
//! read next and what to do with what was read; the caller performs the
//! reads and the file-system work and hands back what it read.

use vstd::prelude::*;
use vstd::utf8::{decode_utf8, valid_utf8};
use crate::cli_args::decode_text;
use crate::fs_watch::{join_path, joined_path};
use crate::pipe_config::{BUF_MAX_LEN_FILE_IO, BUF_MAX_LEN_FILE_PATH};
use crate::pipe_error::PipelineError;
use crate::wire::{chunk_len, next_chunk};

verus! {

/// What the receiver waits for; `left` counts the files still to come,
/// the current one included.
#[derive(Debug, Clone, Copy, PartialEq, Eq, Structural)]
pub enum DirRecvPhase {
    /// The length of the next file's relative path.
    PathLen { left: u64 },
    /// The relative path, `len` bytes.
    Path { left: u64, len: u64 },
    /// The size of the file.
    Size { left: u64 },
    /// The file's content, of which `done` of `size` bytes have come.
    Content { left: u64, size: u64, done: u64 },
    /// Every file has come.
    Finished,
}

/// What the caller read, as the receiver asked.
#[derive(Debug, Clone, PartialEq, Eq)]
pub enum DirRecvInput {
    /// A nine-byte number frame, decoded.
    Number(u64),
    /// The bytes asked for.
    Bytes(Vec<u8>),
}

/// What the receiver asks of the caller, in order.
#[derive(Debug, Clone, PartialEq, Eq)]
pub enum DirRecvAction {
    /// Read a number frame.
    ReadNumber,
    /// Read exactly this many bytes.
    ReadBytes(u64),
    /// Create the parent directories of this path.
    CreateParents(String),
    /// Create (or truncate) this file; the writes that follow go to it.
    CreateFile(String),
    /// Append these bytes to the file last created.
    Write(Vec<u8>),
}

/// An input as plain values: whether it is a number, the number, the bytes.
pub type RecvIn = (bool, int, Seq<u8>);

/// An action as plain values: its kind (0 read a number, 1 read bytes,
/// 2 create parents, 3 create file, 4 write), its count, path and bytes.
pub type RecvAct = (int, int, Seq<char>, Seq<u8>);

pub open spec fn input_view(i: DirRecvInput) -> RecvIn {
    match i {
        DirRecvInput::Number(n) => (true, n as int, Seq::empty()),
        DirRecvInput::Bytes(b) => (false, 0, b@),
    }
}

pub open spec fn action_view(a: DirRecvAction) -> RecvAct {
    match a {
        DirRecvAction::ReadNumber => (0, 0, Seq::empty(), Seq::empty()),
        DirRecvAction::ReadBytes(n) => (1, n as int, Seq::empty(), Seq::empty()),
        DirRecvAction::CreateParents(p) => (2, 0, p@, Seq::empty()),
        DirRecvAction::CreateFile(p) => (3, 0, p@, Seq::empty()),
        DirRecvAction::Write(b) => (4, 0, Seq::empty(), b@),
    }
}

pub open spec fn actions_view(v: Seq<DirRecvAction>) -> Seq<RecvAct> {
    v.map_values(|a: DirRecvAction| action_view(a))
}

pub open spec fn read_number() -> RecvAct {
    (0, 0, Seq::empty(), Seq::empty())
}

pub open spec fn read_bytes(n: int) -> RecvAct {
    (1, n, Seq::empty(), Seq::empty())
}

pub open spec fn create_parents(p: Seq<char>) -> RecvAct {
    (2, 0, p, Seq::empty())
}

pub open spec fn create_file(p: Seq<char>) -> RecvAct {
    (3, 0, p, Seq::empty())
}

pub open spec fn write(b: Seq<u8>) -> RecvAct {
    (4, 0, Seq::empty(), b)
}

/// The size of the content pieces.
pub open spec fn piece_cap() -> int {
    BUF_MAX_LEN_FILE_IO as int
}

/// After a file: the next file's path length, or the end.
pub open spec fn file_done(left: u64) -> (DirRecvPhase, Seq<RecvAct>) {
    if left > 1 {
        (DirRecvPhase::PathLen { left: (left - 1) as u64 }, seq![read_number()])
    } else {
        (DirRecvPhase::Finished, Seq::empty())
    }
}

/// The input is what the phase asked for: a number, or exactly the bytes
/// asked for. A path longer than the path buffer is refused (the transfer
/// cannot hold it).
pub open spec fn accepts(phase: DirRecvPhase, input: RecvIn) -> bool {
    match phase {
        DirRecvPhase::PathLen { .. } => input.0 && input.1 <= BUF_MAX_LEN_FILE_PATH,
        DirRecvPhase::Path { len, .. } => !input.0 && input.2.len() == len,
        DirRecvPhase::Size { .. } => input.0,
        DirRecvPhase::Content { size, done, .. } => !input.0 && done < size && input.2.len() == chunk_len(
            done as int,
            size as int,
            piece_cap(),
        ),
        DirRecvPhase::Finished => false,
    }
}

/// One step: the next phase, the file being received and the actions; or
/// `None` when a path is not UTF-8.
pub open spec fn recv_next(dir: Seq<char>, target: Seq<char>, phase: DirRecvPhase, input: RecvIn) -> Option<
    (DirRecvPhase, Seq<char>, Seq<RecvAct>),
> {
    match phase {
        DirRecvPhase::PathLen { left } => Some(
            (DirRecvPhase::Path { left, len: input.1 as u64 }, target, seq![read_bytes(input.1)]),
        ),
        DirRecvPhase::Path { left, len } => if valid_utf8(input.2) {
            let t = joined_path(dir, decode_utf8(input.2));
            Some((DirRecvPhase::Size { left }, t, seq![create_parents(t), read_number()]))
        } else {
            None
        },
        DirRecvPhase::Size { left } => {
            let size = input.1;
            if size == 0 {
                Some((file_done(left).0, target, seq![create_file(target)] + file_done(left).1))
            } else {
                Some(
                    (
                        DirRecvPhase::Content { left, size: size as u64, done: 0 },
                        target,
                        seq![create_file(target), read_bytes(chunk_len(0, size, piece_cap()))],
                    ),
                )
            }
        },
        DirRecvPhase::Content { left, size, done } => {
            let d = done + input.2.len();
            if d < size {
                Some(
                    (
                        DirRecvPhase::Content { left, size, done: d as u64 },
                        target,
                        seq![write(input.2), read_bytes(chunk_len(d, size as int, piece_cap()))],
                    ),
                )
            } else {
                Some((file_done(left).0, target, seq![write(input.2)] + file_done(left).1))
            }
        },
        DirRecvPhase::Finished => Some((phase, target, Seq::empty())),
    }
}

/// The receiving side of a directory transfer.
pub struct DirReceiver {
    dir: String,
    target: String,
    phase: DirRecvPhase,
}

impl DirReceiver {
    /// The directory the files go under.
    pub closed spec fn dir(self) -> Seq<char> {
        self.dir@
    }

    /// The file being received.
    pub closed spec fn target(self) -> Seq<char> {
        self.target@
    }

    pub closed spec fn phase(self) -> DirRecvPhase {
        self.phase
    }

    /// A receiver for `count` files under `dir`, and what it asks first.
    pub fn new(dir: String, count: u64) -> (r: (DirReceiver, Vec<DirRecvAction>))
        ensures
            r.0.dir() == dir@,
            r.0.target() == Seq::<char>::empty(),
            count == 0 ==> r.0.phase() == DirRecvPhase::Finished && actions_view(r.1@) == Seq::<RecvAct>::empty(),
            count > 0 ==> r.0.phase() == (DirRecvPhase::PathLen { left: count }) && actions_view(r.1@) == seq![
                read_number(),
            ],
    {
        let mut acts: Vec<DirRecvAction> = Vec::new();
        if count == 0 {
            proof {
                assert(actions_view(acts@) =~= Seq::<RecvAct>::empty());
            }
            (DirReceiver { dir, target: String::new(), phase: DirRecvPhase::Finished }, acts)
        } else {
            acts.push(DirRecvAction::ReadNumber);
            proof {
                assert(actions_view(acts@) =~= seq![read_number()]);
            }
            (DirReceiver { dir, target: String::new(), phase: DirRecvPhase::PathLen { left: count } }, acts)
        }
    }

    /// Whether the next number is the length of a file's path (which a
    /// caller must keep within `BUF_MAX_LEN_FILE_PATH`, see `accepts`).
    pub fn expects_path_len(&self) -> (b: bool)
        ensures
            b == (self.phase() is PathLen),
    {
        match self.phase {
            DirRecvPhase::PathLen { .. } => true,
            _ => false,
        }
    }

    /// Whether every file has come.
    pub fn is_finished(&self) -> (b: bool)
        ensures
            b == (self.phase() == DirRecvPhase::Finished),
    {
        self.phase == DirRecvPhase::Finished
    }

    fn finish_file(&mut self, left: u64, acts: &mut Vec<DirRecvAction>)
        ensures
            final(self).phase == file_done(left).0,
            final(self).dir == old(self).dir,
            final(self).target == old(self).target,
            actions_view(final(acts)@) == actions_view(old(acts)@) + file_done(left).1,
    {
        let ghost before = actions_view(acts@);
        if left > 1 {
            self.phase = DirRecvPhase::PathLen { left: left - 1 };
            acts.push(DirRecvAction::ReadNumber);
            proof {
                assert(actions_view(acts@) =~= before + seq![read_number()]);
            }
        } else {
            self.phase = DirRecvPhase::Finished;
            proof {
                assert(actions_view(acts@) =~= before + Seq::<RecvAct>::empty());
            }
        }
    }

    /// Takes what the caller read; answers what to do next, or the error of
    /// a path that is not UTF-8 (the receiver is then unchanged).
    pub fn step(&mut self, input: DirRecvInput) -> (r: Result<Vec<DirRecvAction>, PipelineError>)
        requires
            accepts(old(self).phase(), input_view(input)),
        ensures
            final(self).dir() == old(self).dir(),
            match recv_next(old(self).dir(), old(self).target(), old(self).phase(), input_view(input)) {
                Some((p, t, acts)) => (r matches Ok(v) && actions_view(v@) == acts) && final(self).phase() == p
                    && final(self).target() == t,
                None => (r matches Err(e) && e is Utf8Error) && final(self).phase() == old(self).phase()
                    && final(self).target() == old(self).target(),
            },
    {
        let mut acts: Vec<DirRecvAction> = Vec::new();
        match self.phase {
            DirRecvPhase::PathLen { left } => {
                let len = match input {
                    DirRecvInput::Number(n) => n,
                    DirRecvInput::Bytes(_) => 0,
                };
                self.phase = DirRecvPhase::Path { left, len };
                acts.push(DirRecvAction::ReadBytes(len));
                proof {
                    assert(actions_view(acts@) =~= seq![read_bytes(len as int)]);
                }
                Ok(acts)
            },
            DirRecvPhase::Path { left, len } => {
                let b = match input {
                    DirRecvInput::Bytes(b) => b,
                    DirRecvInput::Number(_) => Vec::new(),
                };
                proof {
                    assert(b@.take(b@.len() as int) =~= b@);
                }
                let rel = match decode_text(b.as_slice(), b.len()) {
                    Ok(s) => s,
                    Err(e) => return Err(e),
                };
                let t = join_path(self.dir.as_str(), rel.as_str());
                let t2 = t.clone();
                self.target = t;
                self.phase = DirRecvPhase::Size { left };
                acts.push(DirRecvAction::CreateParents(t2));
                acts.push(DirRecvAction::ReadNumber);
                proof {
                    assert(actions_view(acts@) =~= seq![create_parents(self.target@), read_number()]);
                }
                Ok(acts)
            },
            DirRecvPhase::Size { left } => {
                let size = match input {
                    DirRecvInput::Number(n) => n,
                    DirRecvInput::Bytes(_) => 0,
                };
                acts.push(DirRecvAction::CreateFile(self.target.clone()));
                let ghost first = actions_view(acts@);
                proof {
                    assert(first =~= seq![create_file(self.target@)]);
                }
                if size == 0 {
                    self.finish_file(left, &mut acts);
                } else {
                    let n = next_chunk(0, size, BUF_MAX_LEN_FILE_IO as u64);
                    self.phase = DirRecvPhase::Content { left, size, done: 0 };
                    acts.push(DirRecvAction::ReadBytes(n));
                    proof {
                        assert(actions_view(acts@) =~= seq![create_file(self.target@), read_bytes(n as int)]);
                    }
                }
                Ok(acts)
            },
            DirRecvPhase::Content { left, size, done } => {
                let b = match input {
                    DirRecvInput::Bytes(b) => b,
                    DirRecvInput::Number(_) => Vec::new(),
                };
                let d = done + b.len() as u64;
                let ghost bv = b@;
                acts.push(DirRecvAction::Write(b));
                proof {
                    assert(actions_view(acts@) =~= seq![write(bv)]);
                }
                if d < size {
                    let n = next_chunk(d, size, BUF_MAX_LEN_FILE_IO as u64);
                    self.phase = DirRecvPhase::Content { left, size, done: d };
                    acts.push(DirRecvAction::ReadBytes(n));
                    proof {
                        assert(actions_view(acts@) =~= seq![write(bv), read_bytes(n as int)]);
                    }
                } else {
                    self.finish_file(left, &mut acts);
                }
                Ok(acts)
            },
            DirRecvPhase::Finished => Ok(acts),
        }
    }
}

/// The receiver fed `inputs` one after the other: the phase, the file and
/// all the actions; `None` if a step fails.
pub open spec fn run(dir: Seq<char>, target: Seq<char>, phase: DirRecvPhase, inputs: Seq<RecvIn>) -> Option<
    (DirRecvPhase, Seq<char>, Seq<RecvAct>),
>
    decreases inputs.len(),
{
    if inputs.len() == 0 {
        Some((phase, target, Seq::empty()))
    } else {
        match recv_next(dir, target, phase, inputs[0]) {
            None => None,
            Some((p, t, a)) => match run(dir, t, p, inputs.drop_first()) {
                None => None,
                Some((p2, t2, a2)) => Some((p2, t2, a + a2)),
            },
        }
    }
}

/// The pieces in which the sender sends `c` from `done` on.
pub open spec fn chunk_inputs(c: Seq<u8>, done: int) -> Seq<RecvIn>
    decreases c.len() - done,
{
    if done < 0 || done >= c.len() {
        Seq::empty()
    } else {
        let n = chunk_len(done, c.len() as int, piece_cap());
        seq![(false, 0int, c.subrange(done, done + n))] + chunk_inputs(c, done + n)
    }
}

/// What the receiver does with those pieces: each is written, and the
/// next one read while some is left.
pub open spec fn chunk_acts(c: Seq<u8>, done: int) -> Seq<RecvAct>
    decreases c.len() - done,
{
    if done < 0 || done >= c.len() {
        Seq::empty()
    } else {
        let n = chunk_len(done, c.len() as int, piece_cap());
        if done + n < c.len() {
            seq![write(c.subrange(done, done + n)), read_bytes(chunk_len(done + n, c.len() as int, piece_cap()))]
                + chunk_acts(c, done + n)
        } else {
            seq![write(c.subrange(done, done + n))]
        }
    }
}

/// The bytes the actions write, one write after the other.
pub open spec fn writes_of(acts: Seq<RecvAct>) -> Seq<u8>
    decreases acts.len(),
{
    if acts.len() == 0 {
        Seq::empty()
    } else {
        (if acts[0].0 == 4 {
            acts[0].3
        } else {
            Seq::empty()
        }) + writes_of(acts.drop_first())
    }
}

/// The files the actions create, in order.
pub open spec fn files_created(acts: Seq<RecvAct>) -> Seq<Seq<char>>
    decreases acts.len(),
{
    if acts.len() == 0 {
        Seq::empty()
    } else {
        (if acts[0].0 == 3 {
            seq![acts[0].2]
        } else {
            Seq::empty()
        }) + files_created(acts.drop_first())
    }
}

/// What the sender writes for one file: its relative path's length, the
/// path, the content's size and the content in pieces.
pub open spec fn entry_inputs(rel: Seq<u8>, c: Seq<u8>) -> Seq<RecvIn> {
    seq![(true, rel.len() as int, Seq::<u8>::empty()), (false, 0int, rel), (true, c.len() as int, Seq::<u8>::empty())]
        + chunk_inputs(c, 0)
}

proof fn lemma_run_append(dir: Seq<char>, t: Seq<char>, p: DirRecvPhase, a: Seq<RecvIn>, b: Seq<RecvIn>)
    ensures
        run(dir, t, p, a + b) == match run(dir, t, p, a) {
            None => None,
            Some((p1, t1, x)) => match run(dir, t1, p1, b) {
                None => None,
                Some((p2, t2, y)) => Some((p2, t2, x + y)),
            },
        },
    decreases a.len(),
{
    if a.len() == 0 {
        assert(a + b =~= b);
        match run(dir, t, p, b) {
            None => {},
            Some((p2, t2, y)) => {
                assert(Seq::<RecvAct>::empty() + y =~= y);
            },
        }
    } else {
        assert((a + b)[0] == a[0]);
        assert((a + b).drop_first() =~= a.drop_first() + b);
        match recv_next(dir, t, p, a[0]) {
            None => {},
            Some((p1, t1, x1)) => {
                lemma_run_append(dir, t1, p1, a.drop_first(), b);
                match run(dir, t1, p1, a.drop_first()) {
                    None => {},
                    Some((pm, tm, xm)) => {
                        match run(dir, tm, pm, b) {
                            None => {},
                            Some((p2, t2, y)) => {
                                assert(x1 + (xm + y) =~= (x1 + xm) + y);
                            },
                        }
                    },
                }
            },
        }
    }
}

proof fn lemma_writes_append(a: Seq<RecvAct>, b: Seq<RecvAct>)
    ensures
        writes_of(a + b) == writes_of(a) + writes_of(b),
        files_created(a + b) == files_created(a) + files_created(b),
    decreases a.len(),
{
    if a.len() == 0 {
        assert(a + b =~= b);
        assert(writes_of(a) + writes_of(b) =~= writes_of(b));
        assert(files_created(a) + files_created(b) =~= files_created(b));
    } else {
        assert((a + b)[0] == a[0]);
        assert((a + b).drop_first() =~= a.drop_first() + b);
        lemma_writes_append(a.drop_first(), b);
        let w0: Seq<u8> = if a[0].0 == 4 { a[0].3 } else { Seq::empty() };
        let f0: Seq<Seq<char>> = if a[0].0 == 3 { seq![a[0].2] } else { Seq::empty() };
        assert(w0 + (writes_of(a.drop_first()) + writes_of(b)) =~= (w0 + writes_of(a.drop_first())) + writes_of(b));
        assert(f0 + (files_created(a.drop_first()) + files_created(b)) =~= (f0 + files_created(a.drop_first()))
            + files_created(b));
    }
}

proof fn lemma_chunk_len_pos(done: int, total: int)
    requires
        0 <= done < total,
    ensures
        0 < chunk_len(done, total, piece_cap()) <= total - done,
{
}

/// The pieces of the content, received from `done` on, are written in
/// order: together they are the rest of the content, and no file is made.
proof fn lemma_chunk_writes(c: Seq<u8>, done: int)
    requires
        0 <= done <= c.len(),
    ensures
        writes_of(chunk_acts(c, done)) == c.skip(done),
        files_created(chunk_acts(c, done)) == Seq::<Seq<char>>::empty(),
    decreases c.len() - done,
{
    if done >= c.len() {
        assert(c.skip(done) =~= Seq::<u8>::empty());
    } else {
        let n = chunk_len(done, c.len() as int, piece_cap());
        lemma_chunk_len_pos(done, c.len() as int);
        let w = c.subrange(done, done + n);
        if done + n < c.len() {
            let head = seq![write(w), read_bytes(chunk_len(done + n, c.len() as int, piece_cap()))];
            lemma_writes_append(head, chunk_acts(c, done + n));
            lemma_chunk_writes(c, done + n);
            assert(writes_of(head) =~= w) by {
                reveal_with_fuel(writes_of, 3);
                assert(head.drop_first().drop_first() =~= Seq::<RecvAct>::empty());
            }
            assert(files_created(head) =~= Seq::<Seq<char>>::empty()) by {
                reveal_with_fuel(files_created, 3);
                assert(head.drop_first().drop_first() =~= Seq::<RecvAct>::empty());
            }
            assert(w + c.skip(done + n) =~= c.skip(done));
        } else {
            let one = seq![write(w)];
            reveal_with_fuel(writes_of, 2);
            reveal_with_fuel(files_created, 2);
            assert(one.drop_first() =~= Seq::<RecvAct>::empty());
            assert(writes_of(one) =~= w);
            assert(w =~= c.skip(done));
        }
    }
}

/// Fed the pieces of the content from `done` on, a receiver of that
/// content writes them and moves on to the next file.
proof fn lemma_content_received(dir: Seq<char>, t: Seq<char>, left: u64, c: Seq<u8>, done: int)
    requires
        0 <= done < c.len() <= u64::MAX,
    ensures
        run(dir, t, DirRecvPhase::Content { left, size: c.len() as u64, done: done as u64 }, chunk_inputs(c, done))
            == Some::<(DirRecvPhase, Seq<char>, Seq<RecvAct>)>(
            (file_done(left).0, t, chunk_acts(c, done) + file_done(left).1),
        ),
    decreases c.len() - done,
{
    reveal_with_fuel(run, 2);
    let n = chunk_len(done, c.len() as int, piece_cap());
    lemma_chunk_len_pos(done, c.len() as int);
    let w = c.subrange(done, done + n);
    assert(w.len() == n);
    let ins = chunk_inputs(c, done);
    assert(ins[0] == (false, 0int, w));
    assert(ins.drop_first() =~= chunk_inputs(c, done + n));
    if done + n < c.len() {
        lemma_content_received(dir, t, left, c, done + n);
        let head = seq![write(w), read_bytes(chunk_len(done + n, c.len() as int, piece_cap()))];
        assert(head + (chunk_acts(c, done + n) + file_done(left).1) =~= chunk_acts(c, done) + file_done(left).1);
    } else {
        assert(chunk_inputs(c, done + n) =~= Seq::<RecvIn>::empty());
        assert(file_done(left).1 =~= Seq::<RecvAct>::empty() + file_done(left).1);
        assert(seq![write(w)] + file_done(left).1 + Seq::<RecvAct>::empty() =~= chunk_acts(c, done) + file_done(
            left,
        ).1);
    }
}

/// The three header inputs of a file: its path's length, its path and its
/// content's size.
pub open spec fn entry_header(rel: Seq<u8>, size: int) -> Seq<RecvIn> {
    seq![(true, rel.len() as int, Seq::<u8>::empty()), (false, 0int, rel), (true, size, Seq::<u8>::empty())]
}

/// The actions up to the file's creation.
pub open spec fn entry_prelude(t: Seq<char>, rel: Seq<u8>) -> Seq<RecvAct> {
    seq![read_bytes(rel.len() as int), create_parents(t), read_number(), create_file(t)]
}

/// The actions of a file's content.
pub open spec fn entry_body(c: Seq<u8>) -> Seq<RecvAct> {
    if c.len() == 0 {
        Seq::empty()
    } else {
        seq![read_bytes(chunk_len(0, c.len() as int, piece_cap()))] + chunk_acts(c, 0)
    }
}

/// The header of a file takes the receiver to the file's content (or past
/// an empty file).
proof fn lemma_header_received(dir: Seq<char>, t0: Seq<char>, left: u64, rel: Seq<u8>, size: u64)
    requires
        valid_utf8(rel),
    ensures
        ({
            let t = joined_path(dir, decode_utf8(rel));
            run(dir, t0, DirRecvPhase::PathLen { left }, entry_header(rel, size as int)) == (if size == 0 {
                Some::<(DirRecvPhase, Seq<char>, Seq<RecvAct>)>(
                    (file_done(left).0, t, entry_prelude(t, rel) + file_done(left).1),
                )
            } else {
                Some::<(DirRecvPhase, Seq<char>, Seq<RecvAct>)>(
                    (
                        DirRecvPhase::Content { left, size, done: 0 },
                        t,
                        entry_prelude(t, rel) + seq![read_bytes(chunk_len(0, size as int, piece_cap()))],
                    ),
                )
            })
        }),
{
    reveal_with_fuel(run, 4);
    let t = joined_path(dir, decode_utf8(rel));
    let h = entry_header(rel, size as int);
    let e = Seq::<u8>::empty();
    assert(h[0] == (true, rel.len() as int, e));
    assert(h.drop_first()[0] == (false, 0int, rel));
    assert(h.drop_first().drop_first()[0] == (true, size as int, e));
    assert(h.drop_first().drop_first().drop_first() =~= Seq::<RecvIn>::empty());
    let p1 = DirRecvPhase::Path { left, len: rel.len() as u64 };
    let p2 = DirRecvPhase::Size { left };
    assert(recv_next(dir, t0, DirRecvPhase::PathLen { left }, h[0]) == Some::<(DirRecvPhase, Seq<char>, Seq<RecvAct>)>(
        (p1, t0, seq![read_bytes(rel.len() as int)]),
    ));
    assert(recv_next(dir, t0, p1, h.drop_first()[0]) == Some::<(DirRecvPhase, Seq<char>, Seq<RecvAct>)>(
        (p2, t, seq![create_parents(t), read_number()]),
    ));
    if size == 0 {
        let tail = seq![create_file(t)] + file_done(left).1;
        assert(seq![read_bytes(rel.len() as int)] + (seq![create_parents(t), read_number()] + (tail
            + Seq::<RecvAct>::empty())) =~= entry_prelude(t, rel) + file_done(left).1);
    } else {
        let tail = seq![create_file(t), read_bytes(chunk_len(0, size as int, piece_cap()))];
        assert(seq![read_bytes(rel.len() as int)] + (seq![create_parents(t), read_number()] + (tail
            + Seq::<RecvAct>::empty())) =~= entry_prelude(t, rel) + seq![
            read_bytes(chunk_len(0, size as int, piece_cap())),
        ]);
    }
}

/// What the receiver does with one file, from the length of its path to
/// the last piece of its content.
pub open spec fn entry_acts(t: Seq<char>, rel: Seq<u8>, c: Seq<u8>) -> Seq<RecvAct> {
    entry_prelude(t, rel) + entry_body(c)
}

proof fn lemma_entry_acts_content(t: Seq<char>, rel: Seq<u8>, c: Seq<u8>)
    ensures
        writes_of(entry_acts(t, rel, c)) == c,
        files_created(entry_acts(t, rel, c)) == seq![t],
{
    let pre = entry_prelude(t, rel);
    let body = entry_body(c);
    lemma_chunk_writes(c, 0);
    assert(c.skip(0) =~= c);
    lemma_writes_append(pre, body);
    assert(writes_of(pre) =~= Seq::<u8>::empty()) by {
        reveal_with_fuel(writes_of, 5);
        assert(pre.drop_first().drop_first().drop_first().drop_first() =~= Seq::<RecvAct>::empty());
    }
    assert(files_created(pre) =~= seq![t]) by {
        reveal_with_fuel(files_created, 5);
        assert(pre.drop_first().drop_first().drop_first().drop_first() =~= Seq::<RecvAct>::empty());
        assert(pre.drop_first().drop_first().drop_first()[0] == create_file(t));
    }
    if c.len() > 0 {
        let r1 = seq![read_bytes(chunk_len(0, c.len() as int, piece_cap()))];
        lemma_writes_append(r1, chunk_acts(c, 0));
        assert(r1.drop_first() =~= Seq::<RecvAct>::empty());
        reveal_with_fuel(writes_of, 2);
        reveal_with_fuel(files_created, 2);
        assert(writes_of(r1) =~= Seq::<u8>::empty());
        assert(files_created(r1) =~= Seq::<Seq<char>>::empty());
    } else {
        assert(writes_of(body) =~= Seq::<u8>::empty());
    }
    assert(seq![t] + Seq::<Seq<char>>::empty() =~= seq![t]);
    assert(Seq::<u8>::empty() + c =~= c);
}

/// A file sent to a directory arrives whole: a receiver waiting for a
/// file's path, fed what the sender writes for a file (a relative path in
/// UTF-8 that fits the path buffer, and any content), creates the file at
/// that path under the directory, writes exactly the content to it, and
/// moves on to the next file or ends.
pub proof fn lemma_entry_received(dir: Seq<char>, t0: Seq<char>, left: u64, rel: Seq<u8>, c: Seq<u8>)
    requires
        valid_utf8(rel),
        rel.len() <= BUF_MAX_LEN_FILE_PATH,
        c.len() <= u64::MAX,
    ensures
        ({
            let t = joined_path(dir, decode_utf8(rel));
            &&& run(dir, t0, DirRecvPhase::PathLen { left }, entry_inputs(rel, c)) == Some::<
                (DirRecvPhase, Seq<char>, Seq<RecvAct>),
            >((file_done(left).0, t, entry_acts(t, rel, c) + file_done(left).1))
            &&& writes_of(entry_acts(t, rel, c)) == c
            &&& files_created(entry_acts(t, rel, c)) == seq![t]
        }),
{
    let t = joined_path(dir, decode_utf8(rel));
    let size = c.len() as u64;
    lemma_header_received(dir, t0, left, rel, size);
    assert(entry_inputs(rel, c) =~= entry_header(rel, size as int) + chunk_inputs(c, 0));
    lemma_run_append(dir, t0, DirRecvPhase::PathLen { left }, entry_header(rel, size as int), chunk_inputs(c, 0));
    if c.len() == 0 {
        assert(chunk_inputs(c, 0) =~= Seq::<RecvIn>::empty());
        assert(entry_body(c) =~= Seq::<RecvAct>::empty());
        assert(entry_prelude(t, rel) + file_done(left).1 + Seq::<RecvAct>::empty() =~= entry_acts(t, rel, c)
            + file_done(left).1);
    } else {
        lemma_content_received(dir, t, left, c, 0);
        assert(entry_prelude(t, rel) + seq![read_bytes(chunk_len(0, size as int, piece_cap()))] + (chunk_acts(c, 0)
            + file_done(left).1) =~= entry_acts(t, rel, c) + file_done(left).1);
    }
    lemma_entry_acts_content(t, rel, c);
}

/// What the sender writes for a list of files, each a relative path and
/// content, one after the other.
pub open spec fn dir_inputs(entries: Seq<(Seq<u8>, Seq<u8>)>) -> Seq<RecvIn>
    decreases entries.len(),
{
    if entries.len() == 0 {
        Seq::empty()
    } else {
        entry_inputs(entries[0].0, entries[0].1) + dir_inputs(entries.drop_first())
    }
}

/// What the receiver does with those files: the actions of each file, with
/// a read of the next path's length between two files.
pub open spec fn dir_acts(dir: Seq<char>, entries: Seq<(Seq<u8>, Seq<u8>)>) -> Seq<RecvAct>
    decreases entries.len(),
{
    if entries.len() == 0 {
        Seq::empty()
    } else {
        let t = joined_path(dir, decode_utf8(entries[0].0));
        entry_acts(t, entries[0].0, entries[0].1) + (if entries.len() > 1 {
            seq![read_number()]
        } else {
            Seq::empty()
        }) + dir_acts(dir, entries.drop_first())
    }
}

/// Every relative path is UTF-8 and fits the path buffer, and every
/// content's size fits a `u64`.
pub open spec fn sendable(entries: Seq<(Seq<u8>, Seq<u8>)>) -> bool {
    forall|i: int|
        0 <= i < entries.len() ==> valid_utf8(#[trigger] entries[i].0) && entries[i].0.len() <= BUF_MAX_LEN_FILE_PATH
            && entries[i].1.len() <= u64::MAX
}

/// A directory sent arrives whole: a receiver told to expect the number of
/// files the sender sends, fed what the sender writes for them, ends with
/// every file received, and its actions are, file after file, those of
/// `lemma_entry_received` (the file created under the directory at its
/// relative path, then exactly its content written).
pub proof fn lemma_dir_received(dir: Seq<char>, t0: Seq<char>, entries: Seq<(Seq<u8>, Seq<u8>)>)
    requires
        1 <= entries.len() <= u64::MAX,
        sendable(entries),
    ensures
        run(dir, t0, DirRecvPhase::PathLen { left: entries.len() as u64 }, dir_inputs(entries)) == Some::<
            (DirRecvPhase, Seq<char>, Seq<RecvAct>),
        >((DirRecvPhase::Finished, joined_path(dir, decode_utf8(entries.last().0)), dir_acts(dir, entries))),
    decreases entries.len(),
{
    let n = entries.len() as u64;
    let e0 = entries[0];
    let rest = entries.drop_first();
    let t = joined_path(dir, decode_utf8(e0.0));
    assert(valid_utf8(entries[0].0));
    lemma_entry_received(dir, t0, n, e0.0, e0.1);
    lemma_run_append(dir, t0, DirRecvPhase::PathLen { left: n }, entry_inputs(e0.0, e0.1), dir_inputs(rest));
    if n > 1 {
        assert(sendable(rest)) by {
            assert forall|i: int| 0 <= i < rest.len() implies valid_utf8(#[trigger] rest[i].0) && rest[i].0.len()
                <= BUF_MAX_LEN_FILE_PATH && rest[i].1.len() <= u64::MAX by {
                assert(rest[i] == entries[i + 1]);
            }
        }
        lemma_dir_received(dir, t, rest);
        assert(rest.last() == entries.last());
        assert(entry_acts(t, e0.0, e0.1) + file_done(n).1 + dir_acts(dir, rest) == dir_acts(dir, entries));
    } else {
        assert(rest.len() == 0);
        assert(dir_inputs(rest) =~= Seq::<RecvIn>::empty());
        assert(dir_acts(dir, rest) =~= Seq::<RecvAct>::empty());
        assert(entries.last() == e0);
        assert(entry_acts(t, e0.0, e0.1) + file_done(n).1 + Seq::<RecvAct>::empty() =~= dir_acts(dir, entries));
    }
}

/// The error of a source directory that is missing or not a directory;
/// `local` for the client's own directory, otherwise the enclave's.
pub open spec fn source_dir_error(exists: bool, is_dir: bool, path: Seq<char>, local: bool) -> Option<
    (Seq<char>, Seq<char>),
> {
    if !exists {
        Some(("check existence"@, if local {
            "Local directory does not exist"@
        } else {
            "Directory does not exist"@
        }))
    } else if !is_dir {
        Some(("check type"@, if local {
            "Local path is not a directory"@
        } else {
            "Path is not a directory"@
        }))
    } else {
        None
    }
}

/// A directory to send must exist and be a directory.
pub fn source_dir_check(exists: bool, is_dir: bool, path: &str, local: bool) -> (r: Result<(), PipelineError>)
    ensures
        match source_dir_error(exists, is_dir, path@, local) {
            None => r is Ok,
            Some((op, msg)) => r matches Err(PipelineError::DirectoryError { operation, path: p, message }) && operation@
                == op && p@ == path@ && message@ == msg,
        },
{
    if !exists {
        let message = if local {
            "Local directory does not exist"
        } else {
            "Directory does not exist"
        };
        return Err(
            PipelineError::DirectoryError {
                operation: "check existence".to_string(),
                path: path.to_string(),
                message: message.to_string(),
            },
        );
    }
    if !is_dir {
        let message = if local {
            "Local path is not a directory"
        } else {
            "Path is not a directory"
        };
        return Err(
            PipelineError::DirectoryError {
                operation: "check type".to_string(),
                path: path.to_string(),
                message: message.to_string(),
            },
        );
    }
    Ok(())
}

/// The client refuses a listing of no files: the enclave's directory is
/// empty or missing.
pub fn listing_check(count: u64, remote: &str) -> (r: Result<(), PipelineError>)
    ensures
        count > 0 <==> r is Ok,
        r matches Err(PipelineError::DirectoryError { operation, path, message }) ==> operation@ == "check"@
            && path@ == remote@ && message@ == "Remote directory is empty or does not exist"@,
        r matches Err(e) ==> e is DirectoryError,
{
    if count == 0 {
        Err(
            PipelineError::DirectoryError {
                operation: "check".to_string(),
                path: remote.to_string(),
                message: "Remote directory is empty or does not exist".to_string(),
            },
        )
    } else {
        Ok(())
    }
}

} // verus!
