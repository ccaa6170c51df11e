//! The pipeline's wire format over VSock: little-endian integers, command
//! identifiers, and the chunking of file transfers.

use vstd::prelude::*;
use byteorder::{ByteOrder, LittleEndian};
use crate::pipe_error::PipelineError;
use crate::text::{concat2, u64_to_decimal};

verus! {

/// The eight bytes of `v`, least significant first.
pub open spec fn le_bytes_u64(v: u64) -> Seq<u8> {
    seq![
        v as u8,
        (v >> 8u64) as u8,
        (v >> 16u64) as u8,
        (v >> 24u64) as u8,
        (v >> 32u64) as u8,
        (v >> 40u64) as u8,
        (v >> 48u64) as u8,
        (v >> 56u64) as u8,
    ]
}

/// The integer whose bytes, least significant first, start `b`.
pub open spec fn le_value_u64(b: Seq<u8>) -> u64 {
    (b[0] as u64) | ((b[1] as u64) << 8u64) | ((b[2] as u64) << 16u64) | ((b[3] as u64) << 24u64)
        | ((b[4] as u64) << 32u64) | ((b[5] as u64) << 40u64) | ((b[6] as u64) << 48u64) | ((
    b[7] as u64) << 56u64)
}

/// The four bytes of `v`, least significant first.
pub open spec fn le_bytes_u32(v: u32) -> Seq<u8> {
    seq![v as u8, (v >> 8u32) as u8, (v >> 16u32) as u8, (v >> 24u32) as u8]
}

/// The integer whose bytes, least significant first, start `b`.
pub open spec fn le_value_u32(b: Seq<u8>) -> u32 {
    (b[0] as u32) | ((b[1] as u32) << 8u32) | ((b[2] as u32) << 16u32) | ((b[3] as u32) << 24u32)
}

/// `LittleEndian::write_u64`: writes the eight bytes of `n`, least
/// significant first, over the start of `buf`; it panics on a shorter buffer.
#[verifier::external_body]
fn write_u64_le(buf: &mut Vec<u8>, n: u64)
    requires
        old(buf)@.len() >= 8,
    ensures
        final(buf)@ == le_bytes_u64(n) + old(buf)@.skip(8),
{
    LittleEndian::write_u64(buf.as_mut_slice(), n)
}

/// `LittleEndian::read_u64`: the integer whose eight bytes, least
/// significant first, start `buf`; it panics on a shorter buffer.
#[verifier::external_body]
fn read_u64_le(buf: &[u8]) -> (r: u64)
    requires
        buf@.len() >= 8,
    ensures
        r == le_value_u64(buf@),
{
    LittleEndian::read_u64(buf)
}

/// `LittleEndian::write_i32`: writes the four bytes of `n`'s two's
/// complement, least significant first, over the start of `buf`.
#[verifier::external_body]
fn write_i32_le(buf: &mut Vec<u8>, n: i32)
    requires
        old(buf)@.len() >= 4,
    ensures
        final(buf)@ == le_bytes_u32(n as u32) + old(buf)@.skip(4),
{
    LittleEndian::write_i32(buf.as_mut_slice(), n)
}

/// `LittleEndian::read_i32`: the integer whose two's complement is the four
/// bytes, least significant first, that start `buf`.
#[verifier::external_body]
fn read_i32_le(buf: &[u8]) -> (r: i32)
    requires
        buf@.len() >= 4,
    ensures
        r == le_value_u32(buf@) as i32,
{
    LittleEndian::read_i32(buf)
}

fn zeroed(n: usize) -> (v: Vec<u8>)
    ensures
        v@ == Seq::new(n as nat, |i: int| 0u8),
{
    let mut v: Vec<u8> = Vec::new();
    let mut i: usize = 0;
    while i < n
        invariant
            i <= n,
            v@ == Seq::new(i as nat, |j: int| 0u8),
        decreases n - i,
    {
        v.push(0u8);
        proof {
            assert(v@ =~= Seq::new((i + 1) as nat, |j: int| 0u8));
        }
        i = i + 1;
    }
    v
}

/// The nine bytes that carry a length or a command identifier: the eight
/// bytes of the value, least significant first, and a zero byte.
pub fn encode_u64(val: u64) -> (buf: Vec<u8>)
    ensures
        buf@ == le_bytes_u64(val).push(0u8),
{
    let mut buf = zeroed(9);
    write_u64_le(&mut buf, val);
    proof {
        assert(buf@ =~= le_bytes_u64(val).push(0u8));
    }
    buf
}

/// The value carried by a nine-byte frame (its first eight bytes).
pub fn decode_u64(buf: &[u8]) -> (v: u64)
    requires
        buf@.len() >= 8,
    ensures
        v == le_value_u64(buf@),
{
    read_u64_le(buf)
}

/// The four bytes that carry an exit code.
pub fn encode_i32(val: i32) -> (buf: Vec<u8>)
    ensures
        buf@ == le_bytes_u32(val as u32),
{
    let mut buf = zeroed(4);
    write_i32_le(&mut buf, val);
    proof {
        assert(buf@ =~= le_bytes_u32(val as u32));
    }
    buf
}

/// The exit code carried by four bytes.
pub fn decode_i32(buf: &[u8]) -> (v: i32)
    requires
        buf@.len() >= 4,
    ensures
        v == le_value_u32(buf@) as i32,
{
    read_i32_le(buf)
}

/// Decoding a frame gives back the value that was encoded.
pub proof fn lemma_u64_frame_roundtrip(v: u64)
    ensures
        le_value_u64(le_bytes_u64(v).push(0u8)) == v,
{
    let b = le_bytes_u64(v).push(0u8);
    assert(b[0] == v as u8 && b[1] == (v >> 8u64) as u8 && b[2] == (v >> 16u64) as u8 && b[3] == (v
        >> 24u64) as u8 && b[4] == (v >> 32u64) as u8 && b[5] == (v >> 40u64) as u8 && b[6] == (v
        >> 48u64) as u8 && b[7] == (v >> 56u64) as u8);
    assert(((v as u8) as u64) | ((((v >> 8u64) as u8) as u64) << 8u64) | ((((v >> 16u64) as u8) as u64)
        << 16u64) | ((((v >> 24u64) as u8) as u64) << 24u64) | ((((v >> 32u64) as u8) as u64) << 32u64)
        | ((((v >> 40u64) as u8) as u64) << 40u64) | ((((v >> 48u64) as u8) as u64) << 48u64) | ((((v
        >> 56u64) as u8) as u64) << 56u64) == v) by (bit_vector);
}

/// Decoding an exit code gives back the code that was encoded.
pub proof fn lemma_i32_roundtrip(v: i32)
    ensures
        le_value_u32(le_bytes_u32(v as u32)) as i32 == v,
{
    let u = v as u32;
    let b = le_bytes_u32(u);
    assert(b[0] == u as u8 && b[1] == (u >> 8u32) as u8 && b[2] == (u >> 16u32) as u8 && b[3] == (u
        >> 24u32) as u8);
    assert(((u as u8) as u32) | ((((u >> 8u32) as u8) as u32) << 8u32) | ((((u >> 16u32) as u8) as u32)
        << 16u32) | ((((u >> 24u32) as u8) as u32) << 24u32) == u) by (bit_vector);
    assert((v as u32) as i32 == v) by (bit_vector);
}

/// The operations a client asks of the listener.
#[derive(Debug, Clone, Copy, PartialEq, Eq, Structural)]
pub enum CmdId {
    RunCmd,
    RecvFile,
    SendFile,
    RunCmdNoWait,
    SendDir,
    RecvDir,
}

/// The number that identifies an operation on the wire.
pub open spec fn cmd_code(c: CmdId) -> u64 {
    match c {
        CmdId::RunCmd => 0,
        CmdId::RecvFile => 1,
        CmdId::SendFile => 2,
        CmdId::RunCmdNoWait => 3,
        CmdId::SendDir => 4,
        CmdId::RecvDir => 5,
    }
}

impl CmdId {
    /// The number that identifies the operation on the wire.
    pub fn code(&self) -> (n: u64)
        ensures
            n == cmd_code(*self),
    {
        match self {
            CmdId::RunCmd => 0,
            CmdId::RecvFile => 1,
            CmdId::SendFile => 2,
            CmdId::RunCmdNoWait => 3,
            CmdId::SendDir => 4,
            CmdId::RecvDir => 5,
        }
    }

    /// The operation a number identifies, if any.
    pub fn from_u64(n: u64) -> (c: Option<CmdId>)
        ensures
            match c {
                Some(id) => cmd_code(id) == n,
                None => n > 5,
            },
    {
        if n == 0 {
            Some(CmdId::RunCmd)
        } else if n == 1 {
            Some(CmdId::RecvFile)
        } else if n == 2 {
            Some(CmdId::SendFile)
        } else if n == 3 {
            Some(CmdId::RunCmdNoWait)
        } else if n == 4 {
            Some(CmdId::SendDir)
        } else if n == 5 {
            Some(CmdId::RecvDir)
        } else {
            None
        }
    }

    /// The operation a received number asks for; an unknown number is an
    /// `InvalidCommandId` error.
    pub fn parse(n: u64) -> (r: Result<CmdId, PipelineError>)
        ensures
            match r {
                Ok(id) => cmd_code(id) == n,
                Err(e) => n > 5 && e == PipelineError::InvalidCommandId(n),
            },
    {
        match CmdId::from_u64(n) {
            Some(id) => Ok(id),
            None => Err(PipelineError::InvalidCommandId(n)),
        }
    }
}

/// Size of the next piece of a transfer of `total` bytes of which `done`
/// have gone: the buffer's size, or what is left when that is less.
pub open spec fn chunk_len(done: int, total: int, cap: int) -> int {
    if total - done < cap {
        total - done
    } else {
        cap
    }
}

/// The sizes of the pieces of a transfer from `done` on.
pub open spec fn chunks_from(done: int, total: int, cap: int) -> Seq<int>
    decreases total - done,
{
    if done >= total || cap <= 0 {
        Seq::empty()
    } else {
        seq![chunk_len(done, total, cap)] + chunks_from(done + chunk_len(done, total, cap), total, cap)
    }
}

/// The sum of a sequence of sizes.
pub open spec fn total_of(s: Seq<int>) -> int
    decreases s.len(),
{
    if s.len() == 0 {
        0
    } else {
        s[0] + total_of(s.drop_first())
    }
}

/// The size of the next piece of a transfer.
pub fn next_chunk(done: u64, total: u64, cap: u64) -> (n: u64)
    requires
        done < total,
    ensures
        n == chunk_len(done as int, total as int, cap as int),
        n <= cap,
        done + n <= total,
{
    let left = total - done;
    if left < cap {
        left
    } else {
        cap
    }
}

/// A transfer's pieces add up to the whole file, each piece is non-empty
/// and no larger than the buffer.
pub proof fn lemma_chunks_cover(done: int, total: int, cap: int)
    requires
        0 <= done <= total,
        cap > 0,
    ensures
        total_of(chunks_from(done, total, cap)) == total - done,
        forall|k: int|
            0 <= k < chunks_from(done, total, cap).len() ==> 0 < #[trigger] chunks_from(
                done,
                total,
                cap,
            )[k] <= cap,
    decreases total - done,
{
    if done < total {
        let c = chunk_len(done, total, cap);
        lemma_chunks_cover(done + c, total, cap);
        let s = chunks_from(done, total, cap);
        assert(s.drop_first() =~= chunks_from(done + c, total, cap));
        assert forall|k: int| 0 <= k < s.len() implies 0 < #[trigger] s[k] <= cap by {
            if k > 0 {
                assert(s[k] == chunks_from(done + c, total, cap)[k - 1]);
            }
        }
    }
}

/// What one `send` or `recv` call on the socket gave.
#[derive(Debug, Clone)]
pub enum IoStep {
    /// This many bytes went through.
    Moved(usize),
    /// The call was interrupted (`EINTR`) and is retried.
    Interrupted,
    /// The call failed with this error.
    Failed(String),
}

/// The progress of a send or receive loop of `len` bytes after one call:
/// the bytes moved so far, or the loop's error. The count of bytes moved
/// must fit in `usize` (adding it would overflow otherwise).
pub fn io_progress(sending: bool, done: usize, len: usize, step: IoStep) -> (r: Result<usize, PipelineError>)
    requires
        done < len,
        step matches IoStep::Moved(n) ==> done + n <= usize::MAX,
    ensures
        match step {
            IoStep::Moved(n) => r == Ok::<usize, PipelineError>((done + n) as usize),
            IoStep::Interrupted => r == Ok::<usize, PipelineError>(done),
            IoStep::Failed(e) => if sending {
                r matches Err(PipelineError::SendError { bytes, message }) && bytes == len
                    && message@ == "nix send error: "@ + e@
            } else {
                r matches Err(PipelineError::RecvError { bytes, message }) && bytes == len
                    && message@ == "nix recv error: "@ + e@
            },
        },
{
    match step {
        IoStep::Moved(n) => Ok(done + n),
        IoStep::Interrupted => Ok(done),
        IoStep::Failed(e) => {
            if sending {
                Err(PipelineError::SendError { bytes: len, message: concat2("nix send error: ", e.as_str()) })
            } else {
                Err(PipelineError::RecvError { bytes: len, message: concat2("nix recv error: ", e.as_str()) })
            }
        },
    }
}

/// The number of times a client tries to connect.
pub const MAX_CONNECTION_ATTEMPTS: usize = 10;

/// The seconds a client waits after failed attempt `attempt` (from 0).
pub fn retry_delay_secs(attempt: usize) -> (s: u64)
    requires
        attempt < 64,
    ensures
        s == vstd::arithmetic::power2::pow2(attempt as nat),
{
    proof {
        vstd::bits::lemma_u64_pow2_no_overflow(attempt as nat);
        vstd::bits::lemma_u64_shl_is_mul(1, attempt as u64);
    }
    1u64 << (attempt as u64)
}

/// The error after every connection attempt failed; `last` is the error of
/// the last attempt.
pub fn connect_failure(last: &str) -> (e: PipelineError)
    ensures
        e matches PipelineError::ConnectionError(m) && m@ == "Failed to connect: "@ + last@,
{
    PipelineError::ConnectionError(concat2("Failed to connect: ", last))
}

/// A length received on the wire, as a buffer index.
pub fn wire_len(len: u64) -> (r: Result<usize, PipelineError>)
    ensures
        len <= usize::MAX ==> r == Ok::<usize, PipelineError>(len as usize),
        len > usize::MAX ==> r is Err,
{
    if len <= usize::MAX as u64 {
        Ok(len as usize)
    } else {
        let n = u64_to_decimal(len);
        let mut m = concat2("Failed to convert length ", n.as_str());
        m.append(" to usize: out of range integral type conversion attempted");
        Err(PipelineError::ConversionError(m))
    }
}

} // verus!
