//! The port-forwarding proxy's addresses: `cid:port` VSock addresses and
//! the original destination that the enclave side sends ahead of a stream.

use vstd::prelude::*;
use crate::numparse::{int_error_text, parse_u32, parse_unsigned, IntErrorKind};
use crate::text::{concat2, u64_to_decimal, decimal};
use crate::textscan::{find_from, find_text, lemma_find_from};

verus! {

/// A VSock address.
#[derive(Debug, Clone, Copy, PartialEq, Eq, Structural)]
pub struct VsockAddress {
    pub cid: u32,
    pub port: u32,
}

/// Why a text is not a `cid:port` address.
#[derive(Debug, Clone, Copy, PartialEq, Eq, Structural)]
pub enum VsockAddrParseError {
    /// The text has no `:`.
    SplitError,
    /// The part before the first `:` is not a `u32`.
    CidParseError(IntErrorKind),
    /// The part after the first `:` is not a `u32`.
    PortParseError(IntErrorKind),
}

/// The message of an address error, as its `Display` writes it.
pub open spec fn vsock_error_text(e: VsockAddrParseError) -> Seq<char> {
    match e {
        VsockAddrParseError::SplitError => "invalid vsock address, should contain one colon [:] sign"@,
        VsockAddrParseError::CidParseError(_) => "failed to parse cid as a u32"@,
        VsockAddrParseError::PortParseError(_) => "failed to parse port as a u32"@,
    }
}

impl VsockAddrParseError {
    /// The error's message.
    pub fn message(&self) -> (s: &'static str)
        ensures
            s@ == vsock_error_text(*self),
    {
        match self {
            VsockAddrParseError::SplitError => "invalid vsock address, should contain one colon [:] sign",
            VsockAddrParseError::CidParseError(_) => "failed to parse cid as a u32",
            VsockAddrParseError::PortParseError(_) => "failed to parse port as a u32",
        }
    }
}

/// The address a `cid:port` text names, split at its first `:`.
pub open spec fn vsock_address_of(addr: Seq<char>) -> Result<VsockAddress, VsockAddrParseError> {
    match find_from(addr, seq![':'], 0) {
        None => Err(VsockAddrParseError::SplitError),
        Some(p) => match parse_unsigned(addr.take(p), u32::MAX as int) {
            Err(k) => Err(VsockAddrParseError::CidParseError(k)),
            Ok(cid) => match parse_unsigned(addr.skip(p + 1), u32::MAX as int) {
                Err(k) => Err(VsockAddrParseError::PortParseError(k)),
                Ok(port) => Ok(VsockAddress { cid: cid as u32, port: port as u32 }),
            },
        },
    }
}

/// Reads a `cid:port` VSock address.
pub fn split_vsock(addr: &str) -> (r: Result<VsockAddress, VsockAddrParseError>)
    ensures
        r == vsock_address_of(addr@),
{
    proof {
        reveal_strlit(":");
        assert(":"@ =~= seq![':']);
    }
    let n = addr.unicode_len();
    match find_text(addr, ":") {
        None => Err(VsockAddrParseError::SplitError),
        Some(p) => {
            proof {
                assert(find_from(addr@, seq![':'], 0) == Some(p as int));
                lemma_find_from(addr@, seq![':'], 0);
                assert(p < n);
            }
            let cid_text = addr.substring_char(0, p);
            let port_text = addr.substring_char(p + 1, n);
            proof {
                assert(cid_text@ =~= addr@.take(p as int));
                assert(port_text@ =~= addr@.skip(p + 1));
            }
            let cid = match parse_u32(cid_text) {
                Ok(c) => c,
                Err(k) => return Err(VsockAddrParseError::CidParseError(k)),
            };
            let port = match parse_u32(port_text) {
                Ok(q) => q,
                Err(k) => return Err(VsockAddrParseError::PortParseError(k)),
            };
            Ok(VsockAddress { cid, port })
        },
    }
}

/// Why the original destination could not be read.
#[derive(Debug, Clone, Copy, PartialEq, Eq, Structural)]
pub enum ProxyError {
    /// The IP version marker is neither 4 nor 6.
    MalformedOriginalDst { marker: u8 },
}

/// The message of a proxy error, as its `Display` writes it.
pub open spec fn proxy_error_text(e: ProxyError) -> Seq<char> {
    match e {
        ProxyError::MalformedOriginalDst { marker } =>
            "can't retrieve original_dst from vsock stream: malformed bytes or invalid IP version marker "@
            + decimal(marker as nat),
    }
}

impl ProxyError {
    /// The error's message.
    pub fn message(&self) -> (s: String)
        ensures
            s@ == proxy_error_text(*self),
    {
        match self {
            ProxyError::MalformedOriginalDst { marker } => concat2(
                "can't retrieve original_dst from vsock stream: malformed bytes or invalid IP version marker ",
                u64_to_decimal(*marker as u64).as_str(),
            ),
        }
    }
}

/// The destination a proxied connection was meant for, as the enclave side
/// sends it: an IP version marker, the address and the port, little-endian.
#[derive(Debug, Clone, Copy, PartialEq, Eq, Structural)]
#[allow(inconsistent_fields)]
pub enum OriginalDst {
    V4 { ip: u32, port: u16 },
    V6 { ip: u128, port: u16 },
}

/// The value of the little-endian bytes `b`.
pub open spec fn le_value(b: Seq<u8>) -> nat
    decreases b.len(),
{
    if b.len() == 0 {
        0
    } else {
        b[0] as nat + 256 * le_value(b.drop_first())
    }
}

/// 256 to the power `i`.
pub open spec fn b256(i: nat) -> nat
    decreases i,
{
    if i == 0 {
        1
    } else {
        256 * b256((i - 1) as nat)
    }
}

proof fn lemma_le_value_bound(b: Seq<u8>)
    ensures
        le_value(b) < b256(b.len()),
    decreases b.len(),
{
    if b.len() > 0 {
        lemma_le_value_bound(b.drop_first());
    }
}

proof fn lemma_le_value_push(b: Seq<u8>, x: u8)
    ensures
        le_value(b.push(x)) == le_value(b) + x as nat * b256(b.len()),
    decreases b.len(),
{
    if b.len() == 0 {
        assert(b.push(x).drop_first() =~= Seq::<u8>::empty());
        assert(le_value(Seq::<u8>::empty()) == 0);
        assert(le_value(b.push(x)) == x as nat + 256 * le_value(b.push(x).drop_first()));
        assert(le_value(b) == 0);
        assert(b256(0) == 1);
        assert(x as nat * 1 == x as nat);
    } else {
        assert(b.push(x).drop_first() =~= b.drop_first().push(x));
        lemma_le_value_push(b.drop_first(), x);
        let p = b256((b.len() - 1) as nat);
        let l = le_value(b.drop_first());
        assert(b256(b.len()) == 256 * p);
        assert(b.push(x)[0] == b[0]);
        assert(le_value(b.push(x)) == b[0] as nat + 256 * le_value(b.drop_first().push(x)));
        assert(le_value(b) == b[0] as nat + 256 * l);
        assert(le_value(b.drop_first().push(x)) == l + x as nat * p);
        assert(256 * (l + x as nat * p) == 256 * l + x as nat * (256 * p)) by (nonlinear_arith);
        assert(le_value(b.push(x)) == le_value(b) + x as nat * b256(b.len()));
    }
}

proof fn lemma_b256_values()
    ensures
        b256(2) == 65536,
        b256(4) == 0x1_0000_0000,
        b256(15) == 0x1_0000_0000_0000_0000_0000_0000_0000_00nat,
        b256(16) == 0x1_0000_0000_0000_0000_0000_0000_0000_0000,
{
    reveal_with_fuel(b256, 17);
}

proof fn lemma_b256_mono(i: nat, j: nat)
    requires
        i <= j,
    ensures
        b256(i) <= b256(j),
    decreases j,
{
    if i < j {
        lemma_b256_mono(i, (j - 1) as nat);
    }
}

/// The little-endian value of the first `n` bytes of `b`.
fn read_le(b: &[u8], n: usize) -> (v: u128)
    requires
        n <= 16,
        n <= b@.len(),
    ensures
        v as nat == le_value(b@.take(n as int)),
{
    let mut v: u128 = 0;
    let mut scale: u128 = 1;
    let mut i: usize = 0;
    proof {
        lemma_b256_values();
    }
    while i < n
        invariant
            n <= 16,
            n <= b@.len(),
            i <= n,
            v as nat == le_value(b@.take(i as int)),
            i < 16 ==> scale as nat == b256(i as nat),
            b256(16) == 0x1_0000_0000_0000_0000_0000_0000_0000_0000,
            v < b256(i as nat),
        decreases n - i,
    {
        proof {
            assert(b@.take(i + 1) =~= b@.take(i as int).push(b@[i as int]));
            lemma_le_value_push(b@.take(i as int), b@[i as int]);
            lemma_le_value_bound(b@.take(i + 1));
            lemma_b256_mono((i + 1) as nat, 16);
            if i + 1 < 16 {
                lemma_b256_mono((i + 1) as nat, 15);
                assert(b256((i + 1) as nat) == 256 * b256(i as nat));
            }
        }
        v = v + (b[i] as u128) * scale;
        if i + 1 < 16 {
            scale = scale * 256;
        }
        i = i + 1;
    }
    v
}

/// How many address bytes follow an IP version marker; any marker other
/// than 4 and 6 is malformed.
pub fn address_len(marker: u8) -> (r: Result<usize, ProxyError>)
    ensures
        marker == 4 ==> r == Ok::<usize, ProxyError>(4usize),
        marker == 6 ==> r == Ok::<usize, ProxyError>(16usize),
        marker != 4 && marker != 6 ==> r == Err::<usize, ProxyError>(ProxyError::MalformedOriginalDst { marker }),
{
    if marker == 4 {
        Ok(4)
    } else if marker == 6 {
        Ok(16)
    } else {
        Err(ProxyError::MalformedOriginalDst { marker })
    }
}

/// The original destination sent after `marker`: `bytes` holds the address
/// and then the port, little-endian. A marker other than 4 or 6 is
/// malformed.
pub fn decode_original_dst(marker: u8, bytes: &[u8]) -> (r: Result<OriginalDst, ProxyError>)
    requires
        marker == 4 ==> bytes@.len() >= 6,
        marker == 6 ==> bytes@.len() >= 18,
    ensures
        marker == 4 ==> r == Ok::<OriginalDst, ProxyError>(OriginalDst::V4 {
            ip: le_value(bytes@.take(4)) as u32,
            port: le_value(bytes@.subrange(4, 6)) as u16,
        }),
        marker == 6 ==> r == Ok::<OriginalDst, ProxyError>(OriginalDst::V6 {
            ip: le_value(bytes@.take(16)) as u128,
            port: le_value(bytes@.subrange(16, 18)) as u16,
        }),
        marker != 4 && marker != 6 ==> r == Err::<OriginalDst, ProxyError>(ProxyError::MalformedOriginalDst { marker }),
{
    match address_len(marker) {
        Err(e) => Err(e),
        Ok(n) => {
            let ip = read_le(bytes, n);
            let mut port_bytes: Vec<u8> = Vec::new();
            port_bytes.push(bytes[n]);
            port_bytes.push(bytes[n + 1]);
            proof {
                assert(port_bytes@ =~= bytes@.subrange(n as int, n + 2));
                assert(bytes@.subrange(n as int, n + 2).take(2) =~= bytes@.subrange(n as int, n + 2));
                lemma_le_value_bound(bytes@.take(n as int));
                lemma_le_value_bound(bytes@.subrange(n as int, n + 2));
                lemma_b256_values();
            }
            let port = read_le(port_bytes.as_slice(), 2);
            proof {
                assert(port_bytes@.take(2) =~= port_bytes@);
            }
            if marker == 4 {
                Ok(OriginalDst::V4 { ip: ip as u32, port: port as u16 })
            } else {
                Ok(OriginalDst::V6 { ip, port: port as u16 })
            }
        },
    }
}

} // verus!
