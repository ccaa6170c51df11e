//! The record of a three-party Diffie-Hellman exchange (Alice, Bob and the
//! Cheshire Cat): the random seed, the secrets each pair shares as computed
//! by either side, and the key derived from a shared secret with HKDF over
//! SHA3-512, salted with the seed.

use vstd::prelude::*;
use hkdf::hmac::SimpleHmac;
use hkdf::Hkdf;
use rand_core::RngCore;
use sha3::Sha3_512;

verus! {

/// `RngCore::fill_bytes` on `OsRng`: 64 random bytes from the operating system.
#[verifier::external_body]
fn random_seed() -> (seed: Vec<u8>)
    ensures
        seed@.len() == 64,
{
    let mut seed = vec![0u8; 64];
    rand_core::OsRng.fill_bytes(&mut seed);
    seed
}

/// The HKDF output (RFC 5869) with SHA3-512: extract with `salt` from
/// `ikm`, expand with empty info to `len` bytes; a function of its arguments.
pub uninterp spec fn hkdf_sha3_512_of(salt: Seq<u8>, ikm: Seq<u8>, len: nat) -> Seq<u8>;

/// `Hkdf::<Sha3_512, SimpleHmac<Sha3_512>>::new(Some(salt), ikm)` then
/// `expand(&[], ..)` into `len` bytes: fails exactly when `len` is more than
/// 255 blocks of 64 bytes.
#[verifier::external_body]
fn hkdf_sha3_512(salt: &[u8], ikm: &[u8], len: usize) -> (r: Option<Vec<u8>>)
    ensures
        r is Some <==> len <= 255 * 64,
        r matches Some(okm) ==> okm@ == hkdf_sha3_512_of(salt@, ikm@, len as nat) && okm@.len() == len,
{
    let hk = Hkdf::<Sha3_512, SimpleHmac<Sha3_512>>::new(Some(salt), ikm);
    let mut okm = vec![0u8; len];
    match hk.expand(&[], &mut okm) {
        Ok(()) => Some(okm),
        Err(_) => None,
    }
}

/// The key two parties derive from their shared secret: 64 bytes of HKDF
/// over SHA3-512, salted with the seed.
pub fn derive_key(seed: &[u8], shared: &[u8]) -> (k: Vec<u8>)
    ensures
        k@ == hkdf_sha3_512_of(seed@, shared@, 64),
        k@.len() == 64,
{
    match hkdf_sha3_512(seed, shared, 64) {
        Some(k) => k,
        None => Vec::new(),
    }
}

/// The secrets three parties (Alice, Bob and the Cheshire Cat) share pairwise,
/// each as computed by either side, the seed, and the key Alice derives from
/// what she shares with Bob.
#[derive(Debug, Clone)]
pub struct SharedKeys {
    pub seed: Vec<u8>,
    pub alice_with_bob: Vec<u8>,
    pub bob_with_alice: Vec<u8>,
    pub alice_with_cat: Vec<u8>,
    pub cat_with_alice: Vec<u8>,
    pub bob_with_cat: Vec<u8>,
    pub cat_with_bob: Vec<u8>,
    /// HKDF over SHA3-512 of Alice's secret shared with Bob, salted with the seed.
    pub alice_bob_key: Vec<u8>,
}

/// A fresh random seed of 64 bytes.
pub fn new_seed() -> (seed: Vec<u8>)
    ensures
        seed@.len() == 64,
{
    random_seed()
}

/// The record of an exchange: the secrets as each side computed them, and
/// the key Alice derives from the secret she shares with Bob.
pub fn shared_keys(
    seed: Vec<u8>,
    alice_with_bob: Vec<u8>,
    bob_with_alice: Vec<u8>,
    alice_with_cat: Vec<u8>,
    cat_with_alice: Vec<u8>,
    bob_with_cat: Vec<u8>,
    cat_with_bob: Vec<u8>,
) -> (k: SharedKeys)
    ensures
        k.seed@ == seed@,
        k.alice_with_bob@ == alice_with_bob@,
        k.bob_with_alice@ == bob_with_alice@,
        k.alice_with_cat@ == alice_with_cat@,
        k.cat_with_alice@ == cat_with_alice@,
        k.bob_with_cat@ == bob_with_cat@,
        k.cat_with_bob@ == cat_with_bob@,
        k.alice_bob_key@ == hkdf_sha3_512_of(seed@, alice_with_bob@, 64),
        k.alice_bob_key@.len() == 64,
{
    let alice_bob_key = derive_key(seed.as_slice(), alice_with_bob.as_slice());
    SharedKeys {
        seed,
        alice_with_bob,
        bob_with_alice,
        alice_with_cat,
        cat_with_alice,
        bob_with_cat,
        cat_with_bob,
        alice_bob_key,
    }
}

/// Whether `k256::SecretKey::from_slice` accepts the bytes as a secret
/// key; a function of the bytes alone.
pub uninterp spec fn k256_secret_ok(secret: Seq<u8>) -> bool;

/// Whether `k256::PublicKey::from_sec1_bytes` accepts the bytes as a
/// public key; a function of the bytes alone.
pub uninterp spec fn k256_point_ok(public: Seq<u8>) -> bool;

/// A fresh random secp256k1 secret key (`k256::SecretKey::random` on
/// `OsRng`), as its 32 big-endian bytes (`to_bytes`). It is random; what is stated
/// is its length and that `SecretKey::from_slice` takes it back: the key is
/// a non-zero scalar below the curve order, and full-length bytes of such a
/// scalar are accepted.
#[verifier::external_body]
fn k256_random_secret() -> (s: Vec<u8>)
    ensures
        s@.len() == 32,
        k256_secret_ok(s@),
{
    k256::SecretKey::random(&mut rand_core::OsRng).to_bytes().to_vec()
}

/// The SEC1 encoding of the secp256k1 public key of a secret key; a
/// function of the secret's bytes alone.
pub uninterp spec fn k256_public_of(secret: Seq<u8>) -> Seq<u8>;

/// `k256::SecretKey::from_slice` then `public_key`, SEC1-encoded through
/// `EncodedPoint::from`; `None` exactly when `from_slice` refuses the bytes.
/// The encoding of a public key is one that `PublicKey::from_sec1_bytes`
/// takes back.
#[verifier::external_body]
fn k256_public(secret: &[u8]) -> (r: Option<Vec<u8>>)
    ensures
        r is Some <==> k256_secret_ok(secret@),
        r matches Some(p) ==> p@ == k256_public_of(secret@) && k256_point_ok(p@),
{
    match k256::SecretKey::from_slice(secret) {
        Ok(sk) => Some(k256::EncodedPoint::from(sk.public_key()).as_bytes().to_vec()),
        Err(_) => None,
    }
}

/// The raw bytes of the secp256k1 Diffie-Hellman secret of a secret key and
/// a SEC1-encoded public key; a function of both alone.
pub uninterp spec fn k256_shared_of(secret: Seq<u8>, public: Seq<u8>) -> Seq<u8>;

/// `k256::SecretKey::from_slice` and `PublicKey::from_sec1_bytes`, then
/// `elliptic_curve::ecdh::diffie_hellman` of the secret scalar and the
/// public point, as `raw_secret_bytes`; `None` exactly when either key is
/// refused.
#[verifier::external_body]
fn k256_shared(secret: &[u8], public: &[u8]) -> (r: Option<Vec<u8>>)
    ensures
        r is Some <==> (k256_secret_ok(secret@) && k256_point_ok(public@)),
        r matches Some(x) ==> x@ == k256_shared_of(secret@, public@),
{
    match (k256::SecretKey::from_slice(secret), k256::PublicKey::from_sec1_bytes(public)) {
        (Ok(sk), Ok(pk)) => Some(
            k256::elliptic_curve::ecdh::diffie_hellman(sk.to_nonzero_scalar(), pk.as_affine())
                .raw_secret_bytes()
                .to_vec(),
        ),
        _ => None,
    }
}

/// Whether `p224::SecretKey::from_slice` accepts the bytes as a secret
/// key; a function of the bytes alone.
pub uninterp spec fn p224_secret_ok(secret: Seq<u8>) -> bool;

/// Whether `p224::PublicKey::from_sec1_bytes` accepts the bytes as a
/// public key; a function of the bytes alone.
pub uninterp spec fn p224_point_ok(public: Seq<u8>) -> bool;

/// A fresh random P-224 secret key (`p224::SecretKey::random` on `OsRng`),
/// as its 28 big-endian bytes (`to_bytes`). It is random; what is stated
/// is its length and that `SecretKey::from_slice` takes it back: the key is
/// a non-zero scalar below the curve order, and full-length bytes of such a
/// scalar are accepted.
#[verifier::external_body]
fn p224_random_secret() -> (s: Vec<u8>)
    ensures
        s@.len() == 28,
        p224_secret_ok(s@),
{
    p224::SecretKey::random(&mut rand_core::OsRng).to_bytes().to_vec()
}

/// The SEC1 encoding of the P-224 public key of a secret key; a function
/// of the secret's bytes alone.
pub uninterp spec fn p224_public_of(secret: Seq<u8>) -> Seq<u8>;

/// `p224::SecretKey::from_slice` then `public_key`, SEC1-encoded through
/// `EncodedPoint::from`; `None` exactly when `from_slice` refuses the bytes.
/// The encoding of a public key is one that `PublicKey::from_sec1_bytes`
/// takes back.
#[verifier::external_body]
fn p224_public(secret: &[u8]) -> (r: Option<Vec<u8>>)
    ensures
        r is Some <==> p224_secret_ok(secret@),
        r matches Some(p) ==> p@ == p224_public_of(secret@) && p224_point_ok(p@),
{
    match p224::SecretKey::from_slice(secret) {
        Ok(sk) => Some(p224::EncodedPoint::from(sk.public_key()).as_bytes().to_vec()),
        Err(_) => None,
    }
}

/// The raw bytes of the P-224 Diffie-Hellman secret of a secret key and a
/// SEC1-encoded public key; a function of both alone.
pub uninterp spec fn p224_shared_of(secret: Seq<u8>, public: Seq<u8>) -> Seq<u8>;

/// `p224::SecretKey::from_slice` and `PublicKey::from_sec1_bytes`, then
/// `elliptic_curve::ecdh::diffie_hellman` of the secret scalar and the
/// public point, as `raw_secret_bytes`; `None` exactly when either key is
/// refused.
#[verifier::external_body]
fn p224_shared(secret: &[u8], public: &[u8]) -> (r: Option<Vec<u8>>)
    ensures
        r is Some <==> (p224_secret_ok(secret@) && p224_point_ok(public@)),
        r matches Some(x) ==> x@ == p224_shared_of(secret@, public@),
{
    match (p224::SecretKey::from_slice(secret), p224::PublicKey::from_sec1_bytes(public)) {
        (Ok(sk), Ok(pk)) => Some(
            p224::elliptic_curve::ecdh::diffie_hellman(sk.to_nonzero_scalar(), pk.as_affine())
                .raw_secret_bytes()
                .to_vec(),
        ),
        _ => None,
    }
}

/// The record holds, for the secret keys `a` (Alice), `b` (Bob) and `c`
/// (the Cheshire Cat) on secp256k1, the secret each party computes with
/// each other party's public key.
pub open spec fn k256_record(k: SharedKeys, a: Seq<u8>, b: Seq<u8>, c: Seq<u8>) -> bool {
    &&& k.alice_with_bob@ == k256_shared_of(a, k256_public_of(b))
    &&& k.bob_with_alice@ == k256_shared_of(b, k256_public_of(a))
    &&& k.alice_with_cat@ == k256_shared_of(a, k256_public_of(c))
    &&& k.cat_with_alice@ == k256_shared_of(c, k256_public_of(a))
    &&& k.bob_with_cat@ == k256_shared_of(b, k256_public_of(c))
    &&& k.cat_with_bob@ == k256_shared_of(c, k256_public_of(b))
}

/// The same on P-224.
pub open spec fn p224_record(k: SharedKeys, a: Seq<u8>, b: Seq<u8>, c: Seq<u8>) -> bool {
    &&& k.alice_with_bob@ == p224_shared_of(a, p224_public_of(b))
    &&& k.bob_with_alice@ == p224_shared_of(b, p224_public_of(a))
    &&& k.alice_with_cat@ == p224_shared_of(a, p224_public_of(c))
    &&& k.cat_with_alice@ == p224_shared_of(c, p224_public_of(a))
    &&& k.bob_with_cat@ == p224_shared_of(b, p224_public_of(c))
    &&& k.cat_with_bob@ == p224_shared_of(c, p224_public_of(b))
}

/// A three-party exchange on secp256k1 with fresh random keys, salted with
/// `seed`: each party's secret with each other party, computed with the
/// other's public key, and Alice's key derived from what she shares with
/// Bob. Every key drawn is one the curve crate accepts, so it succeeds.
pub fn k256_exchange(seed: Vec<u8>) -> (r: Option<SharedKeys>)
    ensures
        r is Some,
        r matches Some(k) ==> k.seed@ == seed@ && k.alice_bob_key@ == hkdf_sha3_512_of(seed@, k.alice_with_bob@, 64)
            && exists|a: Seq<u8>, b: Seq<u8>, c: Seq<u8>| #[trigger] k256_record(k, a, b, c),
{
    let a = k256_random_secret();
    let b = k256_random_secret();
    let c = k256_random_secret();
    let pa = match k256_public(a.as_slice()) { Some(p) => p, None => return None };
    let pb = match k256_public(b.as_slice()) { Some(p) => p, None => return None };
    let pc = match k256_public(c.as_slice()) { Some(p) => p, None => return None };
    let ab = match k256_shared(a.as_slice(), pb.as_slice()) { Some(x) => x, None => return None };
    let ba = match k256_shared(b.as_slice(), pa.as_slice()) { Some(x) => x, None => return None };
    let ac = match k256_shared(a.as_slice(), pc.as_slice()) { Some(x) => x, None => return None };
    let ca = match k256_shared(c.as_slice(), pa.as_slice()) { Some(x) => x, None => return None };
    let bc = match k256_shared(b.as_slice(), pc.as_slice()) { Some(x) => x, None => return None };
    let cb = match k256_shared(c.as_slice(), pb.as_slice()) { Some(x) => x, None => return None };
    let k = shared_keys(seed, ab, ba, ac, ca, bc, cb);
    proof {
        assert(k256_record(k, a@, b@, c@));
    }
    Some(k)
}

/// The same exchange on P-224; it succeeds likewise.
pub fn p224_exchange(seed: Vec<u8>) -> (r: Option<SharedKeys>)
    ensures
        r is Some,
        r matches Some(k) ==> k.seed@ == seed@ && k.alice_bob_key@ == hkdf_sha3_512_of(seed@, k.alice_with_bob@, 64)
            && exists|a: Seq<u8>, b: Seq<u8>, c: Seq<u8>| #[trigger] p224_record(k, a, b, c),
{
    let a = p224_random_secret();
    let b = p224_random_secret();
    let c = p224_random_secret();
    let pa = match p224_public(a.as_slice()) { Some(p) => p, None => return None };
    let pb = match p224_public(b.as_slice()) { Some(p) => p, None => return None };
    let pc = match p224_public(c.as_slice()) { Some(p) => p, None => return None };
    let ab = match p224_shared(a.as_slice(), pb.as_slice()) { Some(x) => x, None => return None };
    let ba = match p224_shared(b.as_slice(), pa.as_slice()) { Some(x) => x, None => return None };
    let ac = match p224_shared(a.as_slice(), pc.as_slice()) { Some(x) => x, None => return None };
    let ca = match p224_shared(c.as_slice(), pa.as_slice()) { Some(x) => x, None => return None };
    let bc = match p224_shared(b.as_slice(), pc.as_slice()) { Some(x) => x, None => return None };
    let cb = match p224_shared(c.as_slice(), pb.as_slice()) { Some(x) => x, None => return None };
    let k = shared_keys(seed, ab, ba, ac, ca, bc, cb);
    proof {
        assert(p224_record(k, a@, b@, c@));
    }
    Some(k)
}

/// The three pairs agree: each secret is the same as computed by either
/// side.
pub open spec fn pairs_agree(k: SharedKeys) -> bool {
    &&& k.alice_with_bob@ == k.bob_with_alice@
    &&& k.alice_with_cat@ == k.cat_with_alice@
    &&& k.bob_with_cat@ == k.cat_with_bob@
}

/// The three pairs' secrets differ from one another.
pub open spec fn pairs_distinct(k: SharedKeys) -> bool {
    &&& k.alice_with_bob@ != k.alice_with_cat@
    &&& k.alice_with_bob@ != k.bob_with_cat@
    &&& k.alice_with_cat@ != k.bob_with_cat@
}

fn same_bytes(a: &Vec<u8>, b: &Vec<u8>) -> (r: bool)
    ensures
        r == (a@ == b@),
{
    if a.len() != b.len() {
        return false;
    }
    let mut i: usize = 0;
    while i < a.len()
        invariant
            a@.len() == b@.len(),
            i <= a@.len(),
            forall|j: int| 0 <= j < i ==> a@[j] == b@[j],
        decreases a@.len() - i,
    {
        if a[i] != b[i] {
            return false;
        }
        i = i + 1;
    }
    proof {
        assert(a@ =~= b@);
    }
    true
}

/// Whether each pair agrees on its secret and the pairs' secrets differ.
pub fn exchange_sound(k: &SharedKeys) -> (b: bool)
    ensures
        b == (pairs_agree(*k) && pairs_distinct(*k)),
{
    same_bytes(&k.alice_with_bob, &k.bob_with_alice) && same_bytes(&k.alice_with_cat, &k.cat_with_alice)
        && same_bytes(&k.bob_with_cat, &k.cat_with_bob) && !same_bytes(&k.alice_with_bob, &k.alice_with_cat)
        && !same_bytes(&k.alice_with_bob, &k.bob_with_cat) && !same_bytes(&k.alice_with_cat, &k.bob_with_cat)
}

} // verus!
