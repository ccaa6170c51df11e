use enclave_tools::fs_watch::bytes_to_hex;
use enclave_tools::key_exchange::{derive_key, exchange_sound, k256_exchange, new_seed, p224_exchange, shared_keys};
use rand_core::OsRng;

#[test]
fn key_is_hkdf_sha3_512() {
    let k = derive_key(b"salt", b"secret");
    assert_eq!(
        bytes_to_hex(&k),
        "07d0dccb076bcc2f5ef00633f4f93154c407c20cfd90e756765f9ad57c15f787b7d0ab1eb0e6b962474d201dc641b7c2df95fb67778c4fd2b525342ad27fbf11"
    );
    let k = derive_key(&[0u8; 64], &[0u8; 32]);
    assert_eq!(
        bytes_to_hex(&k),
        "e0ea560096cecd618fc2d0511b0dcb8bea2091a3649ea8a4b9ca8310aedafd3d0d5ac117b9a934b9bede7b1ca401f2667eb4b2050b4c1c1a23317ebd3797508f"
    );
}

#[test]
fn seeds_are_fresh() {
    let a = new_seed();
    let b = new_seed();
    assert_eq!(a.len(), 64);
    assert_ne!(a, b);
}

#[test]
fn exchange_record() {
    let k = shared_keys(vec![0; 64], vec![1; 32], vec![1; 32], vec![2; 32], vec![2; 32], vec![3; 32], vec![3; 32]);
    assert!(exchange_sound(&k));
    assert_eq!(k.alice_bob_key, derive_key(&[0u8; 64], &[1u8; 32]));
    let bad = shared_keys(vec![0; 64], vec![1; 32], vec![9; 32], vec![2; 32], vec![2; 32], vec![3; 32], vec![3; 32]);
    assert!(!exchange_sound(&bad));
    let same = shared_keys(vec![0; 64], vec![1; 32], vec![1; 32], vec![1; 32], vec![1; 32], vec![3; 32], vec![3; 32]);
    assert!(!exchange_sound(&same));
}

#[test]
fn k256_test_cipher() {
    let random_seed = new_seed();
    println!("Random seed: {:?}", random_seed);

    let alice_secret = k256::ecdh::EphemeralSecret::random(&mut OsRng);
    let bob_secret = k256::ecdh::EphemeralSecret::random(&mut OsRng);
    let alice_public = k256::PublicKey::from_sec1_bytes(k256::EncodedPoint::from(alice_secret.public_key()).as_ref())
        .expect("alice's public key is invalid!");
    let bob_public = k256::PublicKey::from_sec1_bytes(k256::EncodedPoint::from(bob_secret.public_key()).as_ref())
        .expect("bob's public key is invalid!");
    let alice_shared_with_bob = alice_secret.diffie_hellman(&bob_public);
    let bob_shared_with_alice = bob_secret.diffie_hellman(&alice_public);

    let cheshire_cat_secret = k256::ecdh::EphemeralSecret::random(&mut OsRng);
    let cheshire_cat_public = k256::PublicKey::from_sec1_bytes(k256::EncodedPoint::from(cheshire_cat_secret.public_key()).as_ref())
        .expect("Cheshire Cat's public key is invalid!");
    let cheshire_cat_shared_with_alice = cheshire_cat_secret.diffie_hellman(&alice_public);
    let alice_shared_with_cheshire_cat = alice_secret.diffie_hellman(&cheshire_cat_public);
    let cheshire_cat_shared_with_bob = cheshire_cat_secret.diffie_hellman(&bob_public);
    let bob_shared_with_cheshire_cat = bob_secret.diffie_hellman(&cheshire_cat_public);

    assert_eq!(alice_shared_with_bob.raw_secret_bytes(), bob_shared_with_alice.raw_secret_bytes());
    assert_eq!(alice_shared_with_cheshire_cat.raw_secret_bytes(), cheshire_cat_shared_with_alice.raw_secret_bytes());
    assert_eq!(bob_shared_with_cheshire_cat.raw_secret_bytes(), cheshire_cat_shared_with_bob.raw_secret_bytes());

    assert_ne!(alice_shared_with_bob.raw_secret_bytes(), alice_shared_with_cheshire_cat.raw_secret_bytes());
    assert_ne!(alice_shared_with_bob.raw_secret_bytes(), cheshire_cat_shared_with_alice.raw_secret_bytes());
    assert_ne!(alice_shared_with_bob.raw_secret_bytes(), bob_shared_with_cheshire_cat.raw_secret_bytes());
    assert_ne!(alice_shared_with_bob.raw_secret_bytes(), cheshire_cat_shared_with_bob.raw_secret_bytes());

    assert_ne!(bob_shared_with_alice.raw_secret_bytes(), alice_shared_with_cheshire_cat.raw_secret_bytes());
    assert_ne!(bob_shared_with_alice.raw_secret_bytes(), cheshire_cat_shared_with_alice.raw_secret_bytes());
    assert_ne!(bob_shared_with_alice.raw_secret_bytes(), bob_shared_with_cheshire_cat.raw_secret_bytes());
    assert_ne!(bob_shared_with_alice.raw_secret_bytes(), cheshire_cat_shared_with_bob.raw_secret_bytes());

    assert_ne!(alice_shared_with_cheshire_cat.raw_secret_bytes(), bob_shared_with_cheshire_cat.raw_secret_bytes());
    assert_ne!(alice_shared_with_cheshire_cat.raw_secret_bytes(), cheshire_cat_shared_with_bob.raw_secret_bytes());

    assert_ne!(cheshire_cat_shared_with_alice.raw_secret_bytes(), bob_shared_with_cheshire_cat.raw_secret_bytes());
    assert_ne!(cheshire_cat_shared_with_alice.raw_secret_bytes(), cheshire_cat_shared_with_bob.raw_secret_bytes());

    let k = shared_keys(
        random_seed,
        alice_shared_with_bob.raw_secret_bytes().to_vec(),
        bob_shared_with_alice.raw_secret_bytes().to_vec(),
        alice_shared_with_cheshire_cat.raw_secret_bytes().to_vec(),
        cheshire_cat_shared_with_alice.raw_secret_bytes().to_vec(),
        bob_shared_with_cheshire_cat.raw_secret_bytes().to_vec(),
        cheshire_cat_shared_with_bob.raw_secret_bytes().to_vec(),
    );
    assert!(exchange_sound(&k));
}

#[test]
fn p224_test_cipher() {
    let random_seed = new_seed();
    println!("Random seed: {:?}", random_seed);

    let alice_secret = p224::ecdh::EphemeralSecret::random(&mut OsRng);
    let bob_secret = p224::ecdh::EphemeralSecret::random(&mut OsRng);
    let alice_public = p224::PublicKey::from_sec1_bytes(p224::EncodedPoint::from(alice_secret.public_key()).as_ref())
        .expect("alice's public key is invalid!");
    let bob_public = p224::PublicKey::from_sec1_bytes(p224::EncodedPoint::from(bob_secret.public_key()).as_ref())
        .expect("bob's public key is invalid!");
    let alice_shared_with_bob = alice_secret.diffie_hellman(&bob_public);
    let bob_shared_with_alice = bob_secret.diffie_hellman(&alice_public);

    let cheshire_cat_secret = p224::ecdh::EphemeralSecret::random(&mut OsRng);
    let cheshire_cat_public = p224::PublicKey::from_sec1_bytes(p224::EncodedPoint::from(cheshire_cat_secret.public_key()).as_ref())
        .expect("Cheshire Cat's public key is invalid!");
    let cheshire_cat_shared_with_alice = cheshire_cat_secret.diffie_hellman(&alice_public);
    let alice_shared_with_cheshire_cat = alice_secret.diffie_hellman(&cheshire_cat_public);
    let cheshire_cat_shared_with_bob = cheshire_cat_secret.diffie_hellman(&bob_public);
    let bob_shared_with_cheshire_cat = bob_secret.diffie_hellman(&cheshire_cat_public);

    assert_eq!(alice_shared_with_bob.raw_secret_bytes(), bob_shared_with_alice.raw_secret_bytes());
    assert_eq!(alice_shared_with_cheshire_cat.raw_secret_bytes(), cheshire_cat_shared_with_alice.raw_secret_bytes());
    assert_eq!(bob_shared_with_cheshire_cat.raw_secret_bytes(), cheshire_cat_shared_with_bob.raw_secret_bytes());

    assert_ne!(alice_shared_with_bob.raw_secret_bytes(), alice_shared_with_cheshire_cat.raw_secret_bytes());
    assert_ne!(alice_shared_with_bob.raw_secret_bytes(), cheshire_cat_shared_with_alice.raw_secret_bytes());
    assert_ne!(alice_shared_with_bob.raw_secret_bytes(), bob_shared_with_cheshire_cat.raw_secret_bytes());
    assert_ne!(alice_shared_with_bob.raw_secret_bytes(), cheshire_cat_shared_with_bob.raw_secret_bytes());

    assert_ne!(bob_shared_with_alice.raw_secret_bytes(), alice_shared_with_cheshire_cat.raw_secret_bytes());
    assert_ne!(bob_shared_with_alice.raw_secret_bytes(), cheshire_cat_shared_with_alice.raw_secret_bytes());
    assert_ne!(bob_shared_with_alice.raw_secret_bytes(), bob_shared_with_cheshire_cat.raw_secret_bytes());
    assert_ne!(bob_shared_with_alice.raw_secret_bytes(), cheshire_cat_shared_with_bob.raw_secret_bytes());

    assert_ne!(alice_shared_with_cheshire_cat.raw_secret_bytes(), bob_shared_with_cheshire_cat.raw_secret_bytes());
    assert_ne!(alice_shared_with_cheshire_cat.raw_secret_bytes(), cheshire_cat_shared_with_bob.raw_secret_bytes());

    assert_ne!(cheshire_cat_shared_with_alice.raw_secret_bytes(), bob_shared_with_cheshire_cat.raw_secret_bytes());
    assert_ne!(cheshire_cat_shared_with_alice.raw_secret_bytes(), cheshire_cat_shared_with_bob.raw_secret_bytes());

    let k = shared_keys(
        random_seed,
        alice_shared_with_bob.raw_secret_bytes().to_vec(),
        bob_shared_with_alice.raw_secret_bytes().to_vec(),
        alice_shared_with_cheshire_cat.raw_secret_bytes().to_vec(),
        cheshire_cat_shared_with_alice.raw_secret_bytes().to_vec(),
        bob_shared_with_cheshire_cat.raw_secret_bytes().to_vec(),
        cheshire_cat_shared_with_bob.raw_secret_bytes().to_vec(),
    );
    assert!(exchange_sound(&k));
}

#[test]
fn curve_exchanges_agree_pairwise() {
    let k = k256_exchange(new_seed()).unwrap();
    assert_eq!(k.alice_with_bob.len(), 32);
    assert!(exchange_sound(&k));
    assert_eq!(k.alice_bob_key, derive_key(&k.seed, &k.alice_with_bob));
    let p = p224_exchange(new_seed()).unwrap();
    assert_eq!(p.alice_with_bob.len(), 28);
    assert!(exchange_sound(&p));
}
