use metamesh::identity::{
    derive_seed_id, entropy_to_sentence, generate_deterministic_keypair, generate_seed_identity,
    recover_from_mnemonic, sentence_to_entropy,
};
use metamesh::text::{encode_base64, padded_decimal_string};

#[test]
fn phrase_entropy_is_blake3_of_the_text() {
    let e = sentence_to_entropy("");
    assert_eq!(hex::encode(e), "af1349b9f5f9a1a6a0404dea36dcc9499bcb25c9adc112b7cc9a93cae41f3262");
    assert_eq!(sentence_to_entropy("some phrase"), *blake3::hash(b"some phrase").as_bytes());
}

#[test]
fn base64_is_standard_with_padding() {
    assert_eq!(encode_base64(b"hello"), "aGVsbG8=");
    assert_eq!(encode_base64(b"he"), "aGU=");
    assert_eq!(encode_base64(b""), "");
    assert_eq!(encode_base64(&[0xfb, 0xff]), "+/8=");
}

#[test]
fn padded_decimal_keeps_leading_zeros() {
    assert_eq!(padded_decimal_string(42, 16), "0000000000000042");
    assert_eq!(padded_decimal_string(12345678901234567, 16), "2345678901234567");
    assert_eq!(padded_decimal_string(7, 0), "");
}

#[test]
fn seed_id_is_sixteen_digits_of_the_key_hash() {
    let pk = vec![9u8; 1312];
    let id = derive_seed_id(&pk);
    let h = blake3::hash(&pk);
    let mut first = [0u8; 8];
    first.copy_from_slice(&h.as_bytes()[..8]);
    let n = u64::from_be_bytes(first) % 10_000_000_000_000_000;
    assert_eq!(id, format!("{:016}", n));
    assert_eq!(id.len(), 16);
}

#[test]
fn keypair_comes_from_the_first_attempt_stream() {
    let entropy = [3u8; 32];
    let (pk, sk) = generate_deterministic_keypair(&entropy).unwrap();
    assert_eq!(pk.len(), 1312);
    assert_eq!(sk.len(), 2560);
    let seed_hash = blake3::hash(&entropy);
    let mut h = blake3::Hasher::new();
    h.update(seed_hash.as_bytes());
    h.update(&0u64.to_be_bytes());
    let attempt_seed = h.finalize();
    let mut b = blake3::Hasher::new();
    b.update(attempt_seed.as_bytes());
    b.update(&0u64.to_be_bytes());
    assert_eq!(&sk[..32], b.finalize().as_bytes());
    let mut b = blake3::Hasher::new();
    b.update(attempt_seed.as_bytes());
    b.update(&1000u64.to_be_bytes());
    assert_eq!(&pk[..32], b.finalize().as_bytes());
    let mut b = blake3::Hasher::new();
    b.update(attempt_seed.as_bytes());
    b.update(&79u64.to_be_bytes());
    assert_eq!(&sk[2528..], b.finalize().as_bytes());
}

#[test]
fn recovery_is_deterministic() {
    let phrase = "The person named Ada lives in Paris, Mr Smith works at Acme, Bob walks down Elm street";
    let a = recover_from_mnemonic(phrase).unwrap();
    let b = recover_from_mnemonic(phrase).unwrap();
    assert_eq!(a, b);
    assert_eq!(a.mnemonic, phrase);
    let c = recover_from_mnemonic("another phrase").unwrap();
    assert_ne!(a.seed_id, c.seed_id);
    assert_ne!(a.private_key, c.private_key);
}

#[test]
fn recovered_fields_follow_from_the_keys() {
    let phrase = "a recovery phrase";
    let id = recover_from_mnemonic(phrase).unwrap();
    let (pk, sk) = generate_deterministic_keypair(&sentence_to_entropy(phrase)).unwrap();
    assert_eq!(id.public_key, encode_base64(&pk));
    assert_eq!(id.private_key, encode_base64(&sk));
    assert_eq!(id.seed_id, derive_seed_id(&pk));
}

#[test]
fn generated_phrase_has_three_clauses() {
    let entropy = [5u8; 32];
    let s = entropy_to_sentence(&entropy);
    assert!(s.starts_with("The person named "));
    assert!(s.contains(" lives in "));
    assert!(s.contains(", Mr "));
    assert!(s.contains(" works at "));
    assert!(s.contains(" walks down "));
    assert!(s.ends_with(" street"));
    assert_eq!(entropy_to_sentence(&entropy), s);
}

#[test]
fn generated_identity_recovers_from_its_phrase() {
    let id = generate_seed_identity(&[8u8; 32]).unwrap();
    let again = recover_from_mnemonic(&id.mnemonic).unwrap();
    assert_eq!(id, again);
}

#[test]
fn phrase_depends_on_the_first_eight_bytes_only() {
    let mut a = [1u8; 32];
    let mut b = [1u8; 32];
    a[20] = 7;
    b[31] = 9;
    assert_eq!(entropy_to_sentence(&a), entropy_to_sentence(&b));
    let mut c = [1u8; 32];
    c[0] = 2;
    assert_ne!(entropy_to_sentence(&a), entropy_to_sentence(&c));
}
