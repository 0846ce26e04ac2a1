//! Identities: a recovery phrase is hashed to entropy, the entropy is expanded
//! into Dilithium2 key material, and the seed id is derived from the public key.
use vstd::prelude::*;
use vstd::utf8::encode_utf8;
use fake::Fake;
use pqcrypto_traits::sign::{PublicKey, SecretKey};
use rand::SeedableRng;
use rand::rngs::StdRng;
use crate::crypto::{blake3_hash, blake3_of};
use crate::text::{
    base64_text, be_u64, encode_base64, padded_decimal, padded_decimal_string, push_u64_be,
    read_u64_be, u64_be,
};

verus! {

/// Bytes of a Dilithium2 secret key.
pub const SECRET_KEY_LEN: usize = 2560;

/// Bytes of a Dilithium2 public key.
pub const PUBLIC_KEY_LEN: usize = 1312;

/// Highest attempt number tried before key derivation gives up.
pub const MAX_KEY_ATTEMPTS: u64 = 1000;

/// First block counter of the public-key stream.
pub const PUBLIC_STREAM_START: u64 = 1000;

/// A seed id has this many decimal digits.
pub const SEED_ID_DIGITS: usize = 16;

/// Ten to the power of the seed id's digit count.
pub const SEED_ID_MODULUS: u64 = 10_000_000_000_000_000;

/// An identity: its recovery phrase, base64 key material and seed id.
#[derive(Debug, Clone, PartialEq, Eq)]
pub struct SeedIdentity {
    pub mnemonic: String,
    pub private_key: String,
    pub public_key: String,
    pub seed_id: String,
}

/// Model of an identity: each field as text.
pub struct IdentityModel {
    pub mnemonic: Seq<char>,
    pub private_key: Seq<char>,
    pub public_key: Seq<char>,
    pub seed_id: Seq<char>,
}

impl View for SeedIdentity {
    type V = IdentityModel;

    open spec fn view(&self) -> IdentityModel {
        IdentityModel {
            mnemonic: self.mnemonic@,
            private_key: self.private_key@,
            public_key: self.public_key@,
            seed_id: self.seed_id@,
        }
    }
}

/// Why no identity could be derived.
#[derive(Debug, Clone, Copy, PartialEq, Eq, Structural)]
pub enum IdentityError {
    /// Every attempt of the bounded rejection sampling produced material that
    /// the signature scheme refused.
    KeyDerivationExhausted,
}

/// Relies on `dilithium2::secret_key_bytes`, which the crate defines as 2560.
#[verifier::external_body]
fn dilithium_secret_key_bytes() -> (r: usize)
    ensures
        r == SECRET_KEY_LEN,
{
    pqcrypto_dilithium::dilithium2::secret_key_bytes()
}

/// Relies on `dilithium2::public_key_bytes`, which the crate defines as 1312.
#[verifier::external_body]
fn dilithium_public_key_bytes() -> (r: usize)
    ensures
        r == PUBLIC_KEY_LEN,
{
    pqcrypto_dilithium::dilithium2::public_key_bytes()
}

/// Relies on `dilithium2::SecretKey::from_bytes`: it accepts exactly the byte
/// strings of the key's length and keeps them as they are.
#[verifier::external_body]
fn parse_secret_key(material: &[u8]) -> (r: Option<Vec<u8>>)
    ensures
        r is Some <==> material@.len() == SECRET_KEY_LEN,
        r matches Some(k) ==> k@ == material@,
{
    match pqcrypto_dilithium::dilithium2::SecretKey::from_bytes(material) {
        Ok(k) => Some(k.as_bytes().to_vec()),
        Err(_) => None,
    }
}

/// Relies on `dilithium2::PublicKey::from_bytes`: it accepts exactly the byte
/// strings of the key's length and keeps them as they are.
#[verifier::external_body]
fn parse_public_key(material: &[u8]) -> (r: Option<Vec<u8>>)
    ensures
        r is Some <==> material@.len() == PUBLIC_KEY_LEN,
        r matches Some(k) ==> k@ == material@,
{
    match pqcrypto_dilithium::dilithium2::PublicKey::from_bytes(material) {
        Ok(k) => Some(k.as_bytes().to_vec()),
        Err(_) => None,
    }
}

/// The first name, then the city, that fake's `FirstName` and `CityName`
/// fakers draw from rand's `StdRng::seed_from_u64(seed)`.
pub uninterp spec fn person_name_of(seed: u64) -> Seq<char>;

/// The city drawn after `person_name_of(seed)`.
pub uninterp spec fn person_city_of(seed: u64) -> Seq<char>;

/// The company, then the last name, that fake's `CompanyName` and `LastName`
/// fakers draw from rand's `StdRng::seed_from_u64(seed)`.
pub uninterp spec fn worker_company_of(seed: u64) -> Seq<char>;

/// The last name drawn after `worker_company_of(seed)`.
pub uninterp spec fn worker_last_name_of(seed: u64) -> Seq<char>;

/// The street, then the first name, that fake's `StreetName` and `FirstName`
/// fakers draw from rand's `StdRng::seed_from_u64(seed)`.
pub uninterp spec fn walker_street_of(seed: u64) -> Seq<char>;

/// The first name drawn after `walker_street_of(seed)`.
pub uninterp spec fn walker_name_of(seed: u64) -> Seq<char>;

/// Relies on rand's `StdRng::seed_from_u64` and fake's `FirstName` and
/// `CityName` fakers: the draws depend on the seed alone.
#[verifier::external_body]
fn person_words(seed: u64) -> (r: (String, String))
    ensures
        r.0@ == person_name_of(seed),
        r.1@ == person_city_of(seed),
{
    let mut rng = StdRng::seed_from_u64(seed);
    let name: String = fake::faker::name::en::FirstName().fake_with_rng(&mut rng);
    let city: String = fake::faker::address::en::CityName().fake_with_rng(&mut rng);
    (name, city)
}

/// Relies on rand's `StdRng::seed_from_u64` and fake's `CompanyName` and
/// `LastName` fakers: the draws depend on the seed alone.
#[verifier::external_body]
fn worker_words(seed: u64) -> (r: (String, String))
    ensures
        r.0@ == worker_company_of(seed),
        r.1@ == worker_last_name_of(seed),
{
    let mut rng = StdRng::seed_from_u64(seed);
    let company: String = fake::faker::company::en::CompanyName().fake_with_rng(&mut rng);
    let last_name: String = fake::faker::name::en::LastName().fake_with_rng(&mut rng);
    (company, last_name)
}

/// Relies on rand's `StdRng::seed_from_u64` and fake's `StreetName` and
/// `FirstName` fakers: the draws depend on the seed alone.
#[verifier::external_body]
fn walker_words(seed: u64) -> (r: (String, String))
    ensures
        r.0@ == walker_street_of(seed),
        r.1@ == walker_name_of(seed),
{
    let mut rng = StdRng::seed_from_u64(seed);
    let street: String = fake::faker::address::en::StreetName().fake_with_rng(&mut rng);
    let name: String = fake::faker::name::en::FirstName().fake_with_rng(&mut rng);
    (street, name)
}

/// The seed of one key-derivation attempt: the hash of the entropy's hash
/// followed by the big-endian attempt number.
pub open spec fn attempt_seed(entropy: Seq<u8>, attempt: u64) -> Seq<u8> {
    blake3_of(blake3_of(entropy) + u64_be(attempt))
}

/// The first `blocks` hash blocks of a key stream: block `i` is the hash of the
/// seed followed by the big-endian counter `first + i`.
pub open spec fn key_stream(seed: Seq<u8>, first: u64, blocks: nat) -> Seq<u8>
    decreases blocks,
{
    if blocks == 0 {
        Seq::empty()
    } else {
        key_stream(seed, first, (blocks - 1) as nat) + blake3_of(
            seed + u64_be((first + blocks - 1) as u64),
        )
    }
}

/// The first `len` bytes of a key stream, drawn in whole 32-byte blocks.
pub open spec fn stream_bytes(seed: Seq<u8>, first: u64, len: nat) -> Seq<u8> {
    key_stream(seed, first, ((len + 31) / 32) as nat).subrange(0, len as int)
}

/// Secret-key material derived from entropy: the first attempt's stream from
/// counter zero. (Key parsing only checks lengths, which the stream always
/// meets, so the first attempt is the one taken.)
pub open spec fn secret_key_of(entropy: Seq<u8>) -> Seq<u8> {
    stream_bytes(attempt_seed(entropy, 0), 0, SECRET_KEY_LEN as nat)
}

/// Public-key material derived from entropy: the first attempt's stream from
/// counter one thousand.
pub open spec fn public_key_of(entropy: Seq<u8>) -> Seq<u8> {
    stream_bytes(attempt_seed(entropy, 0), PUBLIC_STREAM_START, PUBLIC_KEY_LEN as nat)
}

/// The seed id of a public key: the first eight bytes of its hash as a
/// big-endian number, reduced to sixteen decimal digits with leading zeros.
pub open spec fn seed_id_text(public_key: Seq<u8>) -> Seq<char> {
    padded_decimal(be_u64(blake3_of(public_key)) % (SEED_ID_MODULUS as nat), SEED_ID_DIGITS as nat)
}

/// The entropy of a recovery phrase: the hash of its UTF-8 bytes.
pub open spec fn phrase_entropy(phrase: Seq<char>) -> Seq<u8> {
    blake3_of(encode_utf8(phrase))
}

/// The identity that a recovery phrase stands for.
pub open spec fn identity_of_phrase(phrase: Seq<char>) -> IdentityModel {
    let e = phrase_entropy(phrase);
    IdentityModel {
        mnemonic: phrase,
        private_key: base64_text(secret_key_of(e)),
        public_key: base64_text(public_key_of(e)),
        seed_id: seed_id_text(public_key_of(e)),
    }
}

/// The entropy of a recovery phrase: the BLAKE3 hash of its UTF-8 bytes.
pub fn sentence_to_entropy(sentence: &str) -> (r: [u8; 32])
    ensures
        r@ == phrase_entropy(sentence@),
{
    blake3_hash(sentence.as_bytes())
}

/// The seed id of a public key, as sixteen decimal digits.
pub fn derive_seed_id(public_key: &[u8]) -> (r: String)
    ensures
        r@ == seed_id_text(public_key@),
{
    let hash = blake3_hash(public_key);
    let numeric_id = read_u64_be(hash.as_slice());
    padded_decimal_string(numeric_id % SEED_ID_MODULUS, SEED_ID_DIGITS)
}

/// The first `len` bytes of the key stream of `seed` from counter `first`.
fn expand_key_material(seed: &[u8; 32], first: u64, len: usize) -> (r: Vec<u8>)
    requires
        first <= PUBLIC_STREAM_START,
        len <= SECRET_KEY_LEN,
    ensures
        r@ == stream_bytes(seed@, first, len as nat),
        r@.len() == len,
{
    let mut material: Vec<u8> = Vec::new();
    let mut counter: u64 = first;
    while material.len() < len
        invariant
            first <= counter,
            first <= PUBLIC_STREAM_START,
            len <= SECRET_KEY_LEN,
            material@.len() == 32 * (counter - first),
            material@.len() < len + 32,
            material@ == key_stream(seed@, first, (counter - first) as nat),
        decreases len + 32 - material@.len(),
    {
        let mut input: Vec<u8> = Vec::new();
        let mut i: usize = 0;
        while i < 32
            invariant
                i <= 32,
                input@ == seed@.subrange(0, i as int),
            decreases 32 - i,
        {
            input.push(seed[i]);
            i = i + 1;
            assert(input@ =~= seed@.subrange(0, i as int));
        }
        assert(seed@.subrange(0, 32) =~= seed@);
        push_u64_be(&mut input, counter);
        let block = blake3_hash(input.as_slice());
        let ghost before = material@;
        let mut j: usize = 0;
        while j < 32
            invariant
                j <= 32,
                material@ == before + block@.subrange(0, j as int),
            decreases 32 - j,
        {
            material.push(block[j]);
            j = j + 1;
            assert(material@ =~= before + block@.subrange(0, j as int));
        }
        assert(block@.subrange(0, 32) =~= block@);
        counter = counter + 1;
    }
    let ghost blocks = (counter - first) as nat;
    assert(blocks == ((len + 31) / 32) as nat);
    material.truncate(len);
    assert(material@ =~= key_stream(seed@, first, blocks).subrange(0, len as int));
    material
}

/// Signing key material derived deterministically from entropy, as
/// `(public key, secret key)` bytes. Each attempt seeds a stream from the
/// entropy's hash and the attempt number, fills a secret key from counter zero
/// and a public key from counter one thousand, and keeps them when the
/// signature scheme accepts both; after the last attempt it fails instead of
/// falling back to random keys. The scheme accepts any material of the right
/// lengths, so the first attempt always succeeds.
pub fn generate_deterministic_keypair(entropy: &[u8]) -> (r: Result<(Vec<u8>, Vec<u8>), IdentityError>)
    ensures
        r matches Ok((pk, sk)) && pk@ == public_key_of(entropy@) && sk@ == secret_key_of(entropy@)
            && pk@.len() == PUBLIC_KEY_LEN && sk@.len() == SECRET_KEY_LEN,
{
    let sk_len = dilithium_secret_key_bytes();
    let pk_len = dilithium_public_key_bytes();
    let seed_hash = blake3_hash(entropy);
    let mut attempt: u64 = 0;
    loop
        invariant
            sk_len == SECRET_KEY_LEN,
            pk_len == PUBLIC_KEY_LEN,
            seed_hash@ == blake3_of(entropy@),
            attempt == 0,
        decreases MAX_KEY_ATTEMPTS + 1 - attempt,
    {
        let mut seed_input: Vec<u8> = Vec::new();
        let mut i: usize = 0;
        while i < 32
            invariant
                i <= 32,
                seed_input@ == seed_hash@.subrange(0, i as int),
            decreases 32 - i,
        {
            seed_input.push(seed_hash[i]);
            i = i + 1;
            assert(seed_input@ =~= seed_hash@.subrange(0, i as int));
        }
        assert(seed_hash@.subrange(0, 32) =~= seed_hash@);
        push_u64_be(&mut seed_input, attempt);
        let seed = blake3_hash(seed_input.as_slice());
        let sk_material = expand_key_material(&seed, 0, sk_len);
        if let Some(sk) = parse_secret_key(sk_material.as_slice()) {
            let pk_material = expand_key_material(&seed, PUBLIC_STREAM_START, pk_len);
            if let Some(pk) = parse_public_key(pk_material.as_slice()) {
                return Ok((pk, sk));
            }
        }
        attempt = attempt + 1;
        if attempt > MAX_KEY_ATTEMPTS {
            return Err(IdentityError::KeyDerivationExhausted);
        }
    }
}

/// The identity that a recovery phrase stands for: phrase entropy, derived
/// keys in base64, and the seed id of the public key. The same phrase always
/// gives the same keys and seed id.
pub fn recover_from_mnemonic(sentence: &str) -> (r: Result<SeedIdentity, IdentityError>)
    ensures
        r matches Ok(id) && id@ == identity_of_phrase(sentence@),
{
    let entropy = sentence_to_entropy(sentence);
    let (pk, sk) = match generate_deterministic_keypair(entropy.as_slice()) {
        Ok(keys) => keys,
        Err(e) => {
            return Err(e);
        },
    };
    let seed_id = derive_seed_id(pk.as_slice());
    Ok(
        SeedIdentity {
            mnemonic: sentence.to_owned(),
            private_key: encode_base64(sk.as_slice()),
            public_key: encode_base64(pk.as_slice()),
            seed_id,
        },
    )
}

/// Recovering from the same phrase twice gives byte-identical keys and the same
/// seed id: the identity is a function of the phrase alone.
pub proof fn lemma_recovery_deterministic(first: Seq<char>, second: Seq<char>)
    requires
        first == second,
    ensures
        identity_of_phrase(first).private_key == identity_of_phrase(second).private_key,
        identity_of_phrase(first).public_key == identity_of_phrase(second).public_key,
        identity_of_phrase(first).seed_id == identity_of_phrase(second).seed_id,
{
}

/// The first clause of a generated phrase.
pub open spec fn person_clause(name: Seq<char>, city: Seq<char>) -> Seq<char> {
    "The person named "@ + name + " lives in "@ + city
}

/// The second clause of a generated phrase.
pub open spec fn work_clause(last_name: Seq<char>, company: Seq<char>) -> Seq<char> {
    "Mr "@ + last_name + " works at "@ + company
}

/// The third clause of a generated phrase.
pub open spec fn walk_clause(name: Seq<char>, street: Seq<char>) -> Seq<char> {
    name + " walks down "@ + street + " street"@
}

/// The three clauses joined with commas.
pub open spec fn joined_clauses(a: Seq<char>, b: Seq<char>, c: Seq<char>) -> Seq<char> {
    a + ", "@ + b + ", "@ + c
}

/// The seed of a generated phrase: the first eight entropy bytes, big-endian.
pub open spec fn phrase_seed(entropy: Seq<u8>) -> u64 {
    be_u64(entropy) as u64
}

/// The recovery phrase generated from a seed: three clauses whose words come
/// from generators seeded with `seed`, `seed + 1` and `seed + 2` (wrapping).
pub open spec fn generated_phrase(seed: u64) -> Seq<char> {
    let s1 = seed.wrapping_add(1);
    let s2 = seed.wrapping_add(2);
    joined_clauses(
        person_clause(person_name_of(seed), person_city_of(seed)),
        work_clause(worker_last_name_of(s1), worker_company_of(s1)),
        walk_clause(walker_name_of(s2), walker_street_of(s2)),
    )
}

fn concat(a: String, b: &str) -> (r: String)
    ensures
        r@ == a@ + b@,
{
    let mut a = a;
    a.append(b);
    a
}

/// A recovery phrase built from entropy: the first eight bytes, big-endian,
/// seed three generators (seed, seed + 1, seed + 2, wrapping), and each fills
/// one templated clause with fake names, a city, a company and a street.
pub fn entropy_to_sentence(entropy: &[u8; 32]) -> (r: String)
    ensures
        r@ == generated_phrase(phrase_seed(entropy@)),
{
    let seed = read_u64_be(entropy.as_slice());

    let (name, city) = person_words(seed);
    let first = concat(String::from_str("The person named "), name.as_str());
    let first = concat(concat(first, " lives in "), city.as_str());

    let (company, last_name) = worker_words(seed.wrapping_add(1));
    let second = concat(String::from_str("Mr "), last_name.as_str());
    let second = concat(concat(second, " works at "), company.as_str());

    let (street, walker) = walker_words(seed.wrapping_add(2));
    let third = concat(concat(concat(walker, " walks down "), street.as_str()), " street");

    let r = concat(concat(concat(concat(first, ", "), second.as_str()), ", "), third.as_str());
    assert(r@ =~= generated_phrase(seed));
    r
}

/// A fresh identity from raw entropy: a recovery phrase built from the entropy,
/// then the identity that phrase stands for.
pub fn generate_seed_identity(entropy: &[u8; 32]) -> (r: Result<SeedIdentity, IdentityError>)
    ensures
        r matches Ok(id) && id.mnemonic@ == generated_phrase(phrase_seed(entropy@)) && id@
            == identity_of_phrase(id.mnemonic@),
{
    let sentence = entropy_to_sentence(entropy);
    recover_from_mnemonic(sentence.as_str())
}

} // verus!
