//! The secure storage engine: two logical stores, identities and queued
//! packets, each kept as one sealed file `nonce (12 bytes) ‖ AES-256-GCM
//! ciphertext` of a JSON list of records. Every operation reads the whole store,
//! changes it in memory and writes it back whole under a fresh random nonce.
use vstd::prelude::*;
use vstd::slice::slice_subrange;
use crate::crypto::{
    aes_gcm_decrypt, aes_gcm_open, aes_gcm_seal, aes_gcm_sealed, sha256_hash, sha256_of,
    AES_GCM_MAX_PLAINTEXT,
};
use crate::packet::copy_range;
use crate::table::{
    distinct_keys, has_key, keyed_map, lemma_keyed_map_len, lemma_keyed_map_push, lemma_keyed_map_value,
    Record, Table,
};
use vstd::utf8::encode_utf8;

verus! {

/// Length of the nonce that opens a sealed file.
pub const NONCE_LEN: usize = 12;

/// A stored identity.
#[derive(Debug, Clone, PartialEq, Eq)]
pub struct StoredIdentity {
    pub seed_id: String,
    pub private_key: String,
    pub public_key: String,
    pub mnemonic: String,
    pub created_at: u64,
}

/// Model of a stored identity.
pub struct IdentityRecord {
    pub seed_id: Seq<char>,
    pub private_key: Seq<char>,
    pub public_key: Seq<char>,
    pub mnemonic: Seq<char>,
    pub created_at: u64,
}

impl View for StoredIdentity {
    type V = IdentityRecord;

    open spec fn view(&self) -> IdentityRecord {
        IdentityRecord {
            seed_id: self.seed_id@,
            private_key: self.private_key@,
            public_key: self.public_key@,
            mnemonic: self.mnemonic@,
            created_at: self.created_at,
        }
    }
}

impl Record for StoredIdentity {
    open spec fn key_of(v: IdentityRecord) -> Seq<char> {
        v.seed_id
    }

    fn key(&self) -> (r: &String) {
        &self.seed_id
    }

    fn duplicate(&self) -> (r: Self) {
        StoredIdentity {
            seed_id: self.seed_id.clone(),
            private_key: self.private_key.clone(),
            public_key: self.public_key.clone(),
            mnemonic: self.mnemonic.clone(),
            created_at: self.created_at,
        }
    }
}

/// A packet waiting in the store-and-forward queue.
#[derive(Debug, Clone, PartialEq, Eq)]
pub struct QueuedPacket {
    /// Content fingerprint: the first 16 hex digits of the packet's SHA-256.
    pub packet_id: String,
    /// The full wire encoding.
    pub packet_bytes: Vec<u8>,
    /// Display label of the packet type.
    pub packet_type: String,
    /// Seconds since the epoch.
    pub created_at: u64,
    pub retry_count: u32,
    /// Seconds since the epoch of the last send attempt.
    pub last_retry: u64,
    /// Taken from the packet's TTL when it was queued.
    pub max_retries: u32,
    pub ack_received: bool,
}

/// Model of a queued packet.
pub struct PacketRecord {
    pub packet_id: Seq<char>,
    pub packet_bytes: Seq<u8>,
    pub packet_type: Seq<char>,
    pub created_at: u64,
    pub retry_count: u32,
    pub last_retry: u64,
    pub max_retries: u32,
    pub ack_received: bool,
}

impl View for QueuedPacket {
    type V = PacketRecord;

    open spec fn view(&self) -> PacketRecord {
        PacketRecord {
            packet_id: self.packet_id@,
            packet_bytes: self.packet_bytes@,
            packet_type: self.packet_type@,
            created_at: self.created_at,
            retry_count: self.retry_count,
            last_retry: self.last_retry,
            max_retries: self.max_retries,
            ack_received: self.ack_received,
        }
    }
}

impl Record for QueuedPacket {
    open spec fn key_of(v: PacketRecord) -> Seq<char> {
        v.packet_id
    }

    fn key(&self) -> (r: &String) {
        &self.packet_id
    }

    fn duplicate(&self) -> (r: Self) {
        let packet_bytes = copy_range(self.packet_bytes.as_slice(), 0, self.packet_bytes.len());
        assert(packet_bytes@ =~= self.packet_bytes@);
        QueuedPacket {
            packet_id: self.packet_id.clone(),
            packet_bytes,
            packet_type: self.packet_type.clone(),
            created_at: self.created_at,
            retry_count: self.retry_count,
            last_retry: self.last_retry,
            max_retries: self.max_retries,
            ack_received: self.ack_received,
        }
    }
}

/// Why a store could not be read or written.
#[derive(Debug, Clone, Copy, PartialEq, Eq, Structural)]
pub enum StorageError {
    /// The file is too short to hold a nonce, or its ciphertext does not
    /// authenticate under the store's key: corrupted, tampered or wrong key.
    Decryption,
    /// The decrypted contents are not a list of records.
    Deserialization,
    /// The records could not be written as JSON.
    Serialization,
    /// The records could not be encrypted.
    Encryption,
}

/// An identity as a JSON row: seed id, private key, public key, mnemonic, creation time.
pub type IdentityRow = (String, String, String, String, u64);

/// A queued packet as a JSON row, fields in declaration order.
pub type PacketRow = (String, Vec<u8>, String, u64, u32, u64, u32, bool);

/// Model of an identity row.
pub type IdentityRowModel = (Seq<char>, Seq<char>, Seq<char>, Seq<char>, u64);

/// Model of a packet row.
pub type PacketRowModel = (Seq<char>, Seq<u8>, Seq<char>, u64, u32, u64, u32, bool);

/// The identity rows that `serde_json::from_slice` reads from a JSON text, if it is one.
pub uninterp spec fn parse_identity_rows(json: Seq<u8>) -> Option<Seq<IdentityRowModel>>;

/// The packet rows that `serde_json::from_slice` reads from a JSON text, if it is one.
pub uninterp spec fn parse_packet_rows(json: Seq<u8>) -> Option<Seq<PacketRowModel>>;

/// The JSON text that `serde_json::to_vec_pretty` writes for identity rows.
pub uninterp spec fn identity_rows_json(rows: Seq<IdentityRowModel>) -> Seq<u8>;

/// The JSON text that `serde_json::to_vec_pretty` writes for packet rows.
pub uninterp spec fn packet_rows_json(rows: Seq<PacketRowModel>) -> Seq<u8>;

/// The row that holds an identity record.
pub open spec fn row_of_identity(v: IdentityRecord) -> IdentityRowModel {
    (v.seed_id, v.private_key, v.public_key, v.mnemonic, v.created_at)
}

/// The row that holds a packet record.
pub open spec fn row_of_packet(v: PacketRecord) -> PacketRowModel {
    (
        v.packet_id,
        v.packet_bytes,
        v.packet_type,
        v.created_at,
        v.retry_count,
        v.last_retry,
        v.max_retries,
        v.ack_received,
    )
}

/// The rows of identity records, in order.
pub open spec fn identity_rows(s: Seq<IdentityRecord>) -> Seq<IdentityRowModel> {
    s.map_values(|v: IdentityRecord| row_of_identity(v))
}

/// The rows of packet records, in order.
pub open spec fn packet_rows(s: Seq<PacketRecord>) -> Seq<PacketRowModel> {
    s.map_values(|v: PacketRecord| row_of_packet(v))
}

pub open spec fn identity_row_model(r: IdentityRow) -> IdentityRowModel {
    (r.0@, r.1@, r.2@, r.3@, r.4)
}

pub open spec fn packet_row_model(r: PacketRow) -> PacketRowModel {
    (r.0@, r.1@, r.2@, r.3, r.4, r.5, r.6, r.7)
}

/// The record that an identity row holds.
pub open spec fn identity_of_row(r: IdentityRowModel) -> IdentityRecord {
    IdentityRecord { seed_id: r.0, private_key: r.1, public_key: r.2, mnemonic: r.3, created_at: r.4 }
}

/// The record that a packet row holds.
pub open spec fn packet_of_row(r: PacketRowModel) -> PacketRecord {
    PacketRecord {
        packet_id: r.0,
        packet_bytes: r.1,
        packet_type: r.2,
        created_at: r.3,
        retry_count: r.4,
        last_retry: r.5,
        max_retries: r.6,
        ack_received: r.7,
    }
}

/// Relies on `serde_json::to_vec_pretty` for a vector of string and integer
/// tuples: it writes into a vector and these types raise no error, so it
/// succeeds; `serde_json::from_slice` reads the same rows back from its output.
#[verifier::external_body]
fn identity_rows_to_json(rows: &Vec<IdentityRow>) -> (r: Option<Vec<u8>>)
    ensures
        r is Some,
        r matches Some(json) ==> json@ == identity_rows_json(
            rows@.map_values(|x: IdentityRow| identity_row_model(x)),
        ),
        r matches Some(json) ==> parse_identity_rows(json@) == Some(
            rows@.map_values(|x: IdentityRow| identity_row_model(x)),
        ),
{
    serde_json::to_vec_pretty(rows).ok()
}

/// Relies on `serde_json::from_slice` for a vector of string and integer tuples.
#[verifier::external_body]
fn identity_rows_from_json(json: &[u8]) -> (r: Option<Vec<IdentityRow>>)
    ensures
        match r {
            Some(rows) => parse_identity_rows(json@) == Some(
                rows@.map_values(|x: IdentityRow| identity_row_model(x)),
            ),
            None => parse_identity_rows(json@) is None,
        },
{
    serde_json::from_slice(json).ok()
}

/// Relies on `serde_json::to_vec_pretty` for a vector of string, byte-vector,
/// integer and boolean tuples: it writes into a vector and these types raise no
/// error, so it succeeds; `serde_json::from_slice` reads the same rows back from
/// its output.
#[verifier::external_body]
fn packet_rows_to_json(rows: &Vec<PacketRow>) -> (r: Option<Vec<u8>>)
    ensures
        r is Some,
        r matches Some(json) ==> json@ == packet_rows_json(
            rows@.map_values(|x: PacketRow| packet_row_model(x)),
        ),
        r matches Some(json) ==> parse_packet_rows(json@) == Some(
            rows@.map_values(|x: PacketRow| packet_row_model(x)),
        ),
{
    serde_json::to_vec_pretty(rows).ok()
}

/// Relies on `serde_json::from_slice` for a vector of string, byte-vector,
/// integer and boolean tuples.
#[verifier::external_body]
fn packet_rows_from_json(json: &[u8]) -> (r: Option<Vec<PacketRow>>)
    ensures
        match r {
            Some(rows) => parse_packet_rows(json@) == Some(
                rows@.map_values(|x: PacketRow| packet_row_model(x)),
            ),
            None => parse_packet_rows(json@) is None,
        },
{
    serde_json::from_slice(json).ok()
}

/// The map that inserting each record in turn builds: a later record replaces
/// an earlier one with the same key.
pub open spec fn fold_map<V>(s: Seq<V>, key: spec_fn(V) -> Seq<char>) -> Map<Seq<char>, V>
    decreases s.len(),
{
    if s.len() == 0 {
        Map::empty()
    } else {
        fold_map(s.drop_last(), key).insert(key(s.last()), s.last())
    }
}

/// For distinct keys, inserting in turn builds the same map as the table holds.
pub proof fn lemma_fold_map_distinct<V>(s: Seq<V>, key: spec_fn(V) -> Seq<char>)
    requires
        distinct_keys(s, key),
    ensures
        fold_map(s, key) == keyed_map(s, key),
    decreases s.len(),
{
    if s.len() == 0 {
        assert(keyed_map(s, key) =~= Map::<Seq<char>, V>::empty());
    } else {
        let t = s.drop_last();
        assert(distinct_keys(t, key)) by {
            assert forall|i: int, j: int|
                0 <= i < t.len() && 0 <= j < t.len() && i != j implies key(#[trigger] t[i]) != key(
                    #[trigger] t[j],
                ) by {
                assert(t[i] == s[i] && t[j] == s[j]);
            }
        }
        lemma_fold_map_distinct(t, key);
        assert(!has_key(t, key, key(s.last()))) by {
            if has_key(t, key, key(s.last())) {
                let i = choose|i: int| 0 <= i < t.len() && key(t[i]) == key(s.last());
                assert(t[i] == s[i]);
            }
        }
        lemma_keyed_map_push(t, key, s.last());
        assert(t.push(s.last()) =~= s);
    }
}

/// The nonce that opens a sealed file.
pub open spec fn file_nonce(file: Seq<u8>) -> Seq<u8> {
    file.subrange(0, NONCE_LEN as int)
}

/// The ciphertext that follows the nonce in a sealed file.
pub open spec fn file_ciphertext(file: Seq<u8>) -> Seq<u8> {
    file.subrange(NONCE_LEN as int, file.len() as int)
}

/// A failure to write a store back: the records could not be serialized or
/// encrypted.
pub open spec fn write_failure(e: StorageError) -> bool {
    e == StorageError::Serialization || e == StorageError::Encryption
}

/// What reading a sealed file gives: no records for an empty file; a
/// decryption error for a file too short for a nonce or whose ciphertext does
/// not authenticate; a deserialization error for contents that are not a list
/// of rows; else the rows.
pub open spec fn open_rows<R>(
    key: Seq<u8>,
    file: Seq<u8>,
    parse: spec_fn(Seq<u8>) -> Option<Seq<R>>,
) -> Result<Seq<R>, StorageError> {
    if file.len() == 0 {
        Ok(Seq::empty())
    } else if file.len() < NONCE_LEN {
        Err(StorageError::Decryption)
    } else {
        match aes_gcm_open(key, file_nonce(file), file_ciphertext(file)) {
            None => Err(StorageError::Decryption),
            Some(plain) => match parse(plain) {
                None => Err(StorageError::Deserialization),
                Some(rows) => Ok(rows),
            },
        }
    }
}

/// The identities that a sealed file holds, by seed id.
pub open spec fn identities_in(
    key: Seq<u8>,
    file: Seq<u8>,
) -> Result<Map<Seq<char>, IdentityRecord>, StorageError> {
    match open_rows(key, file, |j: Seq<u8>| parse_identity_rows(j)) {
        Ok(rows) => Ok(
            fold_map(
                rows.map_values(|r: IdentityRowModel| identity_of_row(r)),
                |v: IdentityRecord| v.seed_id,
            ),
        ),
        Err(e) => Err(e),
    }
}

/// The queued packets that a sealed file holds, by packet id.
pub open spec fn packets_in(
    key: Seq<u8>,
    file: Seq<u8>,
) -> Result<Map<Seq<char>, PacketRecord>, StorageError> {
    match open_rows(key, file, |j: Seq<u8>| parse_packet_rows(j)) {
        Ok(rows) => Ok(
            fold_map(
                rows.map_values(|r: PacketRowModel| packet_of_row(r)),
                |v: PacketRecord| v.packet_id,
            ),
        ),
        Err(e) => Err(e),
    }
}

/// `file` is `nonce ‖ ciphertext` of `plain` under `key`: twelve nonce bytes,
/// then the AES-256-GCM ciphertext and its 16-byte tag, which opens to `plain`.
pub open spec fn sealed_file(key: Seq<u8>, plain: Seq<u8>, file: Seq<u8>) -> bool {
    &&& file.len() == NONCE_LEN + plain.len() + 16
    &&& file_ciphertext(file) == aes_gcm_sealed(key, file_nonce(file), plain)
    &&& aes_gcm_open(key, file_nonce(file), file_ciphertext(file)) == Some(plain)
}

/// Opens a sealed file: its plaintext, or why it cannot be read.
fn open_file(key: &[u8; 32], file: &Vec<u8>) -> (r: Result<Vec<u8>, StorageError>)
    requires
        file@.len() >= NONCE_LEN,
    ensures
        match r {
            Ok(plain) => aes_gcm_open(key@, file_nonce(file@), file_ciphertext(file@)) == Some(plain@),
            Err(e) => e == StorageError::Decryption && aes_gcm_open(key@, file_nonce(file@), file_ciphertext(file@)) is None,
        },
{
    let bytes = file.as_slice();
    let nonce = slice_subrange(bytes, 0, NONCE_LEN);
    let ct = slice_subrange(bytes, NONCE_LEN, bytes.len());
    match aes_gcm_decrypt(key, nonce, ct) {
        Some(p) => Ok(p),
        None => Err(StorageError::Decryption),
    }
}

/// Seals a plaintext under a fresh random nonce: `nonce ‖ ciphertext`.
fn seal_file(key: &[u8; 32], plain: &Vec<u8>) -> (r: Result<Vec<u8>, StorageError>)
    ensures
        plain@.len() <= AES_GCM_MAX_PLAINTEXT ==> r is Ok,
        match r {
            Ok(file) => sealed_file(key@, plain@, file@),
            Err(e) => e == StorageError::Encryption,
        },
{
    let nonce: [u8; 12] = rand::random();
    match aes_gcm_seal(key, &nonce, plain.as_slice()) {
        Some(ct) => {
            let mut file: Vec<u8> = Vec::new();
            let mut i: usize = 0;
            while i < NONCE_LEN
                invariant
                    i <= NONCE_LEN,
                    file@ == nonce@.subrange(0, i as int),
                decreases NONCE_LEN - i,
            {
                file.push(nonce[i]);
                i = i + 1;
                assert(file@ =~= nonce@.subrange(0, i as int));
            }
            let mut j: usize = 0;
            while j < ct.len()
                invariant
                    j <= ct@.len(),
                    file@ == nonce@ + ct@.subrange(0, j as int),
                decreases ct@.len() - j,
            {
                file.push(ct[j]);
                j = j + 1;
                assert(file@ =~= nonce@ + ct@.subrange(0, j as int));
            }
            assert(file_nonce(file@) =~= nonce@);
            assert(file_ciphertext(file@) =~= ct@);
            Ok(file)
        },
        None => Err(StorageError::Encryption),
    }
}


/// Reads the identity table from a sealed file.
fn load_identity_table(
    key: &[u8; 32],
    file: &Vec<u8>,
) -> (r: Result<Table<StoredIdentity>, StorageError>)
    ensures
        match r {
            Ok(t) => t.wf() && identities_in(key@, file@) == Ok::<_, StorageError>(t.map()),
            Err(e) => identities_in(key@, file@) == Err::<Map<Seq<char>, IdentityRecord>, _>(e),
        },
{
    if file.len() == 0 {
        let t = Table::new();
        assert(fold_map(
            Seq::<IdentityRowModel>::empty().map_values(|r: IdentityRowModel| identity_of_row(r)),
            |v: IdentityRecord| v.seed_id,
        ) =~= t.map());
        return Ok(t);
    }
    if file.len() < NONCE_LEN {
        return Err(StorageError::Decryption);
    }
    let plain = match open_file(key, file) {
        Ok(p) => p,
        Err(e) => {
            return Err(e);
        },
    };
    let rows = match identity_rows_from_json(plain.as_slice()) {
        Some(rows) => rows,
        None => {
            return Err(StorageError::Deserialization);
        },
    };
    let ghost models = rows@.map_values(|x: IdentityRow| identity_row_model(x)).map_values(
        |r: IdentityRowModel| identity_of_row(r),
    );
    let ghost key_fn = |v: IdentityRecord| v.seed_id;
    let mut table: Table<StoredIdentity> = Table::new();
    let mut i: usize = 0;
    assert(models.subrange(0, 0) =~= Seq::<IdentityRecord>::empty());
    while i < rows.len()
        invariant
            i <= rows@.len(),
            models.len() == rows@.len(),
            models == rows@.map_values(|x: IdentityRow| identity_row_model(x)).map_values(
                |r: IdentityRowModel| identity_of_row(r),
            ),
            table.wf(),
            key_fn == (|v: IdentityRecord| v.seed_id),
            table.map() == fold_map(models.subrange(0, i as int), key_fn),
        decreases rows@.len() - i,
    {
        let row = &rows[i];
        let rec = StoredIdentity {
            seed_id: row.0.clone(),
            private_key: row.1.clone(),
            public_key: row.2.clone(),
            mnemonic: row.3.clone(),
            created_at: row.4,
        };
        assert(rec@ == models[i as int]);
        let ghost before = table.map();
        table.insert(rec);
        proof {
            assert(table.map() == before.insert(models[i as int].seed_id, models[i as int]));
            let next = models.subrange(0, i + 1);
            assert(next.drop_last() =~= models.subrange(0, i as int));
            assert(next.last() == models[i as int]);
            assert(fold_map(next, key_fn) == fold_map(next.drop_last(), key_fn).insert(
                key_fn(next.last()),
                next.last(),
            ));
        }
        i = i + 1;
    }
    assert(models.subrange(0, i as int) =~= models);
    Ok(table)
}

/// Writes the identity table as a sealed file.
fn save_identity_table(
    key: &[u8; 32],
    table: &Table<StoredIdentity>,
) -> (r: Result<Vec<u8>, StorageError>)
    requires
        table.wf(),
    ensures
        identity_rows_json(identity_rows(table.records())).len() <= AES_GCM_MAX_PLAINTEXT ==> r is Ok,
        r matches Ok(file) ==> identities_in(key@, file@) == Ok::<_, StorageError>(table.map()),
        r matches Ok(file) ==> sealed_file(key@, identity_rows_json(identity_rows(table.records())), file@),
        r matches Err(e) ==> write_failure(e),
{
    let mut rows: Vec<IdentityRow> = Vec::new();
    let mut i: usize = 0;
    while i < table.entries.len()
        invariant
            i <= table.entries@.len(),
            rows@.len() == i,
            forall|j: int| 0 <= j < i ==> #[trigger] identity_row_model(rows@[j]) == row_of_identity(table.entries@[j]@),
        decreases table.entries@.len() - i,
    {
        let e = &table.entries[i];
        rows.push(
            (
                e.seed_id.clone(),
                e.private_key.clone(),
                e.public_key.clone(),
                e.mnemonic.clone(),
                e.created_at,
            ),
        );
        i = i + 1;
    }
    assert(rows@.map_values(|x: IdentityRow| identity_row_model(x)) =~= identity_rows(table.records()));
    let json = match identity_rows_to_json(&rows) {
        Some(j) => j,
        None => {
            return Err(StorageError::Serialization);
        },
    };
    let file = match seal_file(key, &json) {
        Ok(f) => f,
        Err(e) => {
            return Err(e);
        },
    };
    proof {
        let models = rows@.map_values(|x: IdentityRow| identity_row_model(x)).map_values(
            |r: IdentityRowModel| identity_of_row(r),
        );
        assert(models =~= table.records());
        lemma_fold_map_distinct(table.records(), |v: IdentityRecord| v.seed_id);
        assert(table.map() == keyed_map(table.records(), |v: IdentityRecord| StoredIdentity::key_of(v)));
        assert((|v: IdentityRecord| StoredIdentity::key_of(v)) =~= (|v: IdentityRecord| v.seed_id));
    }
    Ok(file)
}

/// Reads the packet table from a sealed file.
fn load_packet_table(
    key: &[u8; 32],
    file: &Vec<u8>,
) -> (r: Result<Table<QueuedPacket>, StorageError>)
    ensures
        match r {
            Ok(t) => t.wf() && packets_in(key@, file@) == Ok::<_, StorageError>(t.map()),
            Err(e) => packets_in(key@, file@) == Err::<Map<Seq<char>, PacketRecord>, _>(e),
        },
{
    if file.len() == 0 {
        let t = Table::new();
        assert(fold_map(
            Seq::<PacketRowModel>::empty().map_values(|r: PacketRowModel| packet_of_row(r)),
            |v: PacketRecord| v.packet_id,
        ) =~= t.map());
        return Ok(t);
    }
    if file.len() < NONCE_LEN {
        return Err(StorageError::Decryption);
    }
    let plain = match open_file(key, file) {
        Ok(p) => p,
        Err(e) => {
            return Err(e);
        },
    };
    let rows = match packet_rows_from_json(plain.as_slice()) {
        Some(rows) => rows,
        None => {
            return Err(StorageError::Deserialization);
        },
    };
    let ghost models = rows@.map_values(|x: PacketRow| packet_row_model(x)).map_values(
        |r: PacketRowModel| packet_of_row(r),
    );
    let ghost key_fn = |v: PacketRecord| v.packet_id;
    let mut table: Table<QueuedPacket> = Table::new();
    let mut i: usize = 0;
    assert(models.subrange(0, 0) =~= Seq::<PacketRecord>::empty());
    while i < rows.len()
        invariant
            i <= rows@.len(),
            models.len() == rows@.len(),
            models == rows@.map_values(|x: PacketRow| packet_row_model(x)).map_values(
                |r: PacketRowModel| packet_of_row(r),
            ),
            table.wf(),
            key_fn == (|v: PacketRecord| v.packet_id),
            table.map() == fold_map(models.subrange(0, i as int), key_fn),
        decreases rows@.len() - i,
    {
        let row = &rows[i];
        let packet_bytes = copy_range(row.1.as_slice(), 0, row.1.len());
        assert(packet_bytes@ =~= row.1@);
        let rec = QueuedPacket {
            packet_id: row.0.clone(),
            packet_bytes,
            packet_type: row.2.clone(),
            created_at: row.3,
            retry_count: row.4,
            last_retry: row.5,
            max_retries: row.6,
            ack_received: row.7,
        };
        assert(rec@ == models[i as int]);
        let ghost before = table.map();
        table.insert(rec);
        proof {
            assert(table.map() == before.insert(models[i as int].packet_id, models[i as int]));
            let next = models.subrange(0, i + 1);
            assert(next.drop_last() =~= models.subrange(0, i as int));
            assert(next.last() == models[i as int]);
            assert(fold_map(next, key_fn) == fold_map(next.drop_last(), key_fn).insert(
                key_fn(next.last()),
                next.last(),
            ));
        }
        i = i + 1;
    }
    assert(models.subrange(0, i as int) =~= models);
    Ok(table)
}

/// Writes the packet table as a sealed file.
fn save_packet_table(
    key: &[u8; 32],
    table: &Table<QueuedPacket>,
) -> (r: Result<Vec<u8>, StorageError>)
    requires
        table.wf(),
    ensures
        packet_rows_json(packet_rows(table.records())).len() <= AES_GCM_MAX_PLAINTEXT ==> r is Ok,
        r matches Ok(file) ==> packets_in(key@, file@) == Ok::<_, StorageError>(table.map()),
        r matches Ok(file) ==> sealed_file(key@, packet_rows_json(packet_rows(table.records())), file@),
        r matches Err(e) ==> write_failure(e),
{
    let mut rows: Vec<PacketRow> = Vec::new();
    let mut i: usize = 0;
    while i < table.entries.len()
        invariant
            i <= table.entries@.len(),
            rows@.len() == i,
            forall|j: int| 0 <= j < i ==> #[trigger] packet_row_model(rows@[j]) == row_of_packet(table.entries@[j]@),
        decreases table.entries@.len() - i,
    {
        let e = &table.entries[i];
        let packet_bytes = copy_range(e.packet_bytes.as_slice(), 0, e.packet_bytes.len());
        assert(packet_bytes@ =~= e.packet_bytes@);
        rows.push(
            (
                e.packet_id.clone(),
                packet_bytes,
                e.packet_type.clone(),
                e.created_at,
                e.retry_count,
                e.last_retry,
                e.max_retries,
                e.ack_received,
            ),
        );
        i = i + 1;
    }
    assert(rows@.map_values(|x: PacketRow| packet_row_model(x)) =~= packet_rows(table.records()));
    let json = match packet_rows_to_json(&rows) {
        Some(j) => j,
        None => {
            return Err(StorageError::Serialization);
        },
    };
    let file = match seal_file(key, &json) {
        Ok(f) => f,
        Err(e) => {
            return Err(e);
        },
    };
    proof {
        let models = rows@.map_values(|x: PacketRow| packet_row_model(x)).map_values(
            |r: PacketRowModel| packet_of_row(r),
        );
        assert(models =~= table.records());
        lemma_fold_map_distinct(table.records(), |v: PacketRecord| v.packet_id);
        assert(table.map() == keyed_map(table.records(), |v: PacketRecord| QueuedPacket::key_of(v)));
        assert((|v: PacketRecord| QueuedPacket::key_of(v)) =~= (|v: PacketRecord| v.packet_id));
    }
    Ok(file)
}


/// The identity store's key: the SHA-256 of a fixed label. It is the same in
/// every process, so it protects against corruption and casual reading, not
/// against anyone who has this code.
pub open spec fn identities_store_key() -> Seq<u8> {
    sha256_of(encode_utf8("metamesh-identities-key-v1"@))
}

/// The packet store's key: the SHA-256 of a fixed label, likewise the same in
/// every process.
pub open spec fn packets_store_key() -> Seq<u8> {
    sha256_of(encode_utf8("metamesh-packets-key-v1"@))
}

/// What deleting `ids` one after another from `m` leaves, with the ids that
/// were found and removed and those that were not, each in request order.
pub open spec fn deletion(m: Map<Seq<char>, IdentityRecord>, ids: Seq<Seq<char>>) -> (
    Map<Seq<char>, IdentityRecord>,
    Seq<Seq<char>>,
    Seq<Seq<char>>,
)
    decreases ids.len(),
{
    if ids.len() == 0 {
        (m, Seq::empty(), Seq::empty())
    } else {
        let prev = deletion(m, ids.drop_last());
        let k = ids.last();
        if prev.0.contains_key(k) {
            (prev.0.remove(k), prev.1.push(k), prev.2)
        } else {
            (prev.0, prev.1, prev.2.push(k))
        }
    }
}

/// Seconds between two send attempts of a queued packet.
pub const RETRY_INTERVAL: u64 = 300;

/// Seconds after which a queued packet expires, whatever its state.
pub const MAX_AGE: u64 = 3600;

/// A queued packet is evicted once acknowledged, out of retries, or older than
/// the maximum age.
pub open spec fn is_expired(p: PacketRecord, now: u64) -> bool {
    p.ack_received || p.retry_count >= p.max_retries || now - p.created_at > MAX_AGE
}

/// A queued packet is due for another send attempt when it is not acknowledged
/// and the retry interval has passed since the last attempt.
pub open spec fn is_due(p: PacketRecord, now: u64) -> bool {
    !p.ack_received && now - p.last_retry >= RETRY_INTERVAL
}

/// The queue after an eviction sweep at `now`.
pub open spec fn swept(m: Map<Seq<char>, PacketRecord>, now: u64) -> Map<Seq<char>, PacketRecord> {
    Map::new(|k: Seq<char>| m.contains_key(k) && !is_expired(m[k], now), |k: Seq<char>| m[k])
}

/// The queued packets that are not acknowledged.
pub open spec fn pending(m: Map<Seq<char>, PacketRecord>) -> Map<Seq<char>, PacketRecord> {
    Map::new(|k: Seq<char>| m.contains_key(k) && !m[k].ack_received, |k: Seq<char>| m[k])
}

/// A packet with its acknowledgment recorded.
pub open spec fn acked(p: PacketRecord) -> PacketRecord {
    PacketRecord { ack_received: true, ..p }
}

/// A packet after one more send attempt at `now` (the count stops at its maximum).
pub open spec fn retried(p: PacketRecord, now: u64) -> PacketRecord {
    PacketRecord {
        retry_count: if p.retry_count < u32::MAX { (p.retry_count + 1) as u32 } else { p.retry_count },
        last_retry: now,
        ..p
    }
}

/// The queue with the acknowledgment of `id` recorded, if it is queued.
pub open spec fn with_ack(m: Map<Seq<char>, PacketRecord>, id: Seq<char>) -> Map<Seq<char>, PacketRecord> {
    if m.contains_key(id) { m.insert(id, acked(m[id])) } else { m }
}

/// The queue with one more send attempt of `id` at `now` counted, if it is queued.
pub open spec fn with_retry(m: Map<Seq<char>, PacketRecord>, id: Seq<char>, now: u64) -> Map<Seq<char>, PacketRecord> {
    if m.contains_key(id) { m.insert(id, retried(m[id], now)) } else { m }
}

/// The count a sweep reports: how many packets it removed, at most `u32::MAX`.
pub open spec fn removed_count(m: Map<Seq<char>, PacketRecord>, now: u64) -> int {
    if m.len() - swept(m, now).len() <= u32::MAX {
        m.len() - swept(m, now).len()
    } else {
        u32::MAX as int
    }
}

/// What one more send attempt at `now` does to a packet store, as read
/// before and after.
pub open spec fn retry_outcome(
    before: Result<Map<Seq<char>, PacketRecord>, StorageError>,
    after: Result<Map<Seq<char>, PacketRecord>, StorageError>,
    id: Seq<char>,
    now: u64,
    r: Result<(), StorageError>,
) -> bool {
    match before {
        Ok(m) => match r {
            Ok(_) => after == Ok::<_, StorageError>(with_retry(m, id, now)),
            Err(_) => after == before,
        },
        Err(e) => r == Err::<(), _>(e) && after == before,
    }
}

/// What an eviction sweep at `now` does to a packet store, as read before and after.
pub open spec fn sweep_outcome(
    before: Result<Map<Seq<char>, PacketRecord>, StorageError>,
    after: Result<Map<Seq<char>, PacketRecord>, StorageError>,
    now: u64,
    r: Result<u32, StorageError>,
) -> bool {
    match before {
        Ok(m) => match r {
            Ok(count) => after == Ok::<_, StorageError>(swept(m, now)) && m.dom().finite()
                && count == removed_count(m, now),
            Err(_) => after == before,
        },
        Err(e) => r == Err::<u32, _>(e) && after == before,
    }
}

/// A packet whose retries are used up is removed by the next eviction sweep,
/// and so is absent from the pending packets afterwards.
pub proof fn lemma_exhausted_packet_evicted(m: Map<Seq<char>, PacketRecord>, id: Seq<char>, now: u64)
    requires
        m.contains_key(id),
        m[id].retry_count == m[id].max_retries,
    ensures
        !swept(m, now).contains_key(id),
        !pending(swept(m, now)).contains_key(id),
{
}

/// A packet created more than the maximum age before `now` is removed by the
/// eviction sweep, whether or not it was acknowledged and whatever its retries.
pub proof fn lemma_old_packet_evicted(m: Map<Seq<char>, PacketRecord>, id: Seq<char>, now: u64)
    requires
        m.contains_key(id),
        now - m[id].created_at > MAX_AGE,
    ensures
        !swept(m, now).contains_key(id),
        !pending(swept(m, now)).contains_key(id),
{
}

/// An acknowledged packet is removed by the next eviction sweep.
pub proof fn lemma_acked_packet_evicted(m: Map<Seq<char>, PacketRecord>, id: Seq<char>, now: u64)
    requires
        m.contains_key(id),
        m[id].ack_received,
    ensures
        !swept(m, now).contains_key(id),
        !pending(swept(m, now)).contains_key(id),
{
}

/// Whether a selection keeps a packet: for a sweep, one that has not expired;
/// otherwise one that is not acknowledged.
pub open spec fn selected(p: PacketRecord, now: u64, sweeping: bool) -> bool {
    if sweeping {
        !is_expired(p, now)
    } else {
        !p.ack_received
    }
}

/// The packets of `table` that a selection keeps.
fn select_packets(table: &Table<QueuedPacket>, now: u64, sweeping: bool) -> (r: Table<QueuedPacket>)
    requires
        table.wf(),
    ensures
        r.wf(),
        r.map() == Map::new(
            |k: Seq<char>| table.map().contains_key(k) && selected(table.map()[k], now, sweeping),
            |k: Seq<char>| table.map()[k],
        ),
{
    let ghost recs = table.records();
    let ghost m = table.map();
    let ghost key = |v: PacketRecord| QueuedPacket::key_of(v);
    let mut out: Table<QueuedPacket> = Table::new();
    let mut i: usize = 0;
    while i < table.entries.len()
        invariant
            i <= table.entries@.len(),
            table.wf(),
            recs == table.records(),
            m == table.map(),
            key == (|v: PacketRecord| QueuedPacket::key_of(v)),
            out.wf(),
            forall|k: Seq<char>| #[trigger] out.map().contains_key(k) ==> m.contains_key(k) && selected(m[k], now, sweeping) && out.map()[k] == m[k],
            forall|j: int| 0 <= j < i && selected(recs[j], now, sweeping) ==> out.map().contains_key(#[trigger] key(recs[j])),
        decreases table.entries@.len() - i,
    {
        let e = &table.entries[i];
        let keep = if sweeping {
            let too_old = e.created_at < now && now - e.created_at > MAX_AGE;
            !(e.ack_received || e.retry_count >= e.max_retries || too_old)
        } else {
            !e.ack_received
        };
        proof {
            assert(recs[i as int] == e@);
            lemma_keyed_map_value(recs, key, i as int);
        }
        if keep {
            out.insert(e.duplicate());
        }
        i = i + 1;
    }
    proof {
        let target = Map::new(
            |k: Seq<char>| m.contains_key(k) && selected(m[k], now, sweeping),
            |k: Seq<char>| m[k],
        );
        assert forall|k: Seq<char>| #[trigger] target.contains_key(k) implies out.map().contains_key(k) by {
            let j = choose|j: int| 0 <= j < recs.len() && key(recs[j]) == k;
            lemma_keyed_map_value(recs, key, j);
        }
        assert(out.map() =~= target);
    }
    out
}

/// Whatever order a table holds these identities in, their JSON text fits
/// AES-GCM's plaintext limit.
pub open spec fn identities_json_fits(m: Map<Seq<char>, IdentityRecord>) -> bool {
    forall|t: Table<StoredIdentity>|
        t.wf() && #[trigger] t.map() == m ==> identity_rows_json(identity_rows(t.records())).len()
            <= AES_GCM_MAX_PLAINTEXT
}

/// Whatever order a table holds these packets in, their JSON text fits
/// AES-GCM's plaintext limit.
pub open spec fn packets_json_fits(m: Map<Seq<char>, PacketRecord>) -> bool {
    forall|t: Table<QueuedPacket>|
        t.wf() && #[trigger] t.map() == m ==> packet_rows_json(packet_rows(t.records())).len()
            <= AES_GCM_MAX_PLAINTEXT
}

/// The encrypted identity and packet stores. The engine holds each store's
/// sealed file contents; the caller reads the files into it and writes them
/// back after a change.
pub struct SecureStorage {
    identities_key: [u8; 32],
    packets_key: [u8; 32],
    identities_file: Vec<u8>,
    packets_file: Vec<u8>,
}

impl SecureStorage {
    /// The identities the store holds, by seed id, or why it cannot be read.
    pub closed spec fn identities(&self) -> Result<Map<Seq<char>, IdentityRecord>, StorageError> {
        identities_in(self.identities_key@, self.identities_file@)
    }

    /// The queued packets the store holds, by packet id, or why it cannot be read.
    pub closed spec fn packets(&self) -> Result<Map<Seq<char>, PacketRecord>, StorageError> {
        packets_in(self.packets_key@, self.packets_file@)
    }

    /// Both keys are the stores' fixed keys.
    pub closed spec fn keyed(&self) -> bool {
        self.identities_key@ == identities_store_key() && self.packets_key@ == packets_store_key()
    }

    /// The sealed identity file's contents.
    pub closed spec fn identities_bytes(&self) -> Seq<u8> {
        self.identities_file@
    }

    /// The sealed packet file's contents.
    pub closed spec fn packets_bytes(&self) -> Seq<u8> {
        self.packets_file@
    }

    /// An engine over the given sealed file contents (empty for a missing file).
    pub fn from_files(identities_file: Vec<u8>, packets_file: Vec<u8>) -> (r: Self)
        ensures
            r.keyed(),
            r.identities_bytes() == identities_file@,
            r.packets_bytes() == packets_file@,
            r.identities() == identities_in(identities_store_key(), identities_file@),
            r.packets() == packets_in(packets_store_key(), packets_file@),
    {
        let identities_key = sha256_hash("metamesh-identities-key-v1".as_bytes());
        let packets_key = sha256_hash("metamesh-packets-key-v1".as_bytes());
        SecureStorage { identities_key, packets_key, identities_file, packets_file }
    }

    /// An engine whose stores are both empty.
    pub fn new() -> (r: Self)
        ensures
            r.keyed(),
            r.identities() == Ok::<_, StorageError>(Map::<Seq<char>, IdentityRecord>::empty()),
            r.packets() == Ok::<_, StorageError>(Map::<Seq<char>, PacketRecord>::empty()),
    {
        let r = Self::from_files(Vec::new(), Vec::new());
        assert(fold_map(
            Seq::<IdentityRowModel>::empty().map_values(|r: IdentityRowModel| identity_of_row(r)),
            |v: IdentityRecord| v.seed_id,
        ) =~= Map::<Seq<char>, IdentityRecord>::empty());
        assert(fold_map(
            Seq::<PacketRowModel>::empty().map_values(|r: PacketRowModel| packet_of_row(r)),
            |v: PacketRecord| v.packet_id,
        ) =~= Map::<Seq<char>, PacketRecord>::empty());
        r
    }

    /// The sealed identity file's current contents.
    pub fn identities_file(&self) -> (r: &Vec<u8>)
        ensures
            r@ == self.identities_bytes(),
    {
        &self.identities_file
    }

    /// The sealed packet file's current contents.
    pub fn packets_file(&self) -> (r: &Vec<u8>)
        ensures
            r@ == self.packets_bytes(),
    {
        &self.packets_file
    }

    /// Reads the whole identity store. Together with `save_identities`:
    /// after a successful save of a table, loading gives back the same map.
    pub fn load_identities(&self) -> (r: Result<Table<StoredIdentity>, StorageError>)
        ensures
            match r {
                Ok(t) => t.wf() && self.identities() == Ok::<_, StorageError>(t.map()),
                Err(e) => self.identities() == Err::<Map<Seq<char>, IdentityRecord>, _>(e),
            },
    {
        load_identity_table(&self.identities_key, &self.identities_file)
    }

    /// Seals `table` as the new identity store; on failure nothing changes.
    pub fn save_identities(
        &mut self,
        table: &Table<StoredIdentity>,
    ) -> (r: Result<(), StorageError>)
        requires
            table.wf(),
        ensures
            final(self).keyed() == old(self).keyed(),
            final(self).packets() == old(self).packets(),
            final(self).packets_bytes() == old(self).packets_bytes(),
            r is Ok ==> final(self).identities() == Ok::<_, StorageError>(table.map()),
            identities_json_fits(table.map()) ==> r is Ok,
            r is Ok && old(self).keyed() ==> sealed_file(
                identities_store_key(),
                identity_rows_json(identity_rows(table.records())),
                final(self).identities_bytes(),
            ),
            r is Err ==> final(self).identities_bytes() == old(self).identities_bytes(),
            r is Err ==> final(self).identities() == old(self).identities(),
            r matches Err(e) ==> write_failure(e),
    {
        match save_identity_table(&self.identities_key, table) {
            Ok(file) => {
                self.identities_file = file;
                Ok(())
            },
            Err(e) => Err(e),
        }
    }

    /// Stores an identity under its seed id, replacing any with the same id.
    /// Fails, changing nothing, when the store cannot be read or written.
    pub fn store_identity(&mut self, identity: StoredIdentity) -> (r: Result<(), StorageError>)
        ensures
            r is Err ==> final(self).identities_bytes() == old(self).identities_bytes(),
            old(self).identities() matches Ok(m) && identities_json_fits(m.insert(identity.seed_id@, identity@))
                ==> r is Ok,
            final(self).keyed() == old(self).keyed(),
            final(self).packets() == old(self).packets(),
            final(self).packets_bytes() == old(self).packets_bytes(),
            match old(self).identities() {
                Ok(m) => match r {
                    Ok(_) => final(self).identities() == Ok::<_, StorageError>(m.insert(identity.seed_id@, identity@)),
                    Err(e) => final(self).identities() == old(self).identities()
                        && write_failure(e),
                },
                Err(e) => r == Err::<(), _>(e) && final(self).identities() == old(self).identities(),
            },
    {
        let mut table = match self.load_identities() {
            Ok(t) => t,
            Err(e) => {
                return Err(e);
            },
        };
        table.insert(identity);
        self.save_identities(&table)
    }

    /// The identity with a seed id, if the store holds one.
    pub fn get_identity(&self, seed_id: &str) -> (r: Result<Option<StoredIdentity>, StorageError>)
        ensures
            match self.identities() {
                Ok(m) => r matches Ok(found) && (found is Some <==> m.contains_key(seed_id@))
                    && (found matches Some(x) ==> x@ == m[seed_id@]),
                Err(e) => r == Err::<Option<StoredIdentity>, _>(e),
            },
    {
        let table = match self.load_identities() {
            Ok(t) => t,
            Err(e) => {
                return Err(e);
            },
        };
        let key = seed_id.to_owned();
        match table.get(&key) {
            Some(x) => Ok(Some(x.duplicate())),
            None => Ok(None),
        }
    }

    /// Every stored identity once, in no particular order.
    pub fn list_identities(&self) -> (r: Result<Vec<StoredIdentity>, StorageError>)
        ensures
            match self.identities() {
                Ok(m) => r matches Ok(v) && distinct_keys(
                    v@.map_values(|x: StoredIdentity| x@),
                    |x: IdentityRecord| x.seed_id,
                ) && keyed_map(v@.map_values(|x: StoredIdentity| x@), |x: IdentityRecord| x.seed_id) == m,
                Err(e) => r == Err::<Vec<StoredIdentity>, _>(e),
            },
    {
        match self.load_identities() {
            Ok(t) => {
                assert((|x: IdentityRecord| StoredIdentity::key_of(x)) =~= (|x: IdentityRecord| x.seed_id));
                Ok(t.entries)
            },
            Err(e) => Err(e),
        }
    }

    /// A stored identity whose recovery phrase is `mnemonic`, if there is one.
    pub fn find_by_mnemonic(
        &self,
        mnemonic: &str,
    ) -> (r: Result<Option<StoredIdentity>, StorageError>)
        ensures
            match self.identities() {
                Ok(m) => r matches Ok(found) && match found {
                    Some(x) => m.contains_key(x.seed_id@) && m[x.seed_id@] == x@ && x.mnemonic@ == mnemonic@,
                    None => forall|k: Seq<char>| #[trigger] m.contains_key(k) ==> m[k].mnemonic != mnemonic@,
                },
                Err(e) => r == Err::<Option<StoredIdentity>, _>(e),
            },
    {
        let table = match self.load_identities() {
            Ok(t) => t,
            Err(e) => {
                return Err(e);
            },
        };
        let wanted = mnemonic.to_owned();
        let ghost recs = table.records();
        let mut i: usize = 0;
        while i < table.entries.len()
            invariant
                i <= table.entries@.len(),
                table.wf(),
                self.identities() == Ok::<_, StorageError>(table.map()),
                wanted@ == mnemonic@,
                recs == table.records(),
                forall|j: int| 0 <= j < i ==> (#[trigger] table.entries@[j]).mnemonic@ != wanted@,
            decreases table.entries@.len() - i,
        {
            if table.entries[i].mnemonic.eq(&wanted) {
                proof {
                    assert(recs[i as int] == table.entries@[i as int]@);
                    lemma_keyed_map_value(recs, |v: IdentityRecord| StoredIdentity::key_of(v), i as int);
                }
                return Ok(Some(table.entries[i].duplicate()));
            }
            i = i + 1;
        }
        proof {
            assert forall|k: Seq<char>| #[trigger] table.map().contains_key(k) implies table.map()[k].mnemonic != mnemonic@ by {
                let j = choose|j: int| 0 <= j < recs.len() && StoredIdentity::key_of(recs[j]) == k;
                assert(recs[j] == table.entries@[j]@);
                lemma_keyed_map_value(recs, |v: IdentityRecord| StoredIdentity::key_of(v), j);
            }
        }
        Ok(None)
    }

    /// Deletes each seed id in turn; returns the ids that were found and
    /// deleted, and those that were not, each in request order. The store is
    /// written back even when nothing was found.
    pub fn delete_identities(
        &mut self,
        seed_ids: &[String],
    ) -> (r: Result<(Vec<String>, Vec<String>), StorageError>)
        ensures
            r is Err ==> final(self).identities_bytes() == old(self).identities_bytes(),
            old(self).identities() matches Ok(m) && identities_json_fits(
                deletion(m, seed_ids@.map_values(|s: String| s@)).0,
            ) ==> r is Ok,
            final(self).keyed() == old(self).keyed(),
            final(self).packets() == old(self).packets(),
            final(self).packets_bytes() == old(self).packets_bytes(),
            match old(self).identities() {
                Ok(m) => match r {
                    Ok((deleted, not_found)) => {
                        let d = deletion(m, seed_ids@.map_values(|s: String| s@));
                        &&& final(self).identities() == Ok::<_, StorageError>(d.0)
                        &&& deleted@.map_values(|s: String| s@) == d.1
                        &&& not_found@.map_values(|s: String| s@) == d.2
                    },
                    Err(e) => final(self).identities() == old(self).identities()
                        && write_failure(e),
                },
                Err(e) => r == Err::<(Vec<String>, Vec<String>), _>(e) && final(self).identities() == old(self).identities(),
            },
    {
        let mut table = match self.load_identities() {
            Ok(t) => t,
            Err(e) => {
                return Err(e);
            },
        };
        let ghost m = table.map();
        let ghost ids = seed_ids@.map_values(|s: String| s@);
        let mut deleted: Vec<String> = Vec::new();
        let mut not_found: Vec<String> = Vec::new();
        let mut i: usize = 0;
        while i < seed_ids.len()
            invariant
                i <= seed_ids@.len(),
                ids == seed_ids@.map_values(|s: String| s@),
                table.wf(),
                deletion(m, ids.subrange(0, i as int)) == (
                    table.map(),
                    deleted@.map_values(|s: String| s@),
                    not_found@.map_values(|s: String| s@),
                ),
            decreases seed_ids@.len() - i,
        {
            let ghost prefix = ids.subrange(0, i + 1);
            assert(prefix.drop_last() =~= ids.subrange(0, i as int));
            assert(prefix.last() == seed_ids@[i as int]@);
            let ghost before_d = deleted@.map_values(|s: String| s@);
            let ghost before_n = not_found@.map_values(|s: String| s@);
            if table.remove(&seed_ids[i]) {
                deleted.push(seed_ids[i].clone());
                assert(deleted@.map_values(|s: String| s@) =~= before_d.push(seed_ids@[i as int]@));
            } else {
                not_found.push(seed_ids[i].clone());
                assert(not_found@.map_values(|s: String| s@) =~= before_n.push(seed_ids@[i as int]@));
            }
            i = i + 1;
        }
        assert(ids.subrange(0, i as int) =~= ids);
        match self.save_identities(&table) {
            Ok(()) => Ok((deleted, not_found)),
            Err(e) => Err(e),
        }
    }

    /// Deletes every identity; returns how many there were.
    pub fn delete_all_identities(&mut self) -> (r: Result<usize, StorageError>)
        ensures
            r is Err ==> final(self).identities_bytes() == old(self).identities_bytes(),
            old(self).identities() is Ok && identities_json_fits(Map::<Seq<char>, IdentityRecord>::empty())
                ==> r is Ok,
            final(self).keyed() == old(self).keyed(),
            final(self).packets() == old(self).packets(),
            final(self).packets_bytes() == old(self).packets_bytes(),
            match old(self).identities() {
                Ok(m) => match r {
                    Ok(count) => count == m.len() && final(self).identities() == Ok::<_, StorageError>(
                        Map::<Seq<char>, IdentityRecord>::empty(),
                    ),
                    Err(e) => final(self).identities() == old(self).identities()
                        && write_failure(e),
                },
                Err(e) => r == Err::<usize, _>(e) && final(self).identities() == old(self).identities(),
            },
    {
        let table = match self.load_identities() {
            Ok(t) => t,
            Err(e) => {
                return Err(e);
            },
        };
        let count = table.len();
        let empty: Table<StoredIdentity> = Table::new();
        match self.save_identities(&empty) {
            Ok(()) => Ok(count),
            Err(e) => Err(e),
        }
    }

    /// Reads the whole packet store. Together with `save_packets`: after a
    /// successful save of a table, loading gives back the same map.
    pub fn load_packets(&self) -> (r: Result<Table<QueuedPacket>, StorageError>)
        ensures
            match r {
                Ok(t) => t.wf() && self.packets() == Ok::<_, StorageError>(t.map()),
                Err(e) => self.packets() == Err::<Map<Seq<char>, PacketRecord>, _>(e),
            },
    {
        load_packet_table(&self.packets_key, &self.packets_file)
    }

    /// Seals `table` as the new packet store; on failure nothing changes.
    pub fn save_packets(&mut self, table: &Table<QueuedPacket>) -> (r: Result<(), StorageError>)
        requires
            table.wf(),
        ensures
            final(self).keyed() == old(self).keyed(),
            final(self).identities() == old(self).identities(),
            final(self).identities_bytes() == old(self).identities_bytes(),
            r is Ok ==> final(self).packets() == Ok::<_, StorageError>(table.map()),
            packets_json_fits(table.map()) ==> r is Ok,
            r is Ok && old(self).keyed() ==> sealed_file(
                packets_store_key(),
                packet_rows_json(packet_rows(table.records())),
                final(self).packets_bytes(),
            ),
            r is Err ==> final(self).packets_bytes() == old(self).packets_bytes(),
            r is Err ==> final(self).packets() == old(self).packets(),
            r matches Err(e) ==> write_failure(e),
    {
        match save_packet_table(&self.packets_key, table) {
            Ok(file) => {
                self.packets_file = file;
                Ok(())
            },
            Err(e) => Err(e),
        }
    }

    /// Queues a packet under its id, replacing any with the same id.
    pub fn queue_packet(&mut self, packet: QueuedPacket) -> (r: Result<(), StorageError>)
        ensures
            r is Err ==> final(self).packets_bytes() == old(self).packets_bytes(),
            old(self).packets() matches Ok(m) && packets_json_fits(m.insert(packet.packet_id@, packet@)) ==> r is Ok,
            final(self).keyed() == old(self).keyed(),
            final(self).identities() == old(self).identities(),
            final(self).identities_bytes() == old(self).identities_bytes(),
            match old(self).packets() {
                Ok(m) => match r {
                    Ok(_) => final(self).packets() == Ok::<_, StorageError>(m.insert(packet.packet_id@, packet@)),
                    Err(e) => final(self).packets() == old(self).packets()
                        && write_failure(e),
                },
                Err(e) => r == Err::<(), _>(e) && final(self).packets() == old(self).packets(),
            },
    {
        let mut table = match self.load_packets() {
            Ok(t) => t,
            Err(e) => {
                return Err(e);
            },
        };
        table.insert(packet);
        self.save_packets(&table)
    }

    /// Every packet that is not acknowledged, once, in no particular order.
    pub fn get_pending_packets(&self) -> (r: Result<Vec<QueuedPacket>, StorageError>)
        ensures
            match self.packets() {
                Ok(m) => r matches Ok(v) && distinct_keys(
                    v@.map_values(|x: QueuedPacket| x@),
                    |x: PacketRecord| x.packet_id,
                ) && keyed_map(v@.map_values(|x: QueuedPacket| x@), |x: PacketRecord| x.packet_id) == pending(m),
                Err(e) => r == Err::<Vec<QueuedPacket>, _>(e),
            },
    {
        match self.load_packets() {
            Ok(t) => {
                let selection = select_packets(&t, 0, false);
                assert((|x: PacketRecord| QueuedPacket::key_of(x)) =~= (|x: PacketRecord| x.packet_id));
                assert(selection.map() =~= pending(t.map()));
                Ok(selection.entries)
            },
            Err(e) => Err(e),
        }
    }

    /// Records the acknowledgment of a queued packet; an unknown id changes
    /// nothing, but the store is still written back.
    pub fn mark_packet_acked(&mut self, packet_id: &str) -> (r: Result<(), StorageError>)
        ensures
            r is Err ==> final(self).packets_bytes() == old(self).packets_bytes(),
            old(self).packets() matches Ok(m) && packets_json_fits(with_ack(m, packet_id@)) ==> r is Ok,
            final(self).keyed() == old(self).keyed(),
            final(self).identities() == old(self).identities(),
            final(self).identities_bytes() == old(self).identities_bytes(),
            match old(self).packets() {
                Ok(m) => match r {
                    Ok(_) => final(self).packets() == Ok::<_, StorageError>(
                        with_ack(m, packet_id@),
                    ),
                    Err(e) => final(self).packets() == old(self).packets()
                        && write_failure(e),
                },
                Err(e) => r == Err::<(), _>(e) && final(self).packets() == old(self).packets(),
            },
    {
        let mut table = match self.load_packets() {
            Ok(t) => t,
            Err(e) => {
                return Err(e);
            },
        };
        let key = packet_id.to_owned();
        let updated = match table.get(&key) {
            Some(x) => {
                let mut p = x.duplicate();
                p.ack_received = true;
                Some(p)
            },
            None => None,
        };
        if let Some(p) = updated {
            table.insert(p);
        }
        self.save_packets(&table)
    }

    /// Counts one more send attempt of a queued packet at `now`; an unknown id
    /// changes nothing, but the store is still written back.
    pub fn increment_retry_count_at(
        &mut self,
        packet_id: &str,
        now: u64,
    ) -> (r: Result<(), StorageError>)
        ensures
            r is Err ==> final(self).packets_bytes() == old(self).packets_bytes(),
            old(self).packets() matches Ok(m) && packets_json_fits(with_retry(m, packet_id@, now)) ==> r is Ok,
            final(self).keyed() == old(self).keyed(),
            final(self).identities() == old(self).identities(),
            final(self).identities_bytes() == old(self).identities_bytes(),
            match old(self).packets() {
                Ok(m) => match r {
                    Ok(_) => final(self).packets() == Ok::<_, StorageError>(
                        with_retry(m, packet_id@, now),
                    ),
                    Err(e) => final(self).packets() == old(self).packets()
                        && write_failure(e),
                },
                Err(e) => r == Err::<(), _>(e) && final(self).packets() == old(self).packets(),
            },
    {
        let mut table = match self.load_packets() {
            Ok(t) => t,
            Err(e) => {
                return Err(e);
            },
        };
        let key = packet_id.to_owned();
        let updated = match table.get(&key) {
            Some(x) => {
                let mut p = x.duplicate();
                if p.retry_count < u32::MAX {
                    p.retry_count = p.retry_count + 1;
                }
                p.last_retry = now;
                Some(p)
            },
            None => None,
        };
        if let Some(p) = updated {
            table.insert(p);
        }
        self.save_packets(&table)
    }

    /// Counts one more send attempt of a queued packet, now by the system clock.
    pub fn increment_retry_count(&mut self, packet_id: &str) -> (r: Result<(), StorageError>)
        ensures
            r is Err ==> final(self).packets_bytes() == old(self).packets_bytes(),
            old(self).packets() matches Ok(m) && (forall|t: u64| packets_json_fits(#[trigger] with_retry(m, packet_id@, t)))
                ==> r is Ok,
            final(self).keyed() == old(self).keyed(),
            final(self).identities() == old(self).identities(),
            exists|now: u64| #[trigger] retry_outcome(old(self).packets(), final(self).packets(), packet_id@, now, r),
    {
        let now = get_current_timestamp();
        let r = self.increment_retry_count_at(packet_id, now);
        assert(retry_outcome(old(self).packets(), self.packets(), packet_id@, now, r));
        r
    }

    /// Evicts every packet that is acknowledged, out of retries, or older than
    /// the maximum age at `now`; returns how many were evicted (at most
    /// `u32::MAX`).
    pub fn remove_expired_packets_at(&mut self, now: u64) -> (r: Result<u32, StorageError>)
        ensures
            r is Err ==> final(self).packets_bytes() == old(self).packets_bytes(),
            old(self).packets() matches Ok(m) && packets_json_fits(swept(m, now)) ==> r is Ok,
            final(self).keyed() == old(self).keyed(),
            final(self).identities() == old(self).identities(),
            final(self).identities_bytes() == old(self).identities_bytes(),
            match old(self).packets() {
                Ok(m) => match r {
                    Ok(count) => final(self).packets() == Ok::<_, StorageError>(swept(m, now))
                        && m.dom().finite()
                        && count == removed_count(m, now),
                    Err(e) => final(self).packets() == old(self).packets()
                        && write_failure(e),
                },
                Err(e) => r == Err::<u32, _>(e) && final(self).packets() == old(self).packets(),
            },
    {
        let table = match self.load_packets() {
            Ok(t) => t,
            Err(e) => {
                return Err(e);
            },
        };
        let kept = select_packets(&table, now, true);
        proof {
            assert(kept.map() =~= swept(table.map(), now));
            lemma_keyed_map_len(table.records(), |v: PacketRecord| QueuedPacket::key_of(v));
            lemma_keyed_map_len(kept.records(), |v: PacketRecord| QueuedPacket::key_of(v));
            vstd::set_lib::lemma_len_subset(kept.map().dom(), table.map().dom());
        }
        let before = table.len();
        let after = kept.len();
        let removed = before - after;
        match self.save_packets(&kept) {
            Ok(()) => {
                if removed > u32::MAX as usize {
                    Ok(u32::MAX)
                } else {
                    Ok(removed as u32)
                }
            },
            Err(e) => Err(e),
        }
    }

    /// Evicts expired packets, now by the system clock.
    pub fn remove_expired_packets(&mut self) -> (r: Result<u32, StorageError>)
        ensures
            r is Err ==> final(self).packets_bytes() == old(self).packets_bytes(),
            old(self).packets() matches Ok(m) && (forall|t: u64| packets_json_fits(#[trigger] swept(m, t)))
                ==> r is Ok,
            final(self).keyed() == old(self).keyed(),
            final(self).identities() == old(self).identities(),
            exists|now: u64| #[trigger] sweep_outcome(old(self).packets(), final(self).packets(), now, r),
    {
        let now = get_current_timestamp();
        let r = self.remove_expired_packets_at(now);
        assert(sweep_outcome(old(self).packets(), self.packets(), now, r));
        r
    }
}


/// Relies on `SystemTime::now` and `duration_since(UNIX_EPOCH)`: whole seconds
/// since the epoch, or zero for a clock set before it. Nothing else is known.
#[verifier::external_body]
pub fn get_current_timestamp() -> (r: u64) {
    match std::time::SystemTime::now().duration_since(std::time::UNIX_EPOCH) {
        Ok(d) => d.as_secs(),
        Err(_) => 0,
    }
}

} // verus!
