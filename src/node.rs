//! The operations a node offers its host service: creating and recovering
//! identities, deleting them, building and queueing packets, decoding packets
//! given as hex, and the periodic retry and eviction sweep.
use vstd::prelude::*;
use crate::identity::{
    generate_seed_identity, generated_phrase, identity_of_phrase, phrase_seed, recover_from_mnemonic,
    IdentityError, IdentityModel, SeedIdentity,
};
use crate::crypto::{sha256_hash, sha256_of};
use crate::packet::{
    decode_spec, encode_spec, lemma_decode_encode, packet_type_label, packet_wf, tlvs_bytes,
    MetaMeshPacket, PacketError, PacketFlags, PacketHeader, PacketModel, PacketType, MAGIC_HEADER,
};
use crate::storage::{
    deletion, identities_json_fits, with_retry, is_due, packets_json_fits, pending, write_failure, retried, swept, IdentityRecord, PacketRecord, QueuedPacket,
    SecureStorage, StorageError, StoredIdentity, RETRY_INTERVAL,
};
use crate::table::{distinct_keys, has_key, keyed_map, lemma_keyed_map_value};
use crate::text::{hex_bytes, hex_decode, hex_encode, hex_text};
use crate::transport::{DispatchResult, TransportMonitor};
use vstd::slice::slice_subrange;
use vstd::utf8::encode_utf8;

verus! {

/// Why a node operation failed.
#[derive(Debug, Clone, PartialEq, Eq)]
pub enum NodeError {
    /// A required input was empty.
    InvalidArgument,
    /// No stored identity has the given seed id.
    NotFound,
    /// The text is not hexadecimal.
    InvalidHex,
    /// The bytes are not a packet.
    Malformed(PacketError),
    Storage(StorageError),
    Identity(IdentityError),
}

/// A store could not be written back.
pub open spec fn storage_write_failure(e: NodeError) -> bool {
    e matches NodeError::Storage(s) && write_failure(s)
}

/// The stored form of an identity created at `now`.
pub open spec fn stored_record(id: IdentityModel, now: u64) -> IdentityRecord {
    IdentityRecord {
        seed_id: id.seed_id,
        private_key: id.private_key,
        public_key: id.public_key,
        mnemonic: id.mnemonic,
        created_at: now,
    }
}

/// Whether some stored identity has this recovery phrase.
pub open spec fn has_mnemonic(m: Map<Seq<char>, IdentityRecord>, mnemonic: Seq<char>) -> bool {
    exists|k: Seq<char>| m.contains_key(k) && #[trigger] m[k].mnemonic == mnemonic
}

fn store_new_identity(
    storage: &mut SecureStorage,
    id: SeedIdentity,
    now: u64,
) -> (r: Result<StoredIdentity, NodeError>)
    ensures
        r is Err ==> final(storage).identities_bytes() == old(storage).identities_bytes(),
        old(storage).identities() matches Ok(m) && identities_json_fits(
            m.insert(id.seed_id@, stored_record(id@, now)),
        ) ==> r is Ok,
        final(storage).keyed() == old(storage).keyed(),
        final(storage).packets() == old(storage).packets(),
        final(storage).packets_bytes() == old(storage).packets_bytes(),
        match old(storage).identities() {
            Ok(m) => match r {
                Ok(x) => x@ == stored_record(id@, now) && final(storage).identities() == Ok::<_, StorageError>(m.insert(x.seed_id@, x@)),
                Err(e) => final(storage).identities() == old(storage).identities()
                    && storage_write_failure(e),
            },
            Err(e) => r == Err::<StoredIdentity, _>(NodeError::Storage(e)) && final(storage).identities() == old(storage).identities(),
        },
{
    let stored = StoredIdentity {
        seed_id: id.seed_id,
        private_key: id.private_key,
        public_key: id.public_key,
        mnemonic: id.mnemonic,
        created_at: now,
    };
    let copy = StoredIdentity {
        seed_id: stored.seed_id.clone(),
        private_key: stored.private_key.clone(),
        public_key: stored.public_key.clone(),
        mnemonic: stored.mnemonic.clone(),
        created_at: now,
    };
    match storage.store_identity(stored) {
        Ok(()) => Ok(copy),
        Err(e) => Err(NodeError::Storage(e)),
    }
}

/// Creates an identity from fresh entropy and stores it, created at `now`.
pub fn create_address(
    storage: &mut SecureStorage,
    entropy: &[u8; 32],
    now: u64,
) -> (r: Result<StoredIdentity, NodeError>)
    ensures
        r is Err ==> final(storage).identities_bytes() == old(storage).identities_bytes(),
        ({
            let rec = stored_record(identity_of_phrase(generated_phrase(phrase_seed(entropy@))), now);
            old(storage).identities() matches Ok(m) && identities_json_fits(m.insert(rec.seed_id, rec))
                ==> r is Ok
        }),
        final(storage).keyed() == old(storage).keyed(),
        final(storage).packets() == old(storage).packets(),
        final(storage).packets_bytes() == old(storage).packets_bytes(),
        match old(storage).identities() {
            Ok(m) => match r {
                Ok(x) => x.mnemonic@ == generated_phrase(phrase_seed(entropy@))
                    && x@ == stored_record(identity_of_phrase(x.mnemonic@), now)
                    && final(storage).identities() == Ok::<_, StorageError>(m.insert(x.seed_id@, x@)),
                Err(e) => final(storage).identities() == old(storage).identities()
                    && storage_write_failure(e),
            },
            Err(e) => r == Err::<StoredIdentity, _>(NodeError::Storage(e)) && final(storage).identities() == old(storage).identities(),
        },
{
    let id = match generate_seed_identity(entropy) {
        Ok(id) => id,
        Err(e) => {
            return Err(NodeError::Identity(e));
        },
    };
    store_new_identity(storage, id, now)
}

/// Recovers the identity of a phrase. A stored identity with that phrase is
/// returned as it is, and nothing changes; otherwise the identity is derived
/// from the phrase and stored, created at `now`.
pub fn recover_keys(
    storage: &mut SecureStorage,
    mnemonic: &str,
    now: u64,
) -> (r: Result<StoredIdentity, NodeError>)
    ensures
        r is Err ==> final(storage).identities_bytes() == old(storage).identities_bytes(),
        ({
            let rec = stored_record(identity_of_phrase(mnemonic@), now);
            old(storage).identities() matches Ok(m) && identities_json_fits(m.insert(rec.seed_id, rec))
                ==> r is Ok
        }),
        final(storage).keyed() == old(storage).keyed(),
        final(storage).packets() == old(storage).packets(),
        final(storage).packets_bytes() == old(storage).packets_bytes(),
        match old(storage).identities() {
            Ok(m) => if has_mnemonic(m, mnemonic@) {
                &&& r matches Ok(x) && m.contains_key(x.seed_id@) && m[x.seed_id@] == x@ && x.mnemonic@ == mnemonic@
                &&& final(storage).identities() == old(storage).identities()
            } else {
                match r {
                    Ok(x) => x@ == stored_record(identity_of_phrase(mnemonic@), now)
                        && final(storage).identities() == Ok::<_, StorageError>(m.insert(x.seed_id@, x@)),
                    Err(e) => final(storage).identities() == old(storage).identities()
                        && storage_write_failure(e),
                }
            },
            Err(e) => r == Err::<StoredIdentity, _>(NodeError::Storage(e)) && final(storage).identities() == old(storage).identities(),
        },
{
    match storage.find_by_mnemonic(mnemonic) {
        Ok(Some(existing)) => {
            proof {
                let m = storage.identities()->Ok_0;
                assert(m.contains_key(existing.seed_id@) && m[existing.seed_id@].mnemonic == mnemonic@);
                assert(has_mnemonic(m, mnemonic@));
            }
            return Ok(existing);
        },
        Ok(None) => {
            proof {
                let m = storage.identities()->Ok_0;
                assert(!has_mnemonic(m, mnemonic@));
            }
        },
        Err(e) => {
            return Err(NodeError::Storage(e));
        },
    }
    let id = match recover_from_mnemonic(mnemonic) {
        Ok(id) => id,
        Err(e) => {
            return Err(NodeError::Identity(e));
        },
    };
    store_new_identity(storage, id, now)
}

/// Deletes the identities with the given seed ids; at least one is required.
/// Returns the ids that were deleted and those that were not found.
pub fn delete_address(
    storage: &mut SecureStorage,
    seed_ids: &[String],
) -> (r: Result<(Vec<String>, Vec<String>), NodeError>)
    ensures
        r is Err ==> final(storage).identities_bytes() == old(storage).identities_bytes(),
        seed_ids@.len() > 0 ==> (old(storage).identities() matches Ok(m) && identities_json_fits(
            deletion(m, seed_ids@.map_values(|s: String| s@)).0,
        ) ==> r is Ok),
        final(storage).keyed() == old(storage).keyed(),
        final(storage).packets() == old(storage).packets(),
        seed_ids@.len() == 0 ==> r == Err::<(Vec<String>, Vec<String>), _>(NodeError::InvalidArgument)
            && final(storage).identities() == old(storage).identities(),
        seed_ids@.len() > 0 ==> match old(storage).identities() {
            Ok(m) => match r {
                Ok((deleted, not_found)) => {
                    let d = deletion(m, seed_ids@.map_values(|s: String| s@));
                    &&& final(storage).identities() == Ok::<_, StorageError>(d.0)
                    &&& deleted@.map_values(|s: String| s@) == d.1
                    &&& not_found@.map_values(|s: String| s@) == d.2
                },
                Err(e) => final(storage).identities() == old(storage).identities()
                    && storage_write_failure(e),
            },
            Err(e) => r == Err::<(Vec<String>, Vec<String>), _>(NodeError::Storage(e)) && final(storage).identities() == old(storage).identities(),
        },
{
    if seed_ids.len() == 0 {
        return Err(NodeError::InvalidArgument);
    }
    match storage.delete_identities(seed_ids) {
        Ok(lists) => Ok(lists),
        Err(e) => Err(NodeError::Storage(e)),
    }
}

/// Reads a packet given as hexadecimal text.
pub fn decode_packet_hex(text: &str) -> (r: Result<MetaMeshPacket, NodeError>)
    ensures
        text@.len() == 0 ==> r == Err::<MetaMeshPacket, _>(NodeError::InvalidArgument),
        text@.len() > 0 ==> match hex_bytes(text@) {
            None => r == Err::<MetaMeshPacket, _>(NodeError::InvalidHex),
            Some(b) => match decode_spec(b) {
                Ok(p) => r matches Ok(q) && q@ == p,
                Err(e) => r == Err::<MetaMeshPacket, _>(NodeError::Malformed(e)),
            },
        },
{
    if text.is_empty() {
        return Err(NodeError::InvalidArgument);
    }
    let bytes = match hex_decode(text) {
        Some(b) => b,
        None => {
            return Err(NodeError::InvalidHex);
        },
    };
    match MetaMeshPacket::decode(bytes.as_slice()) {
        Ok(p) => Ok(p),
        Err(e) => Err(NodeError::Malformed(e)),
    }
}


/// The version byte of packets this node builds.
pub const PROTOCOL_VERSION: u8 = 1;

/// The TTL of a ping packet, which is also its retry budget.
pub const PING_TTL: u8 = 5;

/// A 16-byte seed field: the first sixteen bytes of `s`, zero-padded.
pub open spec fn seed_field(s: Seq<u8>) -> Seq<u8> {
    Seq::new(16, |i: int| if i < s.len() { s[i] } else { 0u8 })
}

/// The packet a node builds to send from a seed id: no payload, broadcast
/// destination, the given type, flags, TTL and nonce.
pub open spec fn built_packet(
    seed_id: Seq<char>,
    t: PacketType,
    flags: u16,
    ttl: u8,
    nonce: Seq<u8>,
) -> PacketModel {
    PacketModel {
        magic: MAGIC_HEADER@,
        packet_type: t,
        version: PROTOCOL_VERSION,
        ttl,
        flags,
        from_seed: seed_field(encode_utf8(seed_id)),
        to_seed: Seq::new(16, |i: int| 0u8),
        nonce,
        payload_len: 0,
        payload: Seq::empty(),
    }
}

/// The id of a packet: the first sixteen hex digits of the SHA-256 of its bytes.
pub open spec fn packet_id_text(bytes: Seq<u8>) -> Seq<char> {
    hex_text(sha256_of(bytes).subrange(0, 8))
}

/// The queue entry of a packet sent at `now`: no attempt counted yet, as many
/// retries as its TTL, not acknowledged.
pub open spec fn queued_record(bytes: Seq<u8>, t: PacketType, ttl: u8, now: u64) -> PacketRecord {
    PacketRecord {
        packet_id: packet_id_text(bytes),
        packet_bytes: bytes,
        packet_type: packet_type_label(t),
        created_at: now,
        retry_count: 0,
        last_retry: now,
        max_retries: ttl as u32,
        ack_received: false,
    }
}

/// What a built and queued packet gave.
#[derive(Debug, Clone)]
pub struct QueuedPacketInfo {
    pub packet_id: String,
    pub packet_bytes: Vec<u8>,
    pub packet_hex: String,
    /// One result per transport for the immediate dispatch.
    pub results: Vec<DispatchResult>,
}

/// What building and queueing a packet does, as the stores read before and
/// after, for the result `r`.
pub open spec fn queue_outcome(
    ids: Result<Map<Seq<char>, IdentityRecord>, StorageError>,
    before: Result<Map<Seq<char>, PacketRecord>, StorageError>,
    after: Result<Map<Seq<char>, PacketRecord>, StorageError>,
    seed_id: Seq<char>,
    t: PacketType,
    flags: u16,
    ttl: u8,
    nonce: Seq<u8>,
    now: u64,
    r: Result<QueuedPacketInfo, NodeError>,
) -> bool {
    if seed_id.len() == 0 {
        r == Err::<QueuedPacketInfo, _>(NodeError::InvalidArgument) && after == before
    } else {
        match ids {
            Err(e) => r == Err::<QueuedPacketInfo, _>(NodeError::Storage(e)) && after == before,
            Ok(m) => if !m.contains_key(seed_id) {
                r == Err::<QueuedPacketInfo, _>(NodeError::NotFound) && after == before
            } else {
                let p = built_packet(seed_id, t, flags, ttl, nonce);
                let bytes = encode_spec(p);
                match before {
                    Err(e) => r == Err::<QueuedPacketInfo, _>(NodeError::Storage(e)) && after == before,
                    Ok(pm) => (packets_json_fits(
                        pm.insert(packet_id_text(bytes), queued_record(bytes, t, ttl, now)),
                    ) ==> r is Ok) && match r {
                        Ok(info) => {
                            &&& decode_spec(bytes) == Ok::<PacketModel, PacketError>(p)
                            &&& info.packet_bytes@ == bytes
                            &&& info.packet_hex@ == hex_text(bytes)
                            &&& info.packet_id@ == packet_id_text(bytes)
                            &&& after == Ok::<_, StorageError>(
                                pm.insert(info.packet_id@, queued_record(bytes, t, ttl, now)),
                            )
                        },
                        Err(e) => after == before && storage_write_failure(e),
                    },
                }
            },
        }
    }
}

/// Builds a packet from a stored identity (broadcast destination, no payload),
/// queues it for store-and-forward delivery with as many retries as its TTL,
/// and hands it to every transport at once.
pub fn build_and_queue_packet(
    storage: &mut SecureStorage,
    monitor: &mut TransportMonitor,
    seed_id: &str,
    packet_type: PacketType,
    flags: PacketFlags,
    ttl: u8,
    nonce: [u8; 8],
    now: u64,
) -> (r: Result<QueuedPacketInfo, NodeError>)
    ensures
        r is Err ==> final(storage).packets_bytes() == old(storage).packets_bytes(),
        final(storage).keyed() == old(storage).keyed(),
        final(storage).identities() == old(storage).identities(),
        final(monitor).enabled_count() == old(monitor).enabled_count(),
        queue_outcome(
            old(storage).identities(),
            old(storage).packets(),
            final(storage).packets(),
            seed_id@,
            packet_type,
            flags.spec_bits(),
            ttl,
            nonce@,
            now,
            r,
        ),
        r matches Ok(info) ==> info.results@.len() == 1 && (info.results@[0].outcome is Sent
            <==> old(monitor).enabled_count() == 1),
{
    if seed_id.is_empty() {
        return Err(NodeError::InvalidArgument);
    }
    match storage.get_identity(seed_id) {
        Ok(Some(_)) => {},
        Ok(None) => {
            return Err(NodeError::NotFound);
        },
        Err(e) => {
            return Err(NodeError::Storage(e));
        },
    }
    let seed_bytes = seed_id.as_bytes();
    let mut from_seed = [0u8; 16];
    let mut i: usize = 0;
    while i < 16 && i < seed_bytes.len()
        invariant
            i <= 16,
            i <= seed_bytes@.len(),
            seed_bytes@ == encode_utf8(seed_id@),
            from_seed@.len() == 16,
            forall|j: int| 0 <= j < i ==> from_seed@[j] == seed_bytes@[j],
            forall|j: int| i <= j < 16 ==> from_seed@[j] == 0u8,
        decreases 16 - i,
    {
        from_seed[i] = seed_bytes[i];
        i = i + 1;
    }
    let packet = MetaMeshPacket {
        magic: MAGIC_HEADER,
        header: PacketHeader {
            packet_type,
            version: PROTOCOL_VERSION,
            ttl,
            flags,
            from_seed,
            to_seed: [0u8; 16],
            nonce,
            payload_len: 0,
        },
        payload: Vec::new(),
    };
    let ghost model = built_packet(seed_id@, packet_type, flags.spec_bits(), ttl, nonce@);
    proof {
        assert(from_seed@ =~= seed_field(encode_utf8(seed_id@)));
        assert(packet.header.to_seed@ =~= Seq::new(16, |i: int| 0u8));
        assert(packet@.payload =~= Seq::<crate::packet::TlvModel>::empty());
        assert(MAGIC_HEADER@ =~= seq![0x4Du8, 0x4Du8]);
        assert(packet@ == model);
        assert(tlvs_bytes(Seq::<crate::packet::TlvModel>::empty()) =~= Seq::<u8>::empty());
        assert(packet_wf(model));
        lemma_decode_encode(model);
    }
    let packet_bytes = packet.encode();
    let packet_hex = hex_encode(packet_bytes.as_slice());
    let digest = sha256_hash(packet_bytes.as_slice());
    let packet_id = hex_encode(slice_subrange(digest.as_slice(), 0, 8));
    let queued = QueuedPacket {
        packet_id: packet_id.clone(),
        packet_bytes: crate::packet::copy_range(packet_bytes.as_slice(), 0, packet_bytes.len()),
        packet_type: String::from_str(packet_type.name()),
        created_at: now,
        retry_count: 0,
        last_retry: now,
        max_retries: ttl as u32,
        ack_received: false,
    };
    proof {
        assert(queued.packet_bytes@ =~= packet_bytes@);
        assert(queued@ == queued_record(packet_bytes@, packet_type, ttl, now));
    }
    match storage.queue_packet(queued) {
        Ok(()) => {},
        Err(e) => {
            return Err(NodeError::Storage(e));
        },
    }
    let results = monitor.send_to_all_transports(packet_bytes.as_slice());
    Ok(QueuedPacketInfo { packet_id, packet_bytes, packet_hex, results })
}

/// Builds, queues and dispatches a ping from a stored identity: a broadcast
/// `Ping` of version 1 with TTL 5, so five retries, and the given nonce.
pub fn ping_check(
    storage: &mut SecureStorage,
    monitor: &mut TransportMonitor,
    seed_id: &str,
    nonce: [u8; 8],
    now: u64,
) -> (r: Result<QueuedPacketInfo, NodeError>)
    ensures
        r is Err ==> final(storage).packets_bytes() == old(storage).packets_bytes(),
        final(storage).keyed() == old(storage).keyed(),
        final(storage).identities() == old(storage).identities(),
        final(monitor).enabled_count() == old(monitor).enabled_count(),
        queue_outcome(
            old(storage).identities(),
            old(storage).packets(),
            final(storage).packets(),
            seed_id@,
            PacketType::Ping,
            PacketFlags::BROADCAST,
            PING_TTL,
            nonce@,
            now,
            r,
        ),
        r matches Ok(info) ==> info.results@.len() == 1 && (info.results@[0].outcome is Sent
            <==> old(monitor).enabled_count() == 1),
{
    build_and_queue_packet(
        storage,
        monitor,
        seed_id,
        PacketType::Ping,
        PacketFlags::from_bits_retain(PacketFlags::BROADCAST),
        PING_TTL,
        nonce,
        now,
    )
}


/// The text of each string.
pub open spec fn string_views(v: Seq<String>) -> Seq<Seq<char>> {
    v.map_values(|s: String| s@)
}

/// The queue after one send attempt at `now` of every packet that is due.
pub open spec fn after_retries(
    m: Map<Seq<char>, PacketRecord>,
    now: u64,
) -> Map<Seq<char>, PacketRecord> {
    Map::new(
        |k: Seq<char>| m.contains_key(k),
        |k: Seq<char>| if is_due(m[k], now) { retried(m[k], now) } else { m[k] },
    )
}

/// The queue after one send attempt at `now` of every due packet whose id is
/// in `ks`.
pub open spec fn retried_keys(
    m: Map<Seq<char>, PacketRecord>,
    ks: Set<Seq<char>>,
    now: u64,
) -> Map<Seq<char>, PacketRecord> {
    Map::new(
        |k: Seq<char>| m.contains_key(k),
        |k: Seq<char>| if ks.contains(k) && is_due(m[k], now) { retried(m[k], now) } else { m[k] },
    )
}

/// The ids of the first `i` packets of `pv`.
pub open spec fn prefix_ids(pv: Seq<PacketRecord>, i: int) -> Set<Seq<char>> {
    Set::new(|k: Seq<char>| has_key(pv.subrange(0, i), |v: PacketRecord| v.packet_id, k))
}

/// The queue after the attempts for the first `i` packets of `pv`.
pub open spec fn partly_retried(
    m: Map<Seq<char>, PacketRecord>,
    pv: Seq<PacketRecord>,
    i: int,
    now: u64,
) -> Map<Seq<char>, PacketRecord> {
    retried_keys(m, prefix_ids(pv, i), now)
}

/// The ids of any prefix of the pending packets are ids of the queue.
proof fn lemma_prefix_ids_in(m: Map<Seq<char>, PacketRecord>, pv: Seq<PacketRecord>, i: int)
    requires
        keyed_map(pv, |v: PacketRecord| v.packet_id) == pending(m),
        0 <= i <= pv.len(),
    ensures
        prefix_ids(pv, i).subset_of(m.dom()),
{
    let key = |v: PacketRecord| v.packet_id;
    assert forall|k: Seq<char>| prefix_ids(pv, i).contains(k) implies m.dom().contains(k) by {
        let j = choose|j: int| 0 <= j < i && key(#[trigger] pv.subrange(0, i)[j]) == k;
        assert(pv.subrange(0, i)[j] == pv[j]);
        assert(has_key(pv, key, k));
        assert(keyed_map(pv, key).contains_key(k));
    }
}

/// The store reads as `m` after the attempts at `now` of some of its packets.
pub open spec fn left_after_attempts(
    m: Map<Seq<char>, PacketRecord>,
    after: Result<Map<Seq<char>, PacketRecord>, StorageError>,
    now: u64,
) -> bool {
    exists|ks: Set<Seq<char>>|
        ks.subset_of(m.dom()) && after == Ok::<_, StorageError>(#[trigger] retried_keys(m, ks, now))
}

/// Every store a retry sweep of `m` at `now` can write, whatever the order of
/// its attempts, has JSON text within AES-GCM's plaintext limit.
pub open spec fn retry_writes_fit(m: Map<Seq<char>, PacketRecord>, now: u64) -> bool {
    &&& forall|ks: Set<Seq<char>>| ks.subset_of(m.dom()) ==> packets_json_fits(
        #[trigger] retried_keys(m, ks, now),
    )
    &&& packets_json_fits(swept(after_retries(m, now), now))
}

/// What a retry sweep did.
#[derive(Debug, Clone)]
pub struct RetryReport {
    /// Ids of the packets sent again, in the order they were sent.
    pub retried: Vec<String>,
    /// The transport results of those sends, one per packet sent (there is one
    /// transport), in the same order.
    pub results: Vec<DispatchResult>,
    /// How many packets the eviction that follows removed.
    pub removed: u32,
}

/// The periodic sweep: every unacknowledged packet whose retry interval has
/// passed is handed to the transports again and has the attempt counted at
/// `now`; a failed send does not stop the sweep. Then every expired packet is
/// evicted. Storage errors stop the sweep and are returned, with the attempts
/// already counted kept; on a readable store they come only from a write-back
/// whose JSON text exceeds AES-GCM's plaintext limit.
pub fn retry_pending_packets(
    storage: &mut SecureStorage,
    monitor: &mut TransportMonitor,
    now: u64,
) -> (r: Result<RetryReport, NodeError>)
    ensures
        final(storage).keyed() == old(storage).keyed(),
        final(storage).identities() == old(storage).identities(),
        final(monitor).enabled_count() == old(monitor).enabled_count(),
        match old(storage).packets() {
            Ok(m) => {
                &&& retry_writes_fit(m, now) ==> r is Ok
                &&& r matches Err(e) ==> storage_write_failure(e) && left_after_attempts(
                    m,
                    final(storage).packets(),
                    now,
                )
                &&& r matches Ok(report) ==> {
                let retried_map = after_retries(m, now);
                &&& final(storage).packets() == Ok::<_, StorageError>(swept(retried_map, now))
                &&& forall|k: Seq<char>| #[trigger] string_views(report.retried@).contains(k)
                    <==> (m.contains_key(k) && is_due(m[k], now))
                &&& report.results@.len() == report.retried@.len()
                &&& forall|j: int| 0 <= j < report.results@.len() ==> ((#[trigger] report.results@[j]).outcome is Sent
                    <==> old(monitor).enabled_count() == 1)
                &&& retried_map.dom().finite()
                &&& report.removed == if retried_map.len() - swept(retried_map, now).len() <= u32::MAX {
                    retried_map.len() - swept(retried_map, now).len()
                } else {
                    u32::MAX as int
                }
                }
            },
            Err(e) => r == Err::<RetryReport, _>(NodeError::Storage(e))
                && final(storage).packets() == old(storage).packets()
                && final(storage).packets_bytes() == old(storage).packets_bytes(),
        },
{
    let queue = match storage.get_pending_packets() {
        Ok(v) => v,
        Err(e) => {
            return Err(NodeError::Storage(e));
        },
    };
    let ghost m = storage.packets()->Ok_0;
    let ghost key = |v: PacketRecord| v.packet_id;
    let ghost pv = queue@.map_values(|x: QueuedPacket| x@);
    let mut retried_ids: Vec<String> = Vec::new();
    let mut results: Vec<DispatchResult> = Vec::new();
    let mut i: usize = 0;
    assert(storage.packets() == Ok::<_, StorageError>(partly_retried(m, pv, 0, now))) by {
        assert(partly_retried(m, pv, 0, now) =~= m);
    }
    while i < queue.len()
        invariant
            i <= queue@.len(),
            pv == queue@.map_values(|x: QueuedPacket| x@),
            key == (|v: PacketRecord| v.packet_id),
            distinct_keys(pv, key),
            keyed_map(pv, key) == pending(m),
            storage.keyed() == old(storage).keyed(),
            storage.identities() == old(storage).identities(),
            old(storage).packets() == Ok::<_, StorageError>(m),
            monitor.enabled_count() == old(monitor).enabled_count(),
            storage.packets() == Ok::<_, StorageError>(partly_retried(m, pv, i as int, now)),
            results@.len() == retried_ids@.len(),
            forall|j: int| 0 <= j < results@.len() ==> ((#[trigger] results@[j]).outcome is Sent
                <==> old(monitor).enabled_count() == 1),
            forall|k: Seq<char>| #[trigger] string_views(retried_ids@).contains(k)
                <==> (has_key(pv.subrange(0, i as int), key, k) && is_due(m[k], now)),
        decreases queue@.len() - i,
    {
        let p = &queue[i];
        let ghost k_i = p.packet_id@;
        proof {
            assert(pv[i as int] == p@);
            lemma_keyed_map_value(pv, key, i as int);
            assert(m.contains_key(k_i) && m[k_i] == p@);
            assert(!has_key(pv.subrange(0, i as int), key, k_i)) by {
                if has_key(pv.subrange(0, i as int), key, k_i) {
                    let j = choose|j: int| 0 <= j < i && key(#[trigger] pv.subrange(0, i as int)[j]) == k_i;
                    assert(pv.subrange(0, i as int)[j] == pv[j]);
                }
            }
            assert forall|k: Seq<char>| k != k_i implies has_key(pv.subrange(0, i + 1), key, k)
                == has_key(pv.subrange(0, i as int), key, k) by {
                if has_key(pv.subrange(0, i + 1), key, k) {
                    let j = choose|j: int| 0 <= j < i + 1 && key(#[trigger] pv.subrange(0, i + 1)[j]) == k;
                    assert(pv.subrange(0, i + 1)[j] == pv[j]);
                    assert(pv.subrange(0, i as int)[j] == pv[j]);
                }
                if has_key(pv.subrange(0, i as int), key, k) {
                    let j = choose|j: int| 0 <= j < i && key(#[trigger] pv.subrange(0, i as int)[j]) == k;
                    assert(pv.subrange(0, i + 1)[j] == pv[j]);
                }
            }
            assert(pv.subrange(0, i + 1)[i as int] == pv[i as int]);
            assert(has_key(pv.subrange(0, i + 1), key, k_i));
        }
        let due = !p.ack_received && p.last_retry <= now && now - p.last_retry >= RETRY_INTERVAL;
        assert(due == is_due(m[k_i], now));
        let ghost ids_before = string_views(retried_ids@);
        if due {
            let mut sent = monitor.send_to_all_transports(p.packet_bytes.as_slice());
            results.append(&mut sent);
            proof {
                lemma_prefix_ids_in(m, pv, i as int);
                lemma_prefix_ids_in(m, pv, i + 1);
                assert(partly_retried(m, pv, i + 1, now) =~= with_retry(
                    partly_retried(m, pv, i as int, now),
                    k_i,
                    now,
                ));
            }
            match storage.increment_retry_count_at(p.packet_id.as_str(), now) {
                Ok(()) => {},
                Err(e) => {
                    proof {
                        assert(storage.packets() == Ok::<_, StorageError>(
                            retried_keys(m, prefix_ids(pv, i as int), now),
                        ));
                        assert(left_after_attempts(m, storage.packets(), now));
                        if retry_writes_fit(m, now) {
                            assert(packets_json_fits(retried_keys(m, prefix_ids(pv, i + 1), now)));
                            assert(false);
                        }
                    }
                    return Err(NodeError::Storage(e));
                },
            }
            retried_ids.push(p.packet_id.clone());
            proof {
                assert(string_views(retried_ids@) =~= ids_before.push(k_i));
                assert(partly_retried(m, pv, i + 1, now) =~= partly_retried(m, pv, i as int, now).insert(
                    k_i,
                    retried(m[k_i], now),
                ));
                assert forall|k: Seq<char>| #[trigger] string_views(retried_ids@).contains(k)
                    <==> (has_key(pv.subrange(0, i + 1), key, k) && is_due(m[k], now)) by {
                    if k != k_i {
                        if ids_before.push(k_i).contains(k) {
                            let j = choose|j: int| 0 <= j < ids_before.push(k_i).len() && ids_before.push(k_i)[j] == k;
                            assert(ids_before[j] == k);
                        }
                        if ids_before.contains(k) {
                            let j = choose|j: int| 0 <= j < ids_before.len() && ids_before[j] == k;
                            assert(ids_before.push(k_i)[j] == k);
                        }
                    } else {
                        assert(ids_before.push(k_i)[ids_before.len() as int] == k_i);
                    }
                }
            }
        } else {
            proof {
                assert(partly_retried(m, pv, i + 1, now) =~= partly_retried(m, pv, i as int, now));
                assert forall|k: Seq<char>| #[trigger] string_views(retried_ids@).contains(k)
                    <==> (has_key(pv.subrange(0, i + 1), key, k) && is_due(m[k], now)) by {
                    if k == k_i {
                        if ids_before.contains(k) {
                            assert(has_key(pv.subrange(0, i as int), key, k));
                        }
                    }
                }
            }
        }
        i = i + 1;
    }
    proof {
        assert(pv.subrange(0, i as int) =~= pv);
        assert forall|k: Seq<char>| #[trigger] m.contains_key(k) implies (has_key(pv, key, k) && is_due(m[k], now)) == is_due(m[k], now) by {
            if is_due(m[k], now) {
                assert(pending(m).contains_key(k));
            }
        }
        assert(partly_retried(m, pv, i as int, now) =~= after_retries(m, now));
        assert forall|k: Seq<char>| #[trigger] string_views(retried_ids@).contains(k)
            <==> (m.contains_key(k) && is_due(m[k], now)) by {
            if has_key(pv, key, k) {
                assert(keyed_map(pv, key).contains_key(k));
            }
            if m.contains_key(k) && is_due(m[k], now) {
                assert(pending(m).contains_key(k));
            }
        }
    }
    proof {
        lemma_prefix_ids_in(m, pv, i as int);
    }
    let removed = match storage.remove_expired_packets_at(now) {
        Ok(n) => n,
        Err(e) => {
            proof {
                assert(storage.packets() == Ok::<_, StorageError>(
                    retried_keys(m, prefix_ids(pv, i as int), now),
                ));
                assert(left_after_attempts(m, storage.packets(), now));
            }
            return Err(NodeError::Storage(e));
        },
    };
    Ok(RetryReport { retried: retried_ids, results, removed })
}

} // verus!
