//! The packet wire format: a fixed 51-byte header (two magic bytes and 49
//! header bytes) followed by type-length-value payload records.
use vstd::prelude::*;

verus! {

/// Kind of a packet, carried in the first header byte.
#[derive(Debug, Clone, Copy, PartialEq, Eq, Structural)]
pub enum PacketType {
    Message,
    KeyRequest,
    KeyResponse,
    Ping,
    EmergencyBroadcast,
    RouteDiscovery,
    RouteResponse,
    Ack,
    Reserved1,
    Reserved2,
    Reserved3,
    Reserved4,
    Reserved5,
    Reserved6,
    Reserved7,
}

/// The wire byte of each packet type.
pub open spec fn type_byte(t: PacketType) -> u8 {
    match t {
        PacketType::Message => 0x01,
        PacketType::KeyRequest => 0x02,
        PacketType::KeyResponse => 0x03,
        PacketType::Ping => 0x04,
        PacketType::EmergencyBroadcast => 0x05,
        PacketType::RouteDiscovery => 0x06,
        PacketType::RouteResponse => 0x07,
        PacketType::Ack => 0x08,
        PacketType::Reserved1 => 0x09,
        PacketType::Reserved2 => 0x0A,
        PacketType::Reserved3 => 0x0B,
        PacketType::Reserved4 => 0x0C,
        PacketType::Reserved5 => 0x0D,
        PacketType::Reserved6 => 0x10,
        PacketType::Reserved7 => 0x11,
    }
}

/// The packet type that a wire byte names, if any.
pub open spec fn type_of_byte(b: u8) -> Option<PacketType> {
    if b == 0x01 { Some(PacketType::Message) }
    else if b == 0x02 { Some(PacketType::KeyRequest) }
    else if b == 0x03 { Some(PacketType::KeyResponse) }
    else if b == 0x04 { Some(PacketType::Ping) }
    else if b == 0x05 { Some(PacketType::EmergencyBroadcast) }
    else if b == 0x06 { Some(PacketType::RouteDiscovery) }
    else if b == 0x07 { Some(PacketType::RouteResponse) }
    else if b == 0x08 { Some(PacketType::Ack) }
    else if b == 0x09 { Some(PacketType::Reserved1) }
    else if b == 0x0A { Some(PacketType::Reserved2) }
    else if b == 0x0B { Some(PacketType::Reserved3) }
    else if b == 0x0C { Some(PacketType::Reserved4) }
    else if b == 0x0D { Some(PacketType::Reserved5) }
    else if b == 0x10 { Some(PacketType::Reserved6) }
    else if b == 0x11 { Some(PacketType::Reserved7) }
    else { None }
}

/// The display name of a packet type.
pub open spec fn packet_type_label(t: PacketType) -> Seq<char> {
    match t {
        PacketType::Message => "Message"@,
        PacketType::KeyRequest => "KeyRequest"@,
        PacketType::KeyResponse => "KeyResponse"@,
        PacketType::Ping => "Ping"@,
        PacketType::EmergencyBroadcast => "EmergencyBroadcast"@,
        PacketType::RouteDiscovery => "RouteDiscovery"@,
        PacketType::RouteResponse => "RouteResponse"@,
        PacketType::Ack => "Ack"@,
        PacketType::Reserved1 => "Reserved1"@,
        PacketType::Reserved2 => "Reserved2"@,
        PacketType::Reserved3 => "Reserved3"@,
        PacketType::Reserved4 => "Reserved4"@,
        PacketType::Reserved5 => "Reserved5"@,
        PacketType::Reserved6 => "Reserved6"@,
        PacketType::Reserved7 => "Reserved7"@,
    }
}

impl PacketType {
    /// The display name of this type.
    pub fn name(self) -> (r: &'static str)
        ensures
            r@ == packet_type_label(self),
    {
        match self {
            PacketType::Message => "Message",
            PacketType::KeyRequest => "KeyRequest",
            PacketType::KeyResponse => "KeyResponse",
            PacketType::Ping => "Ping",
            PacketType::EmergencyBroadcast => "EmergencyBroadcast",
            PacketType::RouteDiscovery => "RouteDiscovery",
            PacketType::RouteResponse => "RouteResponse",
            PacketType::Ack => "Ack",
            PacketType::Reserved1 => "Reserved1",
            PacketType::Reserved2 => "Reserved2",
            PacketType::Reserved3 => "Reserved3",
            PacketType::Reserved4 => "Reserved4",
            PacketType::Reserved5 => "Reserved5",
            PacketType::Reserved6 => "Reserved6",
            PacketType::Reserved7 => "Reserved7",
        }
    }

    /// The byte that stands for this type on the wire.
    pub fn to_byte(self) -> (r: u8)
        ensures
            r == type_byte(self),
            type_of_byte(r) == Some(self),
    {
        match self {
            PacketType::Message => 0x01,
            PacketType::KeyRequest => 0x02,
            PacketType::KeyResponse => 0x03,
            PacketType::Ping => 0x04,
            PacketType::EmergencyBroadcast => 0x05,
            PacketType::RouteDiscovery => 0x06,
            PacketType::RouteResponse => 0x07,
            PacketType::Ack => 0x08,
            PacketType::Reserved1 => 0x09,
            PacketType::Reserved2 => 0x0A,
            PacketType::Reserved3 => 0x0B,
            PacketType::Reserved4 => 0x0C,
            PacketType::Reserved5 => 0x0D,
            PacketType::Reserved6 => 0x10,
            PacketType::Reserved7 => 0x11,
        }
    }

    /// The type that a wire byte names; `None` for a byte that names none.
    pub fn from_byte(b: u8) -> (r: Option<PacketType>)
        ensures
            r == type_of_byte(b),
            r matches Some(t) ==> type_byte(t) == b,
    {
        if b == 0x01 { Some(PacketType::Message) }
        else if b == 0x02 { Some(PacketType::KeyRequest) }
        else if b == 0x03 { Some(PacketType::KeyResponse) }
        else if b == 0x04 { Some(PacketType::Ping) }
        else if b == 0x05 { Some(PacketType::EmergencyBroadcast) }
        else if b == 0x06 { Some(PacketType::RouteDiscovery) }
        else if b == 0x07 { Some(PacketType::RouteResponse) }
        else if b == 0x08 { Some(PacketType::Ack) }
        else if b == 0x09 { Some(PacketType::Reserved1) }
        else if b == 0x0A { Some(PacketType::Reserved2) }
        else if b == 0x0B { Some(PacketType::Reserved3) }
        else if b == 0x0C { Some(PacketType::Reserved4) }
        else if b == 0x0D { Some(PacketType::Reserved5) }
        else if b == 0x10 { Some(PacketType::Reserved6) }
        else if b == 0x11 { Some(PacketType::Reserved7) }
        else { None }
    }
}


/// The two magic bytes that open every packet: `"MM"`.
pub const MAGIC_HEADER: [u8; 2] = [0x4D, 0x4D];

/// Payload record type: a signature.
pub const TLV_SIG: u8 = 0x01;

/// Payload record type: a public key.
pub const TLV_PUBKEY: u8 = 0x02;

/// Payload record type: opaque data.
pub const TLV_DATA: u8 = 0x03;

/// Payload record type: route information.
pub const TLV_ROUTE: u8 = 0x04;

/// Length of the magic tag plus the fixed header on the wire.
pub const HEADER_LEN: usize = 51;

/// A set of packet flags: each bit is tested on its own and any number may be
/// set. The associated constants name the single-bit flags.
#[derive(Debug, Clone, Copy, PartialEq, Eq, Structural)]
pub struct PacketFlags {
    pub bits: u16,
}

impl PacketFlags {
    pub const ENCRYPTED: u16 = 0x0001;
    pub const SIGNED: u16 = 0x0002;
    pub const BROADCAST: u16 = 0x0004;
    pub const COMPRESSED: u16 = 0x0008;
    pub const PRIORITY: u16 = 0x0010;
    pub const RESERVED1: u16 = 0x0020;
    pub const RESERVED2: u16 = 0x0040;
    pub const RESERVED3: u16 = 0x0080;
    pub const RESERVED4: u16 = 0x0100;
    pub const RESERVED5: u16 = 0x0200;

    pub open spec fn spec_bits(self) -> u16 {
        self.bits
    }

    /// The set with no flag.
    pub fn empty() -> (r: PacketFlags)
        ensures
            r.spec_bits() == 0,
    {
        PacketFlags { bits: 0 }
    }

    /// The raw bits of the set.
    pub fn bits(self) -> (r: u16)
        ensures
            r == self.spec_bits(),
    {
        self.bits
    }

    /// A set holding exactly the given bits, unknown bits included.
    pub fn from_bits_retain(bits: u16) -> (r: PacketFlags)
        ensures
            r.spec_bits() == bits,
    {
        PacketFlags { bits }
    }

    /// Whether every bit of `flags` is set.
    pub fn contains(self, flags: u16) -> (r: bool)
        ensures
            r == (self.spec_bits() & flags == flags),
    {
        self.bits & flags == flags
    }

    /// The set with the bits of `flags` added.
    pub fn with(self, flags: u16) -> (r: PacketFlags)
        ensures
            r.spec_bits() == self.spec_bits() | flags,
    {
        PacketFlags { bits: self.bits | flags }
    }
}

/// The header fields that follow the magic tag.
#[derive(Debug, Clone, Copy, PartialEq, Eq)]
pub struct PacketHeader {
    pub packet_type: PacketType,
    pub version: u8,
    pub ttl: u8,
    pub flags: PacketFlags,
    pub from_seed: [u8; 16],
    /// All zero for a broadcast packet.
    pub to_seed: [u8; 16],
    /// Anti-replay value.
    pub nonce: [u8; 8],
    pub payload_len: u32,
}

/// One payload record.
#[derive(Debug, Clone, PartialEq, Eq)]
pub struct TLV {
    pub type_id: u8,
    pub length: u16,
    pub value: Vec<u8>,
}

/// A packet as held in memory.
#[derive(Debug, Clone, PartialEq, Eq)]
pub struct MetaMeshPacket {
    pub magic: [u8; 2],
    pub header: PacketHeader,
    pub payload: Vec<TLV>,
}

/// Mathematical model of a payload record.
pub struct TlvModel {
    pub type_id: u8,
    pub length: u16,
    pub value: Seq<u8>,
}

/// Mathematical model of a packet: every field as a plain value.
pub struct PacketModel {
    pub magic: Seq<u8>,
    pub packet_type: PacketType,
    pub version: u8,
    pub ttl: u8,
    pub flags: u16,
    pub from_seed: Seq<u8>,
    pub to_seed: Seq<u8>,
    pub nonce: Seq<u8>,
    pub payload_len: u32,
    pub payload: Seq<TlvModel>,
}

impl View for TLV {
    type V = TlvModel;

    open spec fn view(&self) -> TlvModel {
        TlvModel { type_id: self.type_id, length: self.length, value: self.value@ }
    }
}

impl View for MetaMeshPacket {
    type V = PacketModel;

    open spec fn view(&self) -> PacketModel {
        PacketModel {
            magic: self.magic@,
            packet_type: self.header.packet_type,
            version: self.header.version,
            ttl: self.header.ttl,
            flags: self.header.flags.spec_bits(),
            from_seed: self.header.from_seed@,
            to_seed: self.header.to_seed@,
            nonce: self.header.nonce@,
            payload_len: self.header.payload_len,
            payload: self.payload@.map_values(|t: TLV| t@),
        }
    }
}

/// Why a byte string is not a packet.
#[derive(Debug, Clone, Copy, PartialEq, Eq, Structural)]
pub enum PacketError {
    /// Shorter than the magic tag and fixed header.
    Truncated,
    /// The first two bytes are not the magic tag.
    BadMagic,
    /// The type byte names no packet type.
    UnknownPacketType,
    /// Fewer than three bytes remain where a record header should start.
    TruncatedTlv,
    /// A record declares more value bytes than remain.
    TlvOverflow,
    /// The header's payload length differs from the size of the records that
    /// follow it: the field is checked, not advisory.
    PayloadLengthMismatch,
}

/// Big-endian bytes of a 16-bit value.
pub open spec fn u16_be(x: u16) -> Seq<u8> {
    seq![(x / 256) as u8, (x % 256) as u8]
}

/// Big-endian bytes of a 32-bit value.
pub open spec fn u32_be(x: u32) -> Seq<u8> {
    seq![(x / 0x100_0000) as u8, ((x / 0x1_0000) % 256) as u8, ((x / 256) % 256) as u8, (x % 256) as u8]
}

/// The 16-bit value of two big-endian bytes.
pub open spec fn be_u16(hi: u8, lo: u8) -> u16 {
    (hi * 256 + lo) as u16
}

/// The 32-bit value of four big-endian bytes.
pub open spec fn be_u32(b0: u8, b1: u8, b2: u8, b3: u8) -> u32 {
    (b0 * 0x100_0000 + b1 * 0x1_0000 + b2 * 256 + b3) as u32
}

/// Bytes of one payload record: type, big-endian length, value.
pub open spec fn tlv_bytes(t: TlvModel) -> Seq<u8> {
    seq![t.type_id] + u16_be(t.length) + t.value
}

/// Bytes of a sequence of payload records, in order.
pub open spec fn tlvs_bytes(ts: Seq<TlvModel>) -> Seq<u8>
    decreases ts.len(),
{
    if ts.len() == 0 {
        Seq::empty()
    } else {
        tlv_bytes(ts[0]) + tlvs_bytes(ts.drop_first())
    }
}

/// Bytes of the magic tag and fixed header.
pub open spec fn header_bytes(p: PacketModel) -> Seq<u8> {
    p.magic + seq![type_byte(p.packet_type), p.version, p.ttl] + u16_be(p.flags) + p.from_seed
        + p.to_seed + p.nonce + u32_be(p.payload_len)
}

/// The wire encoding of a packet.
pub open spec fn encode_spec(p: PacketModel) -> Seq<u8> {
    header_bytes(p) + tlvs_bytes(p.payload)
}

/// Payload records read from `s` until it is used up.
pub open spec fn parse_tlvs(s: Seq<u8>) -> Result<Seq<TlvModel>, PacketError>
    decreases s.len(),
{
    if s.len() == 0 {
        Ok(Seq::empty())
    } else if s.len() < 3 {
        Err(PacketError::TruncatedTlv)
    } else {
        let len = be_u16(s[1], s[2]);
        if s.len() < 3 + len {
            Err(PacketError::TlvOverflow)
        } else {
            match parse_tlvs(s.subrange(3 + len, s.len() as int)) {
                Ok(rest) => Ok(
                    seq![TlvModel { type_id: s[0], length: len, value: s.subrange(3, 3 + len) }]
                        + rest,
                ),
                Err(e) => Err(e),
            }
        }
    }
}

/// The packet that a byte string encodes, or why there is none.
pub open spec fn decode_spec(b: Seq<u8>) -> Result<PacketModel, PacketError> {
    if b.len() < 51 {
        Err(PacketError::Truncated)
    } else if b[0] != 0x4D || b[1] != 0x4D {
        Err(PacketError::BadMagic)
    } else {
        match type_of_byte(b[2]) {
            None => Err(PacketError::UnknownPacketType),
            Some(t) => match parse_tlvs(b.subrange(51, b.len() as int)) {
                Err(e) => Err(e),
                Ok(ts) => {
                    let declared = be_u32(b[47], b[48], b[49], b[50]);
                    if declared != b.len() - 51 {
                        Err(PacketError::PayloadLengthMismatch)
                    } else {
                        Ok(
                            PacketModel {
                                magic: b.subrange(0, 2),
                                packet_type: t,
                                version: b[3],
                                ttl: b[4],
                                flags: be_u16(b[5], b[6]),
                                from_seed: b.subrange(7, 23),
                                to_seed: b.subrange(23, 39),
                                nonce: b.subrange(39, 47),
                                payload_len: declared,
                                payload: ts,
                            },
                        )
                    }
                }
            },
        }
    }
}

/// A valid packet: the magic tag, fixed-size fields, each record's value as
/// long as its declared length, and a payload length equal to the records' size.
pub open spec fn packet_wf(p: PacketModel) -> bool {
    &&& p.magic == MAGIC_HEADER@
    &&& p.from_seed.len() == 16
    &&& p.to_seed.len() == 16
    &&& p.nonce.len() == 8
    &&& forall|i: int| 0 <= i < p.payload.len() ==> #[trigger] p.payload[i].value.len() == p.payload[i].length
    &&& p.payload_len == tlvs_bytes(p.payload).len()
}


/// The payload records, or the first error, with `acc` read before them.
pub open spec fn after_records(
    acc: Seq<TlvModel>,
    rest: Result<Seq<TlvModel>, PacketError>,
) -> Result<Seq<TlvModel>, PacketError> {
    match rest {
        Ok(ts) => Ok(acc + ts),
        Err(e) => Err(e),
    }
}

proof fn lemma_u16_round_trip(x: u16)
    ensures
        be_u16(u16_be(x)[0], u16_be(x)[1]) == x,
{
}

proof fn lemma_u32_round_trip(x: u32)
    ensures
        be_u32(u32_be(x)[0], u32_be(x)[1], u32_be(x)[2], u32_be(x)[3]) == x,
{
    assert((x / 0x100_0000) * 0x100_0000 + ((x / 0x1_0000) % 256) * 0x1_0000 + ((x / 256) % 256)
        * 256 + x % 256 == x) by (bit_vector);
}

proof fn lemma_tlvs_bytes_push(ts: Seq<TlvModel>, t: TlvModel)
    ensures
        tlvs_bytes(ts.push(t)) == tlvs_bytes(ts) + tlv_bytes(t),
    decreases ts.len(),
{
    if ts.len() == 0 {
        assert(ts.push(t).drop_first() =~= Seq::<TlvModel>::empty());
        assert(tlvs_bytes(Seq::<TlvModel>::empty()) == Seq::<u8>::empty());
        assert(tlvs_bytes(ts.push(t)) == tlv_bytes(t) + tlvs_bytes(ts.push(t).drop_first()));
        assert(tlvs_bytes(ts.push(t)) =~= tlvs_bytes(ts) + tlv_bytes(t));
    } else {
        lemma_tlvs_bytes_push(ts.drop_first(), t);
        assert(ts.push(t).drop_first() =~= ts.drop_first().push(t));
        assert(tlvs_bytes(ts.push(t)) =~= tlvs_bytes(ts) + tlv_bytes(t));
    }
}

proof fn lemma_parse_tlvs_bytes(ts: Seq<TlvModel>)
    requires
        forall|i: int| 0 <= i < ts.len() ==> #[trigger] ts[i].value.len() == ts[i].length,
    ensures
        parse_tlvs(tlvs_bytes(ts)) == Ok::<Seq<TlvModel>, PacketError>(ts),
    decreases ts.len(),
{
    if ts.len() == 0 {
        assert(tlvs_bytes(ts) == Seq::<u8>::empty());
        assert(ts =~= Seq::<TlvModel>::empty());
    } else {
        let t = ts[0];
        let rest = ts.drop_first();
        let s = tlvs_bytes(ts);
        assert forall|i: int| 0 <= i < rest.len() implies #[trigger] rest[i].value.len()
            == rest[i].length by {
            assert(rest[i] == ts[i + 1]);
        }
        lemma_parse_tlvs_bytes(rest);
        lemma_u16_round_trip(t.length);
        assert(t.value.len() == t.length);
        assert(s == tlv_bytes(t) + tlvs_bytes(rest));
        assert(s[0] == t.type_id);
        assert(s[1] == u16_be(t.length)[0]);
        assert(s[2] == u16_be(t.length)[1]);
        let len = be_u16(s[1], s[2]);
        assert(len == t.length);
        assert(s.subrange(3, 3 + len) =~= t.value);
        assert(s.len() >= 3 + len);
        assert(s.subrange(3 + len, s.len() as int) =~= tlvs_bytes(rest));
        assert(parse_tlvs(s.subrange(3 + len, s.len() as int)) == Ok::<Seq<TlvModel>, PacketError>(rest));
        assert(seq![TlvModel { type_id: s[0], length: len, value: s.subrange(3, 3 + len) }]
            + rest =~= ts);
    }
}

/// Decoding the encoding of a valid packet gives back the same packet, field
/// for field.
pub proof fn lemma_decode_encode(p: PacketModel)
    requires
        packet_wf(p),
    ensures
        decode_spec(encode_spec(p)) == Ok::<PacketModel, PacketError>(p),
{
    let b = encode_spec(p);
    let h = header_bytes(p);
    reveal_with_fuel(tlvs_bytes, 1);
    assert(MAGIC_HEADER@ =~= seq![0x4Du8, 0x4Du8]);
    assert(h.len() == 51);
    lemma_parse_tlvs_bytes(p.payload);
    lemma_u16_round_trip(p.flags);
    lemma_u32_round_trip(p.payload_len);
    assert(b.subrange(51, b.len() as int) =~= tlvs_bytes(p.payload));
    assert(b[0] == 0x4D && b[1] == 0x4D);
    assert(b[2] == type_byte(p.packet_type));
    assert(type_of_byte(type_byte(p.packet_type)) == Some(p.packet_type));
    assert(b[3] == p.version && b[4] == p.ttl);
    assert(b[5] == u16_be(p.flags)[0] && b[6] == u16_be(p.flags)[1]);
    assert(b[47] == u32_be(p.payload_len)[0] && b[48] == u32_be(p.payload_len)[1]);
    assert(b[49] == u32_be(p.payload_len)[2] && b[50] == u32_be(p.payload_len)[3]);
    assert(b.subrange(0, 2) =~= p.magic);
    assert(b.subrange(7, 23) =~= p.from_seed);
    assert(b.subrange(23, 39) =~= p.to_seed);
    assert(b.subrange(39, 47) =~= p.nonce);
}

/// Appends every byte of `src`.
fn push_bytes(out: &mut Vec<u8>, src: &[u8])
    ensures
        final(out)@ == old(out)@ + src@,
{
    let ghost start = out@;
    let mut i: usize = 0;
    while i < src.len()
        invariant
            i <= src@.len(),
            out@ == start + src@.subrange(0, i as int),
        decreases src@.len() - i,
    {
        out.push(src[i]);
        i = i + 1;
        assert(out@ =~= start + src@.subrange(0, i as int));
    }
    assert(src@.subrange(0, i as int) =~= src@);
}

fn push_u16(out: &mut Vec<u8>, x: u16)
    ensures
        final(out)@ == old(out)@ + u16_be(x),
{
    out.push((x / 256) as u8);
    out.push((x % 256) as u8);
    assert(out@ =~= old(out)@ + u16_be(x));
}

fn push_u32(out: &mut Vec<u8>, x: u32)
    ensures
        final(out)@ == old(out)@ + u32_be(x),
{
    out.push((x / 0x100_0000) as u8);
    out.push(((x / 0x1_0000) % 256) as u8);
    out.push(((x / 256) % 256) as u8);
    out.push((x % 256) as u8);
    assert(out@ =~= old(out)@ + u32_be(x));
}

/// The bytes `bytes[from..to]` as a new vector.
pub fn copy_range(bytes: &[u8], from: usize, to: usize) -> (r: Vec<u8>)
    requires
        from <= to <= bytes@.len(),
    ensures
        r@ == bytes@.subrange(from as int, to as int),
{
    let mut out: Vec<u8> = Vec::new();
    let mut i: usize = from;
    while i < to
        invariant
            from <= i <= to <= bytes@.len(),
            out@ == bytes@.subrange(from as int, i as int),
        decreases to - i,
    {
        out.push(bytes[i]);
        i = i + 1;
        assert(out@ =~= bytes@.subrange(from as int, i as int));
    }
    out
}

/// The `N` bytes starting at `at` as an array.
fn copy_array<const N: usize>(bytes: &[u8], at: usize) -> (r: [u8; N])
    requires
        at + N <= bytes@.len(),
    ensures
        r@ == bytes@.subrange(at as int, at + N),
{
    let total = bytes.len();
    let mut a: [u8; N] = [0u8; N];
    let mut i: usize = 0;
    while i < N
        invariant
            i <= N,
            total == bytes@.len(),
            at + N <= bytes@.len(),
            a@.len() == N,
            forall|j: int| 0 <= j < i ==> a@[j] == bytes@[at + j],
        decreases N - i,
    {
        a[i] = bytes[at + i];
        i = i + 1;
    }
    assert(a@ =~= bytes@.subrange(at as int, at + N));
    a
}

fn read_u16(bytes: &[u8], at: usize) -> (r: u16)
    requires
        at + 2 <= bytes@.len(),
    ensures
        r == be_u16(bytes@[at as int], bytes@[at + 1]),
{
    bytes[at] as u16 * 256 + bytes[at + 1] as u16
}

fn read_u32(bytes: &[u8], at: usize) -> (r: u32)
    requires
        at + 4 <= bytes@.len(),
    ensures
        r == be_u32(bytes@[at as int], bytes@[at + 1], bytes@[at + 2], bytes@[at + 3]),
{
    bytes[at] as u32 * 0x100_0000 + bytes[at + 1] as u32 * 0x1_0000 + bytes[at + 2] as u32 * 256
        + bytes[at + 3] as u32
}

impl MetaMeshPacket {
    /// The wire encoding: magic, header fields in order with big-endian
    /// integers, then each payload record.
    pub fn encode(&self) -> (r: Vec<u8>)
        ensures
            r@ == encode_spec(self@),
    {
        let mut out: Vec<u8> = Vec::new();
        push_bytes(&mut out, self.magic.as_slice());
        out.push(self.header.packet_type.to_byte());
        out.push(self.header.version);
        out.push(self.header.ttl);
        push_u16(&mut out, self.header.flags.bits);
        push_bytes(&mut out, self.header.from_seed.as_slice());
        push_bytes(&mut out, self.header.to_seed.as_slice());
        push_bytes(&mut out, self.header.nonce.as_slice());
        push_u32(&mut out, self.header.payload_len);
        assert(out@ =~= header_bytes(self@));
        let ghost records = self@.payload;
        let mut i: usize = 0;
        assert(records.subrange(0, 0) =~= Seq::<TlvModel>::empty());
        while i < self.payload.len()
            invariant
                i <= self.payload@.len(),
                records == self@.payload,
                records.len() == self.payload@.len(),
                out@ == header_bytes(self@) + tlvs_bytes(records.subrange(0, i as int)),
            decreases self.payload@.len() - i,
        {
            let t = &self.payload[i];
            let ghost before = out@;
            out.push(t.type_id);
            push_u16(&mut out, t.length);
            push_bytes(&mut out, t.value.as_slice());
            proof {
                assert(records[i as int] == t@);
                lemma_tlvs_bytes_push(records.subrange(0, i as int), t@);
                assert(records.subrange(0, i + 1) =~= records.subrange(0, i as int).push(t@));
                assert(out@ =~= before + tlv_bytes(t@));
            }
            i = i + 1;
        }
        assert(records.subrange(0, i as int) =~= records);
        out
    }

    /// Reads a packet from its wire encoding. Fails on input shorter than the
    /// fixed header, a wrong magic tag, an unknown type byte, a record that runs
    /// past the end, or a payload length that differs from the records' size.
    pub fn decode(bytes: &[u8]) -> (r: Result<MetaMeshPacket, PacketError>)
        ensures
            match r {
                Ok(p) => decode_spec(bytes@) == Ok::<PacketModel, PacketError>(p@),
                Err(e) => decode_spec(bytes@) == Err::<PacketModel, PacketError>(e),
            },
    {
        let total = bytes.len();
        if total < HEADER_LEN {
            return Err(PacketError::Truncated);
        }
        if bytes[0] != 0x4D || bytes[1] != 0x4D {
            return Err(PacketError::BadMagic);
        }
        let packet_type = match PacketType::from_byte(bytes[2]) {
            Some(t) => t,
            None => {
                return Err(PacketError::UnknownPacketType);
            },
        };
        let payload = match parse_records(bytes, HEADER_LEN) {
            Ok(v) => v,
            Err(e) => {
                return Err(e);
            },
        };
        let payload_len = read_u32(bytes, 47);
        if payload_len as u64 != (total - HEADER_LEN) as u64 {
            return Err(PacketError::PayloadLengthMismatch);
        }
        let header = PacketHeader {
            packet_type,
            version: bytes[3],
            ttl: bytes[4],
            flags: PacketFlags { bits: read_u16(bytes, 5) },
            from_seed: copy_array(bytes, 7),
            to_seed: copy_array(bytes, 23),
            nonce: copy_array(bytes, 39),
            payload_len,
        };
        let p = MetaMeshPacket { magic: copy_array(bytes, 0), header, payload };
        assert(p@ == decode_spec(bytes@)->Ok_0);
        Ok(p)
    }
}

/// Reads the payload records that fill `bytes[start..]`.
fn parse_records(bytes: &[u8], start: usize) -> (r: Result<Vec<TLV>, PacketError>)
    requires
        start <= bytes@.len(),
    ensures
        match r {
            Ok(v) => parse_tlvs(bytes@.subrange(start as int, bytes@.len() as int)) == Ok::<
                Seq<TlvModel>,
                PacketError,
            >(v@.map_values(|t: TLV| t@)),
            Err(e) => parse_tlvs(bytes@.subrange(start as int, bytes@.len() as int)) == Err::<
                Seq<TlvModel>,
                PacketError,
            >(e),
        },
{
    let total = bytes.len();
    let ghost whole = bytes@.subrange(start as int, total as int);
    let mut out: Vec<TLV> = Vec::new();
    let mut pos: usize = start;
    assert(out@.map_values(|t: TLV| t@) =~= Seq::<TlvModel>::empty());
    assert(whole =~= bytes@.subrange(pos as int, total as int));
    while pos < total
        invariant
            start <= pos <= total,
            total == bytes@.len(),
            whole == bytes@.subrange(start as int, total as int),
            parse_tlvs(whole) == after_records(
                out@.map_values(|t: TLV| t@),
                parse_tlvs(bytes@.subrange(pos as int, total as int)),
            ),
        decreases total - pos,
    {
        let ghost rest = bytes@.subrange(pos as int, total as int);
        if total - pos < 3 {
            return Err(PacketError::TruncatedTlv);
        }
        let type_id = bytes[pos];
        let length = read_u16(bytes, pos + 1);
        assert(rest[1] == bytes@[pos + 1] && rest[2] == bytes@[pos + 2]);
        if total - pos - 3 < length as usize {
            return Err(PacketError::TlvOverflow);
        }
        let end = pos + 3 + length as usize;
        let value = copy_range(bytes, pos + 3, end);
        let t = TLV { type_id, length, value };
        proof {
            assert(rest.subrange(3, 3 + length) =~= value@);
            assert(rest.subrange(3 + length, rest.len() as int) =~= bytes@.subrange(
                end as int,
                total as int,
            ));
        }
        let ghost acc = out@.map_values(|t: TLV| t@);
        out.push(t);
        proof {
            assert(out@.map_values(|t: TLV| t@) =~= acc.push(t@));
            match parse_tlvs(bytes@.subrange(end as int, total as int)) {
                Ok(ts) => {
                    assert(acc.push(t@) + ts =~= acc + (seq![t@] + ts));
                },
                Err(e) => {},
            }
        }
        pos = end;
    }
    assert(bytes@.subrange(pos as int, total as int) =~= Seq::<u8>::empty());
    assert(out@.map_values(|t: TLV| t@) + Seq::<TlvModel>::empty() =~= out@.map_values(
        |t: TLV| t@,
    ));
    Ok(out)
}

} // verus!
